//! The discoverable device model: a faithful copy of a controller's full
//! descriptor, from which the window learns what a device is. Nothing assumed.

use vstd::prelude::*;

use crate::engine::pass::{to_uppercase, uppercase};
use crate::engine::{decimal_is_digits, free_of, last_cut_is_unique};
use crate::openrgb::wire::save_flags_decide;
use crate::openrgb::{
    Controller, MatrixDesc, Mode, ZoneDesc, MODE_FLAGS_DIRECTION, MODE_FLAG_HAS_MODE_SPECIFIC_COLOR,
    MODE_FLAG_HAS_PER_LED_COLOR,
};
use crate::rgb::Rgb;
use crate::text::{
    contains, contains_text, decimal, decimals_differ, eq_ignore_case, push_decimal,
    same_ignoring_case,
};

verus! {

#[derive(Debug)]
pub struct DeviceDescriptor {
    pub index: u32,
    pub name: String,
    pub vendor: String,
    pub description: String,
    pub location: String,
    pub serial: String,
    pub kind: DeviceKind,
    pub zones: Vec<ZoneInfo>,
    pub leds: Vec<LedInfo>,
    pub modes: Vec<ModeInfo>,
    pub active_mode: usize,
    /// Current per-LED colors (the last ones set, not a hardware read).
    pub colors: Vec<Rgb>,
    pub led_count: u16,
}

#[derive(Debug)]
pub struct ZoneInfo {
    pub name: String,
    pub kind: ZoneKind,
    pub start: u32,
    pub leds_count: u32,
    pub leds_min: u32,
    pub leds_max: u32,
    pub matrix: Option<Matrix>,
}

#[derive(Debug)]
pub struct Matrix {
    pub height: u32,
    pub width: u32,
    /// Row-major; `None` marks a gap.
    pub map: Vec<Option<u32>>,
}

#[derive(Debug)]
pub struct LedInfo {
    pub name: String,
}

#[derive(Debug)]
pub struct ModeInfo {
    pub name: String,
    pub flags: u32,
    pub has_speed: bool,
    pub has_brightness: bool,
    pub has_direction: bool,
    pub takes_color: bool,
    pub can_save: bool,
    pub speed_range: (u32, u32),
    pub brightness_range: (u32, u32),
}

#[derive(Clone, Copy, Debug, PartialEq, Eq, Structural)]
pub enum DeviceKind {
    Motherboard,
    Dram,
    Gpu,
    Cooler,
    LedStrip,
    Keyboard,
    Mouse,
    Mousemat,
    Headset,
    Gamepad,
    Light,
    Case,
    Storage,
    Accessory,
    Unknown,
}

impl DeviceKind {
    /// The kind that an OpenRGB device type stands for.
    pub open spec fn of_type(v: int) -> DeviceKind {
        if v == 0 {
            DeviceKind::Motherboard
        } else if v == 1 {
            DeviceKind::Dram
        } else if v == 2 {
            DeviceKind::Gpu
        } else if v == 3 {
            DeviceKind::Cooler
        } else if v == 4 {
            DeviceKind::LedStrip
        } else if v == 5 {
            DeviceKind::Keyboard
        } else if v == 6 {
            DeviceKind::Mouse
        } else if v == 7 {
            DeviceKind::Mousemat
        } else if v == 8 {
            DeviceKind::Headset
        } else if v == 10 {
            DeviceKind::Gamepad
        } else if v == 11 {
            DeviceKind::Light
        } else if v == 14 {
            DeviceKind::Storage
        } else if v == 15 {
            DeviceKind::Case
        } else if v == 17 {
            DeviceKind::Accessory
        } else {
            DeviceKind::Unknown
        }
    }

    pub fn from_i32(v: i32) -> (r: Self)
        ensures
            r == DeviceKind::of_type(v as int),
    {
        match v {
            0 => DeviceKind::Motherboard,
            1 => DeviceKind::Dram,
            2 => DeviceKind::Gpu,
            3 => DeviceKind::Cooler,
            4 => DeviceKind::LedStrip,
            5 => DeviceKind::Keyboard,
            6 => DeviceKind::Mouse,
            7 => DeviceKind::Mousemat,
            8 => DeviceKind::Headset,
            10 => DeviceKind::Gamepad,
            11 => DeviceKind::Light,
            14 => DeviceKind::Storage,
            15 => DeviceKind::Case,
            17 => DeviceKind::Accessory,
            _ => DeviceKind::Unknown,
        }
    }

    pub open spec fn name(self) -> Seq<char> {
        match self {
            DeviceKind::Motherboard => "Motherboard"@,
            DeviceKind::Dram => "RAM"@,
            DeviceKind::Gpu => "GPU"@,
            DeviceKind::Cooler => "Cooler"@,
            DeviceKind::LedStrip => "LED strip"@,
            DeviceKind::Keyboard => "Keyboard"@,
            DeviceKind::Mouse => "Mouse"@,
            DeviceKind::Mousemat => "Mousemat"@,
            DeviceKind::Headset => "Headset"@,
            DeviceKind::Gamepad => "Gamepad"@,
            DeviceKind::Light => "Light"@,
            DeviceKind::Case => "Case"@,
            DeviceKind::Storage => "Storage"@,
            DeviceKind::Accessory => "Accessory"@,
            DeviceKind::Unknown => "Device"@,
        }
    }

    pub fn label(self) -> (r: &'static str)
        ensures
            r@ == self.name(),
    {
        match self {
            DeviceKind::Motherboard => "Motherboard",
            DeviceKind::Dram => "RAM",
            DeviceKind::Gpu => "GPU",
            DeviceKind::Cooler => "Cooler",
            DeviceKind::LedStrip => "LED strip",
            DeviceKind::Keyboard => "Keyboard",
            DeviceKind::Mouse => "Mouse",
            DeviceKind::Mousemat => "Mousemat",
            DeviceKind::Headset => "Headset",
            DeviceKind::Gamepad => "Gamepad",
            DeviceKind::Light => "Light",
            DeviceKind::Case => "Case",
            DeviceKind::Storage => "Storage",
            DeviceKind::Accessory => "Accessory",
            DeviceKind::Unknown => "Device",
        }
    }
}

#[derive(Clone, Copy, Debug, PartialEq, Eq, Structural)]
pub enum ZoneKind {
    Single,
    Linear,
    Matrix,
}

impl ZoneKind {
    /// The kind that an OpenRGB zone type stands for.
    pub open spec fn of_type(v: int) -> ZoneKind {
        if v == 0 {
            ZoneKind::Single
        } else if v == 2 {
            ZoneKind::Matrix
        } else {
            ZoneKind::Linear
        }
    }

    pub fn from_i32(v: i32) -> (r: Self)
        ensures
            r == ZoneKind::of_type(v as int),
    {
        match v {
            0 => ZoneKind::Single,
            2 => ZoneKind::Matrix,
            _ => ZoneKind::Linear,
        }
    }

    pub open spec fn name(self) -> Seq<char> {
        match self {
            ZoneKind::Single => "single"@,
            ZoneKind::Linear => "linear"@,
            ZoneKind::Matrix => "matrix"@,
        }
    }

    pub fn label(self) -> (r: &'static str)
        ensures
            r@ == self.name(),
    {
        match self {
            ZoneKind::Single => "single",
            ZoneKind::Linear => "linear",
            ZoneKind::Matrix => "matrix",
        }
    }

    pub open spec fn number(self) -> nat {
        match self {
            ZoneKind::Single => 0,
            ZoneKind::Linear => 1,
            ZoneKind::Matrix => 2,
        }
    }

    /// The kind's place in the order single, linear, matrix.
    pub fn code(self) -> (r: u8)
        ensures
            r == self.number(),
    {
        match self {
            ZoneKind::Single => 0,
            ZoneKind::Linear => 1,
            ZoneKind::Matrix => 2,
        }
    }
}

// ------------------------------------------------------------------ copies

/// The same matrix.
pub open spec fn same_matrix(a: Option<Matrix>, b: Option<Matrix>) -> bool {
    match (a, b) {
        (None, None) => true,
        (Some(x), Some(y)) => x.height == y.height && x.width == y.width && x.map@ == y.map@,
        _ => false,
    }
}

/// The same zone.
pub open spec fn same_zone(a: ZoneInfo, b: ZoneInfo) -> bool {
    &&& a.name@ == b.name@
    &&& a.kind == b.kind
    &&& a.start == b.start
    &&& a.leds_count == b.leds_count
    &&& a.leds_min == b.leds_min
    &&& a.leds_max == b.leds_max
    &&& same_matrix(a.matrix, b.matrix)
}

/// The same mode.
pub open spec fn same_mode(a: ModeInfo, b: ModeInfo) -> bool {
    &&& a.name@ == b.name@
    &&& a.flags == b.flags
    &&& a.has_speed == b.has_speed
    &&& a.has_brightness == b.has_brightness
    &&& a.has_direction == b.has_direction
    &&& a.takes_color == b.takes_color
    &&& a.can_save == b.can_save
    &&& a.speed_range == b.speed_range
    &&& a.brightness_range == b.brightness_range
}

/// The same device.
pub open spec fn same_device(a: DeviceDescriptor, b: DeviceDescriptor) -> bool {
    &&& a.index == b.index
    &&& a.name@ == b.name@
    &&& a.vendor@ == b.vendor@
    &&& a.description@ == b.description@
    &&& a.location@ == b.location@
    &&& a.serial@ == b.serial@
    &&& a.kind == b.kind
    &&& a.zones@.len() == b.zones@.len()
    &&& forall|i: int| 0 <= i < a.zones@.len() ==> same_zone(#[trigger] a.zones@[i], b.zones@[i])
    &&& a.leds@.len() == b.leds@.len()
    &&& forall|i: int| 0 <= i < a.leds@.len() ==> (#[trigger] a.leds@[i]).name@ == b.leds@[i].name@
    &&& a.modes@.len() == b.modes@.len()
    &&& forall|i: int| 0 <= i < a.modes@.len() ==> same_mode(#[trigger] a.modes@[i], b.modes@[i])
    &&& a.active_mode == b.active_mode
    &&& a.colors@ == b.colors@
    &&& a.led_count == b.led_count
}

/// The same devices, in order.
pub open spec fn same_devices(a: Seq<DeviceDescriptor>, b: Seq<DeviceDescriptor>) -> bool {
    &&& a.len() == b.len()
    &&& forall|i: int| 0 <= i < a.len() ==> same_device(#[trigger] a[i], b[i])
}

impl Clone for ZoneInfo {
    fn clone(&self) -> (r: Self)
        ensures
            same_zone(r, *self),
    {
        ZoneInfo {
            name: self.name.clone(),
            kind: self.kind,
            start: self.start,
            leds_count: self.leds_count,
            leds_min: self.leds_min,
            leds_max: self.leds_max,
            matrix: match &self.matrix {
                Some(m) => Some(
                    Matrix { height: m.height, width: m.width, map: copy_cells(&m.map) },
                ),
                None => None,
            },
        }
    }
}

impl Clone for LedInfo {
    fn clone(&self) -> (r: Self)
        ensures
            r.name@ == self.name@,
    {
        LedInfo { name: self.name.clone() }
    }
}

impl Clone for ModeInfo {
    fn clone(&self) -> (r: Self)
        ensures
            same_mode(r, *self),
    {
        ModeInfo {
            name: self.name.clone(),
            flags: self.flags,
            has_speed: self.has_speed,
            has_brightness: self.has_brightness,
            has_direction: self.has_direction,
            takes_color: self.takes_color,
            can_save: self.can_save,
            speed_range: self.speed_range,
            brightness_range: self.brightness_range,
        }
    }
}

impl Clone for DeviceDescriptor {
    fn clone(&self) -> (r: Self)
        ensures
            same_device(r, *self),
    {
        let mut zones: Vec<ZoneInfo> = Vec::new();
        let mut i: usize = 0;
        while i < self.zones.len()
            invariant
                i <= self.zones@.len(),
                zones@.len() == i,
                forall|k: int| 0 <= k < i ==> same_zone(#[trigger] zones@[k], self.zones@[k]),
            decreases self.zones@.len() - i,
        {
            zones.push(self.zones[i].clone());
            i += 1;
        }
        let mut leds: Vec<LedInfo> = Vec::new();
        let mut j: usize = 0;
        while j < self.leds.len()
            invariant
                j <= self.leds@.len(),
                leds@.len() == j,
                forall|k: int| 0 <= k < j ==> (#[trigger] leds@[k]).name@ == self.leds@[k].name@,
            decreases self.leds@.len() - j,
        {
            leds.push(self.leds[j].clone());
            j += 1;
        }
        let mut modes: Vec<ModeInfo> = Vec::new();
        let mut m: usize = 0;
        while m < self.modes.len()
            invariant
                m <= self.modes@.len(),
                modes@.len() == m,
                forall|k: int| 0 <= k < m ==> same_mode(#[trigger] modes@[k], self.modes@[k]),
            decreases self.modes@.len() - m,
        {
            modes.push(self.modes[m].clone());
            m += 1;
        }
        let colors = self.colors.clone();
        assert(colors@ =~= self.colors@);
        DeviceDescriptor {
            index: self.index,
            name: self.name.clone(),
            vendor: self.vendor.clone(),
            description: self.description.clone(),
            location: self.location.clone(),
            serial: self.serial.clone(),
            kind: self.kind,
            zones,
            leds,
            modes,
            active_mode: self.active_mode,
            colors,
            led_count: self.led_count,
        }
    }
}

/// Copies some devices.
pub fn copy_devices(v: &Vec<DeviceDescriptor>) -> (r: Vec<DeviceDescriptor>)
    ensures
        same_devices(r@, v@),
{
    let mut out: Vec<DeviceDescriptor> = Vec::new();
    let mut i: usize = 0;
    while i < v.len()
        invariant
            i <= v@.len(),
            out@.len() == i,
            forall|k: int| 0 <= k < i ==> same_device(#[trigger] out@[k], v@[k]),
        decreases v@.len() - i,
    {
        out.push(v[i].clone());
        i += 1;
    }
    out
}

// -------------------------------------------------------------- projection

/// What the window shows of some controllers, in order.
pub open spec fn shows_all(c: Seq<Controller>, d: Seq<DeviceDescriptor>) -> bool {
    &&& d.len() == c.len()
    &&& forall|i: int| 0 <= i < d.len() ==> shows(c[i], #[trigger] d[i])
}

/// What the window shows of some controllers, in order.
pub fn describe_all(controllers: &Vec<Controller>) -> (r: Vec<DeviceDescriptor>)
    ensures
        shows_all(controllers@, r@),
{
    let mut out: Vec<DeviceDescriptor> = Vec::new();
    let mut i: usize = 0;
    while i < controllers.len()
        invariant
            i <= controllers@.len(),
            out@.len() == i,
            forall|k: int| 0 <= k < i ==> shows(controllers@[k], #[trigger] out@[k]),
        decreases controllers@.len() - i,
    {
        out.push(DeviceDescriptor::of(&controllers[i]));
        i += 1;
    }
    out
}

/// A matrix as the window sees it.
pub open spec fn shows_matrix(d: Option<MatrixDesc>, m: Option<Matrix>) -> bool {
    match (d, m) {
        (None, None) => true,
        (Some(d), Some(m)) => d.height == m.height && d.width == m.width && d.map@ == m.map@,
        _ => false,
    }
}

/// A zone as the window sees it.
pub open spec fn shows_zone(z: ZoneDesc, i: ZoneInfo) -> bool {
    &&& i.name@ == z.name@
    &&& i.kind == ZoneKind::of_type(z.kind as int)
    &&& i.start == z.start
    &&& i.leds_count == z.leds_count
    &&& i.leds_min == z.leds_min
    &&& i.leds_max == z.leds_max
    &&& shows_matrix(z.matrix, i.matrix)
}

/// A mode as the window sees it.
pub open spec fn shows_mode(m: Mode, i: ModeInfo) -> bool {
    &&& i.name@ == m.name@
    &&& i.flags == m.flags
    &&& i.has_speed == (m.speed_max > m.speed_min)
    &&& i.has_brightness == (m.brightness_max > m.brightness_min)
    &&& i.has_direction == (m.flags & MODE_FLAGS_DIRECTION != 0)
    &&& i.takes_color == (m.flags & (MODE_FLAG_HAS_PER_LED_COLOR
        | MODE_FLAG_HAS_MODE_SPECIFIC_COLOR) != 0 || m.colors_max > 0)
    &&& i.can_save == m.savable()
    &&& i.speed_range == (m.speed_min, m.speed_max)
    &&& i.brightness_range == (m.brightness_min, m.brightness_max)
}

/// The kind of a device by its type and its name in upper case: memory modules
/// report themselves as a motherboard.
pub open spec fn kind_by(dev_type: int, upper_name: Seq<char>) -> DeviceKind {
    let kind = DeviceKind::of_type(dev_type);
    if kind == DeviceKind::Motherboard && contains_text(upper_name, "DIMM"@) {
        DeviceKind::Dram
    } else {
        kind
    }
}

/// The kind of a device by its type and its name in upper case.
pub fn kind_of(dev_type: i32, upper_name: &str) -> (r: DeviceKind)
    ensures
        r == kind_by(dev_type as int, upper_name@),
{
    let kind = DeviceKind::from_i32(dev_type);
    if kind == DeviceKind::Motherboard && contains(upper_name, "DIMM") {
        DeviceKind::Dram
    } else {
        kind
    }
}

/// A controller as the window sees it.
pub open spec fn shows(c: Controller, d: DeviceDescriptor) -> bool {
    &&& d.index == c.index
    &&& d.name@ == c.name@
    &&& d.vendor@ == c.vendor@
    &&& d.description@ == c.description@
    &&& d.location@ == c.location@
    &&& d.serial@ == c.serial@
    &&& d.kind == kind_by(c.dev_type as int, uppercase(c.name@))
    &&& d.zones@.len() == c.zones@.len()
    &&& forall|i: int| 0 <= i < d.zones@.len() ==> shows_zone(c.zones@[i], #[trigger] d.zones@[i])
    &&& d.leds@.len() == c.leds@.len()
    &&& forall|i: int| 0 <= i < d.leds@.len() ==> (#[trigger] d.leds@[i]).name@ == c.leds@[i]@
    &&& d.modes@.len() == c.modes@.len()
    &&& forall|i: int| 0 <= i < d.modes@.len() ==> shows_mode(c.modes@[i], #[trigger] d.modes@[i])
    &&& d.active_mode == c.active_mode
    &&& d.colors@ == c.colors@
    &&& d.led_count == c.led_count
}

/// A copy of what shows some controllers shows them too.
pub proof fn copies_show_the_same(
    c: Seq<Controller>,
    d: Seq<DeviceDescriptor>,
    copy: Seq<DeviceDescriptor>,
)
    requires
        shows_all(c, d),
        same_devices(copy, d),
    ensures
        shows_all(c, copy),
{
    assert forall|i: int| 0 <= i < copy.len() implies shows(c[i], #[trigger] copy[i]) by {
        let (a, b) = (copy[i], d[i]);
        assert(same_device(a, b) && shows(c[i], b));
        assert forall|k: int| 0 <= k < a.zones@.len() implies shows_zone(
            c[i].zones@[k],
            #[trigger] a.zones@[k],
        ) by {
            assert(same_zone(a.zones@[k], b.zones@[k]));
        }
        assert forall|k: int| 0 <= k < a.leds@.len() implies (#[trigger] a.leds@[k]).name@
            == c[i].leds@[k]@ by {
            assert(a.leds@[k].name@ == b.leds@[k].name@);
        }
        assert forall|k: int| 0 <= k < a.modes@.len() implies shows_mode(
            c[i].modes@[k],
            #[trigger] a.modes@[k],
        ) by {
            assert(same_mode(a.modes@[k], b.modes@[k]));
        }
    }
}

fn copy_cells(map: &Vec<Option<u32>>) -> (r: Vec<Option<u32>>)
    ensures
        r@ == map@,
{
    let mut out: Vec<Option<u32>> = Vec::new();
    let mut i: usize = 0;
    while i < map.len()
        invariant
            i <= map@.len(),
            out@ == map@.take(i as int),
        decreases map@.len() - i,
    {
        out.push(map[i]);
        assert(out@ =~= map@.take(i + 1));
        i += 1;
    }
    assert(map@.take(i as int) =~= map@);
    out
}

impl ZoneInfo {
    pub fn of(z: &ZoneDesc) -> (r: Self)
        ensures
            shows_zone(*z, r),
    {
        ZoneInfo {
            name: z.name.clone(),
            kind: ZoneKind::from_i32(z.kind),
            start: z.start,
            leds_count: z.leds_count,
            leds_min: z.leds_min,
            leds_max: z.leds_max,
            matrix: match &z.matrix {
                Some(m) => Some(
                    Matrix { height: m.height, width: m.width, map: copy_cells(&m.map) },
                ),
                None => None,
            },
        }
    }
}

impl ModeInfo {
    pub fn of(m: &Mode) -> (r: Self)
        ensures
            shows_mode(*m, r),
    {
        ModeInfo {
            name: m.name.clone(),
            flags: m.flags,
            has_speed: m.has_speed(),
            has_brightness: m.has_brightness(),
            has_direction: m.has_direction(),
            takes_color: m.flags & (MODE_FLAG_HAS_PER_LED_COLOR | MODE_FLAG_HAS_MODE_SPECIFIC_COLOR)
                != 0 || m.takes_color(),
            can_save: m.can_save(),
            speed_range: (m.speed_min, m.speed_max),
            brightness_range: (m.brightness_min, m.brightness_max),
        }
    }
}

/// The modes that the window offers: all but the raw direct mode.
pub open spec fn offered_modes(modes: Seq<ModeInfo>) -> Seq<ModeInfo> {
    modes.filter(|m: ModeInfo| !same_ignoring_case(m.name@, "direct"@))
}

/// A zone's shape in words: name, kind, LED count.
pub open spec fn zone_shape(z: ZoneInfo) -> Seq<char> {
    z.name@ + ":"@ + decimal(z.kind.number()) + ":"@ + decimal(z.leds_count as nat)
}

/// The shapes of some zones, with commas between them.
pub open spec fn zones_shape(zones: Seq<ZoneInfo>) -> Seq<char>
    decreases zones.len(),
{
    if zones.len() == 0 {
        Seq::empty()
    } else if zones.len() == 1 {
        zone_shape(zones[0])
    } else {
        zones_shape(zones.drop_last()) + ","@ + zone_shape(zones.last())
    }
}

impl DeviceDescriptor {
    /// What the window shows of a controller.
    pub fn of(c: &Controller) -> (r: Self)
        ensures
            shows(*c, r),
    {
        let kind = kind_of(c.dev_type, to_uppercase(c.name.as_str()).as_str());
        let mut zones: Vec<ZoneInfo> = Vec::new();
        let mut i: usize = 0;
        while i < c.zones.len()
            invariant
                i <= c.zones@.len(),
                zones@.len() == i,
                forall|k: int| 0 <= k < i ==> shows_zone(c.zones@[k], #[trigger] zones@[k]),
            decreases c.zones@.len() - i,
        {
            zones.push(ZoneInfo::of(&c.zones[i]));
            i += 1;
        }
        let mut leds: Vec<LedInfo> = Vec::new();
        let mut j: usize = 0;
        while j < c.leds.len()
            invariant
                j <= c.leds@.len(),
                leds@.len() == j,
                forall|k: int| 0 <= k < j ==> (#[trigger] leds@[k]).name@ == c.leds@[k]@,
            decreases c.leds@.len() - j,
        {
            leds.push(LedInfo { name: c.leds[j].clone() });
            j += 1;
        }
        let mut modes: Vec<ModeInfo> = Vec::new();
        let mut m: usize = 0;
        while m < c.modes.len()
            invariant
                m <= c.modes@.len(),
                modes@.len() == m,
                forall|k: int| 0 <= k < m ==> shows_mode(c.modes@[k], #[trigger] modes@[k]),
            decreases c.modes@.len() - m,
        {
            modes.push(ModeInfo::of(&c.modes[m]));
            m += 1;
        }
        let colors = c.colors.clone();
        assert(colors@ =~= c.colors@);
        DeviceDescriptor {
            index: c.index,
            name: c.name.clone(),
            vendor: c.vendor.clone(),
            description: c.description.clone(),
            location: c.location.clone(),
            serial: c.serial.clone(),
            kind,
            zones,
            leds,
            modes,
            active_mode: c.active_mode,
            colors,
            led_count: c.led_count,
        }
    }

    /// The names of the modes that the window offers.
    pub fn effect_mode_names(&self) -> (r: Vec<String>)
        ensures
            r@.len() == offered_modes(self.modes@).len(),
            forall|i: int|
                0 <= i < r@.len() ==> (#[trigger] r@[i])@ == offered_modes(self.modes@)[i].name@,
    {
        let mut out: Vec<String> = Vec::new();
        let mut i: usize = 0;
        proof {
            reveal(Seq::filter);
            assert(self.modes@.take(0) =~= Seq::<ModeInfo>::empty());
        }
        while i < self.modes.len()
            invariant
                i <= self.modes@.len(),
                out@.len() == offered_modes(self.modes@.take(i as int)).len(),
                forall|k: int|
                    0 <= k < out@.len() ==> (#[trigger] out@[k])@ == offered_modes(
                        self.modes@.take(i as int),
                    )[k].name@,
            decreases self.modes@.len() - i,
        {
            proof {
                reveal(Seq::filter);
                let next = self.modes@.take(i + 1);
                assert(next.drop_last() =~= self.modes@.take(i as int));
                assert(next.last() == self.modes@[i as int]);
            }
            if !eq_ignore_case(self.modes[i].name.as_str(), "direct") {
                out.push(self.modes[i].name.clone());
            }
            i += 1;
        }
        assert(self.modes@.take(i as int) =~= self.modes@);
        out
    }

    /// The device's shape in words: its name, its LED count and its zones.
    #[verifier::opaque]
    pub open spec fn shape(self) -> Seq<char> {
        self.name@ + "|"@ + decimal(self.led_count as nat) + "|"@ + zones_shape(self.zones@)
    }

    /// A stable key over the device's shape: its name, its LED count and its
    /// zones.
    pub fn topology_sig(&self) -> (r: String)
        ensures
            r@ == self.shape(),
    {
        reveal(DeviceDescriptor::shape);
        let mut out = String::new();
        out.append(self.name.as_str());
        out.append("|");
        push_decimal(&mut out, self.led_count as u128);
        out.append("|");
        let ghost head = self.name@ + "|"@ + decimal(self.led_count as nat) + "|"@;
        let mut i: usize = 0;
        assert(out@ =~= head + zones_shape(self.zones@.take(0)));
        while i < self.zones.len()
            invariant
                i <= self.zones@.len(),
                out@ == head + zones_shape(self.zones@.take(i as int)),
            decreases self.zones@.len() - i,
        {
            if i > 0 {
                out.append(",");
            }
            let z = &self.zones[i];
            out.append(z.name.as_str());
            out.append(":");
            push_decimal(&mut out, z.kind.code() as u128);
            out.append(":");
            push_decimal(&mut out, z.leds_count as u128);
            proof {
                let next = self.zones@.take(i + 1);
                assert(next.drop_last() =~= self.zones@.take(i as int));
                assert(out@ =~= head + zones_shape(next));
            }
            i += 1;
        }
        assert(self.zones@.take(i as int) =~= self.zones@);
        out
    }
}

// -------------------------------------------------------------------- laws

/// Whether two zones have one shape.
pub open spec fn same_zone_shape(a: ZoneInfo, b: ZoneInfo) -> bool {
    a.name@ == b.name@ && a.kind == b.kind && a.leds_count == b.leds_count
}

/// Whether two devices have one shape.
pub open spec fn same_shape(a: DeviceDescriptor, b: DeviceDescriptor) -> bool {
    &&& a.name@ == b.name@
    &&& a.led_count == b.led_count
    &&& a.zones@.len() == b.zones@.len()
    &&& forall|i: int|
        0 <= i < a.zones@.len() ==> same_zone_shape(#[trigger] a.zones@[i], b.zones@[i])
}

proof fn zones_shape_agrees(a: Seq<ZoneInfo>, b: Seq<ZoneInfo>)
    requires
        a.len() == b.len(),
        forall|i: int| 0 <= i < a.len() ==> same_zone_shape(#[trigger] a[i], b[i]),
    ensures
        zones_shape(a) == zones_shape(b),
    decreases a.len(),
{
    if a.len() > 1 {
        let x = a.drop_last();
        let y = b.drop_last();
        assert forall|i: int| 0 <= i < x.len() implies same_zone_shape(#[trigger] x[i], y[i]) by {
            assert(same_zone_shape(a[i], b[i]));
        }
        zones_shape_agrees(x, y);
        assert(same_zone_shape(a[a.len() - 1], b[b.len() - 1]));
    } else if a.len() == 1 {
        assert(same_zone_shape(a[0], b[0]));
    }
}

/// The key tracks the shape and nothing else: devices of one shape have one key,
/// whatever their colors, modes or LED names.
pub proof fn keys_follow_the_shape(a: DeviceDescriptor, b: DeviceDescriptor)
    requires
        same_shape(a, b),
    ensures
        a.shape() == b.shape(),
{
    reveal(DeviceDescriptor::shape);
    zones_shape_agrees(a.zones@, b.zones@);
}

proof fn zone_shapes_differ(a: ZoneInfo, b: ZoneInfo, x: Seq<char>, y: Seq<char>)
    requires
        a.name@ == b.name@,
        x + zone_shape(a) == y + zone_shape(b),
    ensures
        a.kind == b.kind,
        a.leds_count == b.leds_count,
        x == y,
{
    reveal_strlit(":");
    let colon = seq![':'];
    assert(":"@ =~= colon);
    decimal_is_digits(a.leds_count as nat);
    decimal_is_digits(b.leds_count as nat);
    let pa = x + a.name@ + colon + decimal(a.kind.number());
    let pb = y + b.name@ + colon + decimal(b.kind.number());
    assert(x + zone_shape(a) =~= pa.push(':') + decimal(a.leds_count as nat));
    assert(y + zone_shape(b) =~= pb.push(':') + decimal(b.leds_count as nat));
    last_cut_is_unique(pa, pb, ':', decimal(a.leds_count as nat), decimal(b.leds_count as nat));
    decimals_differ(a.leds_count as nat, b.leds_count as nat);
    decimal_is_digits(a.kind.number());
    decimal_is_digits(b.kind.number());
    let qa = x + a.name@;
    let qb = y + b.name@;
    assert(pa =~= qa.push(':') + decimal(a.kind.number()));
    assert(pb =~= qb.push(':') + decimal(b.kind.number()));
    last_cut_is_unique(qa, qb, ':', decimal(a.kind.number()), decimal(b.kind.number()));
    decimals_differ(a.kind.number(), b.kind.number());
    assert(qa.len() == x.len() + a.name@.len());
    assert(qb.len() == y.len() + b.name@.len());
    assert(x =~= qa.take(x.len() as int));
    assert(y =~= qb.take(y.len() as int));
}

proof fn zones_shapes_differ(a: Seq<ZoneInfo>, b: Seq<ZoneInfo>)
    requires
        a.len() == b.len(),
        forall|i: int| 0 <= i < a.len() ==> (#[trigger] a[i]).name@ == b[i].name@,
        zones_shape(a) == zones_shape(b),
    ensures
        forall|i: int| 0 <= i < a.len() ==> same_zone_shape(#[trigger] a[i], b[i]),
    decreases a.len(),
{
    if a.len() == 1 {
        let none = Seq::<char>::empty();
        assert(a[0].name@ == b[0].name@);
        assert(none + zone_shape(a[0]) =~= zones_shape(a));
        assert(none + zone_shape(b[0]) =~= zones_shape(b));
        zone_shapes_differ(a[0], b[0], none, none);
    } else if a.len() > 1 {
        let n = a.len() - 1;
        let x = zones_shape(a.drop_last()) + ","@;
        let y = zones_shape(b.drop_last()) + ","@;
        assert(a[n].name@ == b[n].name@);
        zone_shapes_differ(a.last(), b.last(), x, y);
        assert(x.len() == zones_shape(a.drop_last()).len() + ","@.len());
        assert(y.len() == zones_shape(b.drop_last()).len() + ","@.len());
        assert(zones_shape(a.drop_last()) =~= x.take(zones_shape(a.drop_last()).len() as int));
        assert(zones_shape(b.drop_last()) =~= y.take(zones_shape(b.drop_last()).len() as int));
        assert forall|i: int| 0 <= i < n implies (#[trigger] a.drop_last()[i]).name@
            == b.drop_last()[i].name@ by {
            assert(a[i].name@ == b[i].name@);
        }
        zones_shapes_differ(a.drop_last(), b.drop_last());
        assert forall|i: int| 0 <= i < a.len() implies same_zone_shape(#[trigger] a[i], b[i]) by {
            if i < n {
                assert(same_zone_shape(a.drop_last()[i], b.drop_last()[i]));
            }
        }
    }
}

/// A changed topology changes the key: between devices whose zones have the same
/// names, equal keys mean equal LED counts and kinds throughout. (Names are free
/// text, so zones of other names can spell out the same key.)
pub proof fn keys_refuse_a_changed_topology(a: DeviceDescriptor, b: DeviceDescriptor)
    requires
        a.name@ == b.name@,
        a.zones@.len() == b.zones@.len(),
        forall|i: int| 0 <= i < a.zones@.len() ==> (#[trigger] a.zones@[i]).name@ == b.zones@[i].name@,
        a.shape() == b.shape(),
    ensures
        same_shape(a, b),
{
    reveal(DeviceDescriptor::shape);
    reveal_strlit("|");
    let bar = seq!['|'];
    assert("|"@ =~= bar);
    let head = a.name@ + bar;
    let da = decimal(a.led_count as nat);
    let db = decimal(b.led_count as nat);
    let za = zones_shape(a.zones@);
    let zb = zones_shape(b.zones@);
    decimal_is_digits(a.led_count as nat);
    decimal_is_digits(b.led_count as nat);
    let ta = da + bar + za;
    let tb = db + bar + zb;
    assert(a.shape() =~= head + ta);
    assert(b.shape() =~= head + tb);
    assert(ta =~= a.shape().skip(head.len() as int));
    assert(tb =~= b.shape().skip(head.len() as int));
    assert(ta[da.len() as int] == '|');
    assert(tb[db.len() as int] == '|');
    if da.len() < db.len() {
        assert(tb[da.len() as int] == db[da.len() as int]);
    }
    if db.len() < da.len() {
        assert(ta[db.len() as int] == da[db.len() as int]);
    }
    assert(da =~= ta.take(da.len() as int));
    assert(db =~= tb.take(db.len() as int));
    decimals_differ(a.led_count as nat, b.led_count as nat);
    assert(za =~= ta.skip((da.len() + 1) as int));
    assert(zb =~= tb.skip((db.len() + 1) as int));
    zones_shapes_differ(a.zones@, b.zones@);
}

/// Whether no zone's name holds a separator of the key.
pub open spec fn plain_names(zones: Seq<ZoneInfo>) -> bool {
    forall|i: int|
        0 <= i < zones.len() ==> free_of((#[trigger] zones[i]).name@, ',') && free_of(
            zones[i].name@,
            '|',
        )
}

proof fn zone_shape_is_free_of(z: ZoneInfo, c: char)
    requires
        free_of(z.name@, c),
        c == ',' || c == '|',
    ensures
        free_of(zone_shape(z), c),
{
    reveal_strlit(":");
    decimal_is_digits(z.kind.number());
    decimal_is_digits(z.leds_count as nat);
    let named = z.name@ + ":"@;
    assert(free_of(named, c));
    let kinded = named + decimal(z.kind.number()) + ":"@;
    assert(free_of(kinded, c));
    assert(zone_shape(z) =~= kinded + decimal(z.leds_count as nat));
}

proof fn zones_shape_has_no_bar(zones: Seq<ZoneInfo>)
    requires
        plain_names(zones),
    ensures
        free_of(zones_shape(zones), '|'),
    decreases zones.len(),
{
    reveal_strlit(",");
    if zones.len() == 1 {
        zone_shape_is_free_of(zones[0], '|');
    } else if zones.len() > 1 {
        let init = zones.drop_last();
        assert(plain_names(init)) by {
            assert forall|i: int| 0 <= i < init.len() implies free_of(
                (#[trigger] init[i]).name@,
                ',',
            ) && free_of(init[i].name@, '|') by {
                assert(init[i] == zones[i]);
            }
        }
        zones_shape_has_no_bar(init);
        assert(zones.last() == zones[zones.len() - 1]);
        zone_shape_is_free_of(zones.last(), '|');
        let head = zones_shape(init) + ","@;
        assert(free_of(head, '|'));
        assert(zones_shape(zones) =~= head + zone_shape(zones.last()));
    }
}

proof fn zone_shape_reads_back(a: ZoneInfo, b: ZoneInfo)
    requires
        zone_shape(a) == zone_shape(b),
    ensures
        same_zone_shape(a, b),
{
    reveal_strlit(":");
    let colon = seq![':'];
    assert(":"@ =~= colon);
    decimal_is_digits(a.leds_count as nat);
    decimal_is_digits(b.leds_count as nat);
    decimal_is_digits(a.kind.number());
    decimal_is_digits(b.kind.number());
    let pa = a.name@ + colon + decimal(a.kind.number());
    let pb = b.name@ + colon + decimal(b.kind.number());
    assert(zone_shape(a) =~= pa.push(':') + decimal(a.leds_count as nat));
    assert(zone_shape(b) =~= pb.push(':') + decimal(b.leds_count as nat));
    last_cut_is_unique(pa, pb, ':', decimal(a.leds_count as nat), decimal(b.leds_count as nat));
    decimals_differ(a.leds_count as nat, b.leds_count as nat);
    assert(pa =~= a.name@.push(':') + decimal(a.kind.number()));
    assert(pb =~= b.name@.push(':') + decimal(b.kind.number()));
    last_cut_is_unique(
        a.name@,
        b.name@,
        ':',
        decimal(a.kind.number()),
        decimal(b.kind.number()),
    );
    decimals_differ(a.kind.number(), b.kind.number());
}

/// The shapes of zones with plain names read back.
proof fn zones_shape_reads_back(a: Seq<ZoneInfo>, b: Seq<ZoneInfo>)
    requires
        plain_names(a),
        plain_names(b),
        zones_shape(a) == zones_shape(b),
    ensures
        a.len() == b.len(),
        forall|i: int| 0 <= i < a.len() ==> same_zone_shape(#[trigger] a[i], b[i]),
    decreases a.len() + b.len(),
{
    reveal_strlit(",");
    reveal_strlit(":");
    if a.len() == 1 {
        zone_shape_is_free_of(a[0], ',');
    }
    if b.len() == 1 {
        zone_shape_is_free_of(b[0], ',');
    }
    if a.len() > 1 {
        let cut = zones_shape(a.drop_last());
        assert(zones_shape(a) == cut + ","@ + zone_shape(a.last()));
        assert(zones_shape(a)[cut.len() as int] == ',');
    }
    if b.len() > 1 {
        let cut = zones_shape(b.drop_last());
        assert(zones_shape(b) == cut + ","@ + zone_shape(b.last()));
        assert(zones_shape(b)[cut.len() as int] == ',');
    }
    if a.len() == 1 && b.len() == 1 {
        zone_shape_reads_back(a[0], b[0]);
    } else if a.len() > 1 && b.len() > 1 {
        let x = a.drop_last();
        let y = b.drop_last();
        assert(a.last() == a[a.len() - 1]);
        assert(b.last() == b[b.len() - 1]);
        zone_shape_is_free_of(a.last(), ',');
        zone_shape_is_free_of(b.last(), ',');
        assert(zones_shape(a) =~= zones_shape(x).push(',') + zone_shape(a.last()));
        assert(zones_shape(b) =~= zones_shape(y).push(',') + zone_shape(b.last()));
        last_cut_is_unique(
            zones_shape(x),
            zones_shape(y),
            ',',
            zone_shape(a.last()),
            zone_shape(b.last()),
        );
        zone_shape_reads_back(a.last(), b.last());
        assert(plain_names(x)) by {
            assert forall|i: int| 0 <= i < x.len() implies free_of((#[trigger] x[i]).name@, ',')
                && free_of(x[i].name@, '|') by {
                assert(x[i] == a[i]);
            }
        }
        assert(plain_names(y)) by {
            assert forall|i: int| 0 <= i < y.len() implies free_of((#[trigger] y[i]).name@, ',')
                && free_of(y[i].name@, '|') by {
                assert(y[i] == b[i]);
            }
        }
        zones_shape_reads_back(x, y);
        assert forall|i: int| 0 <= i < a.len() implies same_zone_shape(#[trigger] a[i], b[i]) by {
            if i < x.len() {
                assert(same_zone_shape(x[i], y[i]));
            }
        }
    }
}

/// Keys tell shapes apart: between devices whose zone names hold no comma and no
/// bar, equal keys mean one shape, whatever the devices are called. So a kept
/// profile comes back on the device it was made for, even where two share a
/// name.
pub proof fn keys_tell_shapes_apart(a: DeviceDescriptor, b: DeviceDescriptor)
    requires
        plain_names(a.zones@),
        plain_names(b.zones@),
    ensures
        a.shape() == b.shape() <==> same_shape(a, b),
{
    if same_shape(a, b) {
        keys_follow_the_shape(a, b);
    }
    if a.shape() == b.shape() {
        reveal(DeviceDescriptor::shape);
        reveal_strlit("|");
        let bar = seq!['|'];
        assert("|"@ =~= bar);
        let da = decimal(a.led_count as nat);
        let db = decimal(b.led_count as nat);
        zones_shape_has_no_bar(a.zones@);
        zones_shape_has_no_bar(b.zones@);
        let pa = a.name@ + bar + da;
        let pb = b.name@ + bar + db;
        assert(a.shape() =~= pa.push('|') + zones_shape(a.zones@));
        assert(b.shape() =~= pb.push('|') + zones_shape(b.zones@));
        last_cut_is_unique(pa, pb, '|', zones_shape(a.zones@), zones_shape(b.zones@));
        decimal_is_digits(a.led_count as nat);
        decimal_is_digits(b.led_count as nat);
        assert(pa =~= a.name@.push('|') + da);
        assert(pb =~= b.name@.push('|') + db);
        last_cut_is_unique(a.name@, b.name@, '|', da, db);
        decimals_differ(a.led_count as nat, b.led_count as nat);
        zones_shape_reads_back(a.zones@, b.zones@);
    }
}

// ------------------------------------------------------------ faithfulness

/// A descriptor is faithful: it has the controller's own index, texts, zones,
/// LED names, modes, active mode, colors and LED count, in the same order.
pub proof fn descriptors_are_faithful(c: Controller, d: DeviceDescriptor, i: int)
    requires
        shows(c, d),
    ensures
        d.index == c.index,
        d.name@ == c.name@,
        d.vendor@ == c.vendor@,
        d.description@ == c.description@,
        d.location@ == c.location@,
        d.serial@ == c.serial@,
        d.active_mode == c.active_mode,
        d.colors@ == c.colors@,
        d.led_count == c.led_count,
        d.leds@.len() == c.leds@.len(),
        0 <= i < c.leds@.len() ==> d.leds@[i].name@ == c.leds@[i]@,
        d.zones@.len() == c.zones@.len(),
        0 <= i < c.zones@.len() ==> {
            let z = d.zones@[i];
            let y = c.zones@[i];
            &&& z.name@ == y.name@
            &&& z.start == y.start
            &&& z.leds_count == y.leds_count
            &&& z.leds_min == y.leds_min
            &&& z.leds_max == y.leds_max
            &&& z.kind == ZoneKind::Single <==> y.kind == 0
            &&& z.kind == ZoneKind::Matrix <==> y.kind == 2
            &&& z.matrix is Some <==> y.matrix is Some
            &&& z.matrix matches Some(m) ==> (y.matrix matches Some(n) ==> m.height == n.height
                && m.width == n.width && m.map@ == n.map@)
        },
        d.modes@.len() == c.modes@.len(),
        0 <= i < c.modes@.len() ==> {
            let m = d.modes@[i];
            let n = c.modes@[i];
            &&& m.name@ == n.name@
            &&& m.flags == n.flags
            &&& m.speed_range == (n.speed_min, n.speed_max)
            &&& m.brightness_range == (n.brightness_min, n.brightness_max)
            &&& m.has_speed <==> n.speed_min < n.speed_max
            &&& m.has_brightness <==> n.brightness_min < n.brightness_max
            &&& m.has_direction <==> n.flags & 0x0E != 0
            &&& m.takes_color <==> n.colors_max > 0 || n.flags & 0x20 != 0 || n.flags & 0x40 != 0
            &&& m.can_save <==> n.flags & 0x100 != 0 || n.flags & 0x200 != 0
        },
{
    if 0 <= i < c.zones@.len() {
        assert(shows_zone(c.zones@[i], d.zones@[i]));
    }
    if 0 <= i < c.modes@.len() {
        assert(shows_mode(c.modes@[i], d.modes@[i]));
        let f = c.modes@[i].flags;
        assert(f & (0x20u32 | 0x40u32) != 0 <==> f & 0x20u32 != 0 || f & 0x40u32 != 0)
            by (bit_vector);
        save_flags_decide(c.modes@[i]);
    }
}

/// A device's kind follows its type, one kind a known type; and a motherboard
/// whose name holds the mark of a memory module is memory.
pub proof fn kinds_follow_the_type(v: int, w: int, name: Seq<char>)
    ensures
        DeviceKind::of_type(v) == DeviceKind::of_type(w) && DeviceKind::of_type(v)
            != DeviceKind::Unknown ==> v == w,
        DeviceKind::of_type(v) == DeviceKind::Unknown <==> v < 0 || v == 9 || v == 12 || v == 13 || v
            == 16 || v > 17,
        v != 0 ==> kind_by(v, name) == DeviceKind::of_type(v),
        kind_by(0, name) == DeviceKind::Dram <==> contains_text(name, "DIMM"@),
        kind_by(0, name) == DeviceKind::Dram || kind_by(0, name) == DeviceKind::Motherboard,
        DeviceKind::of_type(0) == DeviceKind::Motherboard && DeviceKind::of_type(1)
            == DeviceKind::Dram && DeviceKind::of_type(2) == DeviceKind::Gpu && DeviceKind::of_type(
            3,
        ) == DeviceKind::Cooler && DeviceKind::of_type(4) == DeviceKind::LedStrip
            && DeviceKind::of_type(5) == DeviceKind::Keyboard && DeviceKind::of_type(6)
            == DeviceKind::Mouse && DeviceKind::of_type(7) == DeviceKind::Mousemat
            && DeviceKind::of_type(8) == DeviceKind::Headset && DeviceKind::of_type(10)
            == DeviceKind::Gamepad && DeviceKind::of_type(11) == DeviceKind::Light
            && DeviceKind::of_type(14) == DeviceKind::Storage && DeviceKind::of_type(15)
            == DeviceKind::Case && DeviceKind::of_type(17) == DeviceKind::Accessory,
{
}

/// Devices have one shape exactly where name, LED count and zones agree: as many
/// zones, and each with the name, the kind and the LED count of the one in its
/// place.
pub proof fn shapes_are_compared_field_by_field(a: DeviceDescriptor, b: DeviceDescriptor)
    ensures
        same_shape(a, b) <==> {
            &&& a.name@ == b.name@
            &&& a.led_count == b.led_count
            &&& a.zones@.len() == b.zones@.len()
            &&& forall|i: int|
                0 <= i < a.zones@.len() ==> (#[trigger] a.zones@[i]).name@ == b.zones@[i].name@
                    && a.zones@[i].kind == b.zones@[i].kind && a.zones@[i].leds_count
                    == b.zones@[i].leds_count
        },
{
    if same_shape(a, b) {
        assert forall|i: int| 0 <= i < a.zones@.len() implies (#[trigger] a.zones@[i]).name@
            == b.zones@[i].name@ && a.zones@[i].kind == b.zones@[i].kind && a.zones@[i].leds_count
            == b.zones@[i].leds_count by {
            assert(same_zone_shape(a.zones@[i], b.zones@[i]));
        }
    }
    if a.name@ == b.name@ && a.led_count == b.led_count && a.zones@.len() == b.zones@.len()
        && forall|i: int|
        0 <= i < a.zones@.len() ==> (#[trigger] a.zones@[i]).name@ == b.zones@[i].name@
            && a.zones@[i].kind == b.zones@[i].kind && a.zones@[i].leds_count
            == b.zones@[i].leds_count {
        assert forall|i: int| 0 <= i < a.zones@.len() implies same_zone_shape(
            #[trigger] a.zones@[i],
            b.zones@[i],
        ) by {}
    }
}

/// The window offers every mode but the raw direct one, whatever the case of its
/// letters.
pub proof fn all_but_the_direct_mode_are_offered(modes: Seq<ModeInfo>, one: ModeInfo)
    ensures
        offered_modes(modes).contains(one) <==> modes.contains(one) && !same_ignoring_case(
            one.name@,
            "direct"@,
        ),
    decreases modes.len(),
{
    reveal(Seq::filter);
    if modes.len() > 0 {
        let init = modes.drop_last();
        let last = modes.last();
        all_but_the_direct_mode_are_offered(init, one);
        let kept = offered_modes(init);
        assert(offered_modes(modes) == if !same_ignoring_case(last.name@, "direct"@) {
            kept.push(last)
        } else {
            kept
        });
        assert(modes =~= init.push(last));
        one_more_mode(init, last, one);
        one_more_mode(kept, last, one);
    }
}

proof fn one_more_mode(s: Seq<ModeInfo>, last: ModeInfo, one: ModeInfo)
    ensures
        s.push(last).contains(one) <==> s.contains(one) || last == one,
{
    let t = s.push(last);
    assert(t[s.len() as int] == last);
    if s.contains(one) {
        let i = choose|i: int| 0 <= i < s.len() && s[i] == one;
        assert(t[i] == one);
    }
    if t.contains(one) {
        let i = choose|i: int| 0 <= i < t.len() && t[i] == one;
        if i < s.len() {
            assert(s[i] == one);
        }
    }
}

/// A copy of a device is the device, field by field.
pub proof fn copies_are_equal_devices(a: DeviceDescriptor, b: DeviceDescriptor, i: int)
    requires
        same_device(a, b),
    ensures
        a.index == b.index && a.name@ == b.name@ && a.vendor@ == b.vendor@ && a.description@
            == b.description@ && a.location@ == b.location@ && a.serial@ == b.serial@ && a.kind
            == b.kind && a.active_mode == b.active_mode && a.colors@ == b.colors@ && a.led_count
            == b.led_count,
        a.zones@.len() == b.zones@.len(),
        0 <= i < a.zones@.len() ==> a.zones@[i].name@ == b.zones@[i].name@ && a.zones@[i].kind
            == b.zones@[i].kind && a.zones@[i].start == b.zones@[i].start && a.zones@[i].leds_count
            == b.zones@[i].leds_count && a.zones@[i].leds_min == b.zones@[i].leds_min
            && a.zones@[i].leds_max == b.zones@[i].leds_max && (a.zones@[i].matrix is Some
            <==> b.zones@[i].matrix is Some),
        a.leds@.len() == b.leds@.len(),
        0 <= i < a.leds@.len() ==> a.leds@[i].name@ == b.leds@[i].name@,
        a.modes@.len() == b.modes@.len(),
        0 <= i < a.modes@.len() ==> a.modes@[i].name@ == b.modes@[i].name@ && a.modes@[i].can_save
            == b.modes@[i].can_save && a.modes@[i].flags == b.modes@[i].flags
            && a.modes@[i].speed_range == b.modes@[i].speed_range && a.modes@[i].takes_color
            == b.modes@[i].takes_color,
{
    if 0 <= i < a.zones@.len() {
        assert(same_zone(a.zones@[i], b.zones@[i]));
    }
    if 0 <= i < a.leds@.len() {
        assert(a.leds@[i].name@ == b.leds@[i].name@);
    }
    if 0 <= i < a.modes@.len() {
        assert(same_mode(a.modes@[i], b.modes@[i]));
    }
}

/// How a kind's label starts and how long it is.
pub open spec fn label_start(k: DeviceKind) -> (char, char, nat) {
    match k {
        DeviceKind::Motherboard => ('M', 'o', 11),
        DeviceKind::Dram => ('R', 'A', 3),
        DeviceKind::Gpu => ('G', 'P', 3),
        DeviceKind::Cooler => ('C', 'o', 6),
        DeviceKind::LedStrip => ('L', 'E', 9),
        DeviceKind::Keyboard => ('K', 'e', 8),
        DeviceKind::Mouse => ('M', 'o', 5),
        DeviceKind::Mousemat => ('M', 'o', 8),
        DeviceKind::Headset => ('H', 'e', 7),
        DeviceKind::Gamepad => ('G', 'a', 7),
        DeviceKind::Light => ('L', 'i', 5),
        DeviceKind::Case => ('C', 'a', 4),
        DeviceKind::Storage => ('S', 't', 7),
        DeviceKind::Accessory => ('A', 'c', 9),
        DeviceKind::Unknown => ('D', 'e', 6),
    }
}

proof fn labels_start_so(k: DeviceKind)
    ensures
        k.name().len() == label_start(k).2,
        k.name()[0] == label_start(k).0,
        k.name()[1] == label_start(k).1,
{
    reveal_strlit("Motherboard");
    reveal_strlit("RAM");
    reveal_strlit("GPU");
    reveal_strlit("Cooler");
    reveal_strlit("LED strip");
    reveal_strlit("Keyboard");
    reveal_strlit("Mouse");
    reveal_strlit("Mousemat");
    reveal_strlit("Headset");
    reveal_strlit("Gamepad");
    reveal_strlit("Light");
    reveal_strlit("Case");
    reveal_strlit("Storage");
    reveal_strlit("Accessory");
    reveal_strlit("Device");
}

/// No two device kinds go by one label.
pub proof fn device_labels_are_unique(a: DeviceKind, b: DeviceKind)
    requires
        a.name() == b.name(),
    ensures
        a == b,
{
    labels_start_so(a);
    labels_start_so(b);
}

/// A zone's kind is its type: single, linear, matrix, in that order, and linear
/// for a type that is none of them; no two kinds go by one label.
pub proof fn zone_kinds_follow_the_type(a: ZoneKind, b: ZoneKind, v: int)
    ensures
        ZoneKind::of_type(a.number() as int) == a,
        a.number() <= 2,
        v < 0 || v > 2 ==> ZoneKind::of_type(v) == ZoneKind::Linear,
        a.name() == b.name() ==> a == b,
{
    reveal_strlit("single");
    reveal_strlit("linear");
    reveal_strlit("matrix");
    if a.name() == b.name() {
        assert(a.name()[0] == b.name()[0]);
    }
}

/// A device is of the kind that its type says, but for a motherboard whose name
/// says in upper case that it is a memory module.
pub proof fn memory_modules_are_told_by_name(c: Controller, d: DeviceDescriptor)
    requires
        shows(c, d),
    ensures
        c.dev_type == 0 ==> (d.kind == DeviceKind::Dram <==> contains_text(
            uppercase(c.name@),
            "DIMM"@,
        )),
        c.dev_type != 0 ==> d.kind == DeviceKind::of_type(c.dev_type as int),
{
}

} // verus!
