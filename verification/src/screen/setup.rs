//! What the user chose, as it is kept between runs, and how it comes back.

use vstd::prelude::*;

use crate::dt::{AreaCmd, DtEffect, DtState};
use crate::effects::{Effect, Fx, Params, ZoneSource};
use crate::engine::HwSpec;
use crate::library::{lookup, lookups_find_the_name, none_named, CustomEffect, EffectLibrary};
use crate::model::DeviceDescriptor;
use crate::number::Single;
use crate::rgb::Rgb;
use crate::text::same;

verus! {

/// What drives a zone.
#[derive(Debug)]
pub enum Kind {
    Solid,
    Program(Effect),
    Custom(String),
}

/// A zone's settings.
#[derive(Debug)]
pub struct ZoneUi {
    pub kind: Kind,
    pub color: [u8; 3],
    /// 1 to 9.
    pub speed: u32,
    /// 0 to 100.
    pub brightness: u32,
}

/// A whole-device firmware effect.
#[derive(Debug)]
pub struct HwEffect {
    pub mode: String,
    pub color: [u8; 3],
    pub speed: u32,
    pub brightness: u32,
}

/// How a device is driven.
#[derive(Debug)]
pub enum DeviceMode {
    PerZone,
    Hardware(HwEffect),
}

/// The settings of the tower case.
#[derive(Debug)]
pub struct DtSetup {
    pub color: [u8; 3],
    pub on: bool,
    pub effect: DtEffect,
    pub speed: u8,
    /// Per-area overrides.
    pub areas: Vec<AreaCmd>,
}

/// The settings of a device.
#[derive(Debug)]
pub struct DeviceSetup {
    pub mode: DeviceMode,
    pub zones: Vec<ZoneUi>,
}

/// The kept settings of a device, under the key it is found by.
#[derive(Debug)]
pub struct SavedDevice {
    pub key: String,
    pub setup: DeviceSetup,
}

/// Everything that is kept between runs.
#[derive(Debug)]
pub struct LightingSetup {
    pub master: u32,
    pub spread: Vec<String>,
    pub hold: bool,
    pub battery_saver: bool,
    /// At most one entry a key.
    pub devices: Vec<SavedDevice>,
    /// Absent, the case was never enabled.
    pub dt: Option<DtSetup>,
}

/// An array of bytes as a color.
pub open spec fn rgb_of(c: [u8; 3]) -> Rgb {
    Rgb(c@[0], c@[1], c@[2])
}

fn to_rgb(c: [u8; 3]) -> (r: Rgb)
    ensures
        r == rgb_of(c),
{
    Rgb(c[0], c[1], c[2])
}

// ------------------------------------------------------------------ copies

impl Kind {
    pub open spec fn same_as(self, other: Kind) -> bool {
        match (self, other) {
            (Kind::Solid, Kind::Solid) => true,
            (Kind::Program(a), Kind::Program(b)) => a == b,
            (Kind::Custom(a), Kind::Custom(b)) => a@ == b@,
            _ => false,
        }
    }
}

impl Clone for Kind {
    fn clone(&self) -> (r: Self)
        ensures
            r.same_as(*self),
    {
        match self {
            Kind::Solid => Kind::Solid,
            Kind::Program(e) => Kind::Program(*e),
            Kind::Custom(n) => Kind::Custom(n.clone()),
        }
    }
}

impl ZoneUi {
    pub open spec fn same_as(self, other: ZoneUi) -> bool {
        &&& self.kind.same_as(other.kind)
        &&& self.color == other.color
        &&& self.speed == other.speed
        &&& self.brightness == other.brightness
    }

    /// The settings that a zone starts with.
    pub open spec fn is_default(self) -> bool {
        &&& self.kind == Kind::Solid
        &&& self.color@ == seq![0x00u8, 0xE5, 0xFF]
        &&& self.speed == 5
        &&& self.brightness == 100
    }
}

impl Clone for ZoneUi {
    fn clone(&self) -> (r: Self)
        ensures
            r.same_as(*self),
            r.color == self.color && r.speed == self.speed && r.brightness == self.brightness,
    {
        ZoneUi {
            kind: self.kind.clone(),
            color: self.color,
            speed: self.speed,
            brightness: self.brightness,
        }
    }
}

impl Default for ZoneUi {
    fn default() -> (r: Self)
        ensures
            r.is_default(),
    {
        let color: [u8; 3] = [0x00, 0xE5, 0xFF];
        assert(color@ =~= seq![0x00u8, 0xE5, 0xFF]);
        ZoneUi { kind: Kind::Solid, color, speed: 5, brightness: 100 }
    }
}

impl HwEffect {
    pub open spec fn same_as(self, other: HwEffect) -> bool {
        &&& self.mode@ == other.mode@
        &&& self.color == other.color
        &&& self.speed == other.speed
        &&& self.brightness == other.brightness
    }

    /// The firmware effect for the engine.
    pub fn to_spec(&self) -> (r: HwSpec)
        ensures
            r.mode@ == self.mode@,
            r.color == rgb_of(self.color),
            r.speed == self.speed,
            r.brightness == self.brightness,
    {
        HwSpec {
            mode: self.mode.clone(),
            color: to_rgb(self.color),
            speed: self.speed,
            brightness: self.brightness,
        }
    }
}

impl Clone for HwEffect {
    fn clone(&self) -> (r: Self)
        ensures
            r.same_as(*self),
    {
        HwEffect {
            mode: self.mode.clone(),
            color: self.color,
            speed: self.speed,
            brightness: self.brightness,
        }
    }
}

impl DeviceMode {
    pub open spec fn same_as(self, other: DeviceMode) -> bool {
        match (self, other) {
            (DeviceMode::PerZone, DeviceMode::PerZone) => true,
            (DeviceMode::Hardware(a), DeviceMode::Hardware(b)) => a.same_as(b),
            _ => false,
        }
    }
}

impl Clone for DeviceMode {
    fn clone(&self) -> (r: Self)
        ensures
            r.same_as(*self),
    {
        match self {
            DeviceMode::PerZone => DeviceMode::PerZone,
            DeviceMode::Hardware(h) => DeviceMode::Hardware(h.clone()),
        }
    }
}

impl DtSetup {
    pub open spec fn same_as(self, other: DtSetup) -> bool {
        &&& self.color == other.color
        &&& self.on == other.on
        &&& self.effect == other.effect
        &&& self.speed == other.speed
        &&& self.areas@ == other.areas@
    }

    /// What the engine is asked to show on the case.
    pub fn to_state(&self) -> (r: DtState)
        ensures
            r.color == rgb_of(self.color),
            r.on == self.on,
            r.effect == self.effect,
            r.speed == self.speed,
            r.areas@ == self.areas@,
    {
        let areas = self.areas.clone();
        assert(areas@ =~= self.areas@);
        DtState {
            color: to_rgb(self.color),
            on: self.on,
            effect: self.effect,
            speed: self.speed,
            areas,
        }
    }
}

impl Clone for DtSetup {
    fn clone(&self) -> (r: Self)
        ensures
            r.same_as(*self),
    {
        let areas = self.areas.clone();
        assert(areas@ =~= self.areas@);
        DtSetup {
            color: self.color,
            on: self.on,
            effect: self.effect,
            speed: self.speed,
            areas,
        }
    }
}

/// The same zones, in order.
pub open spec fn same_zones(a: Seq<ZoneUi>, b: Seq<ZoneUi>) -> bool {
    &&& a.len() == b.len()
    &&& forall|i: int| 0 <= i < a.len() ==> (#[trigger] a[i]).same_as(b[i])
}

pub fn copy_zones(v: &Vec<ZoneUi>) -> (r: Vec<ZoneUi>)
    ensures
        same_zones(r@, v@),
{
    let mut out: Vec<ZoneUi> = Vec::new();
    let mut i: usize = 0;
    while i < v.len()
        invariant
            i <= v@.len(),
            out@.len() == i,
            forall|k: int| 0 <= k < i ==> (#[trigger] out@[k]).same_as(v@[k]),
        decreases v@.len() - i,
    {
        out.push(v[i].clone());
        i += 1;
    }
    out
}

/// Fresh zones.
pub open spec fn default_zones(v: Seq<ZoneUi>, n: nat) -> bool {
    &&& v.len() == n
    &&& forall|i: int| 0 <= i < v.len() ==> (#[trigger] v[i]).is_default()
}

fn fresh_zones(n: u16) -> (r: Vec<ZoneUi>)
    ensures
        default_zones(r@, n as nat),
{
    let mut out: Vec<ZoneUi> = Vec::new();
    let mut i: u16 = 0;
    while i < n
        invariant
            i <= n,
            out@.len() == i,
            forall|k: int| 0 <= k < i ==> (#[trigger] out@[k]).is_default(),
        decreases n - i,
    {
        out.push(ZoneUi::default());
        i += 1;
    }
    out
}

// ----------------------------------------------------------------- sources

/// The second color of every program effect.
pub open spec fn zone_params(z: ZoneUi, speed: Single, brightness: Single) -> Params {
    Params { color: rgb_of(z.color), color_b: Rgb(0xFF, 0x00, 0x88), speed, brightness }
}

/// The source that a zone's settings stand for. A custom effect that is no
/// longer in the library falls back to the zone's color.
pub open spec fn source_of(
    z: ZoneUi,
    effects: Seq<CustomEffect>,
    speed: Single,
    brightness: Single,
    r: ZoneSource,
) -> bool {
    match z.kind {
        Kind::Solid => r == ZoneSource::Solid(rgb_of(z.color)),
        Kind::Program(e) => r == ZoneSource::Function(
            Fx::Program(e),
            zone_params(z, speed, brightness),
        ),
        Kind::Custom(name) => match lookup(effects, name@) {
            Some(c) => r matches ZoneSource::Function(Fx::Custom(d), p) && d.same_as(c) && p
                == zone_params(z, speed, brightness),
            None => r == ZoneSource::Solid(rgb_of(z.color)),
        },
    }
}

impl ZoneUi {
    /// The source that the zone's settings stand for. The zone's speed over five
    /// and brightness over a hundred come as the renderer computed them.
    pub fn to_source(&self, lib: &EffectLibrary, speed: Single, brightness: Single) -> (r: ZoneSource)
        ensures
            source_of(*self, lib.effects@, speed, brightness, r),
            match r {
                ZoneSource::Solid(c) => c == Rgb(self.color@[0], self.color@[1], self.color@[2]),
                ZoneSource::Function(_, p) => p.color == Rgb(
                    self.color@[0],
                    self.color@[1],
                    self.color@[2],
                ) && p.speed == speed && p.brightness == brightness,
            },
    {
        let color = to_rgb(self.color);
        let params = Params { color, color_b: Rgb(0xFF, 0x00, 0x88), speed, brightness };
        match &self.kind {
            Kind::Solid => ZoneSource::Solid(color),
            Kind::Program(e) => ZoneSource::Function(Fx::Program(*e), params),
            Kind::Custom(name) => match lib.get(name.as_str()) {
                Some(c) => ZoneSource::Function(Fx::Custom(c.clone()), params),
                None => ZoneSource::Solid(color),
            },
        }
    }
}

/// The master brightness of kept settings, in percent: full where none was kept.
pub fn master_of(kept: u32) -> (r: u32)
    ensures
        r == (if kept == 0 || kept > 100 {
            100
        } else {
            kept
        }),
        1 <= r <= 100,
{
    if kept == 0 || kept > 100 {
        100
    } else {
        kept
    }
}

// ------------------------------------------------------------- keep, restore

/// Whether the `i`-th entry is the first under a key.
pub open spec fn first_under(devices: Seq<SavedDevice>, key: Seq<char>, i: int) -> bool {
    &&& 0 <= i < devices.len()
    &&& devices[i].key@ == key
    &&& forall|j: int| 0 <= j < i ==> (#[trigger] devices[j]).key@ != key
}

pub open spec fn none_under(devices: Seq<SavedDevice>, key: Seq<char>) -> bool {
    forall|j: int| 0 <= j < devices.len() ==> (#[trigger] devices[j]).key@ != key
}

/// What is kept under a key.
pub open spec fn kept(devices: Seq<SavedDevice>, key: Seq<char>) -> Option<DeviceSetup> {
    if none_under(devices, key) {
        None
    } else {
        Some(devices[choose|i: int| first_under(devices, key, i)].setup)
    }
}

/// What is kept for a device: under its topology key, or else under its name, as
/// it was kept before devices had such keys.
pub open spec fn kept_for(devices: Seq<SavedDevice>, d: DeviceDescriptor) -> Option<DeviceSetup> {
    match kept(devices, d.shape()) {
        Some(s) => Some(s),
        None => kept(devices, d.name@),
    }
}

/// A device's settings as they come back: what is kept for it where that has a
/// zone for every LED, fresh zones otherwise.
pub open spec fn restored(
    devices: Seq<SavedDevice>,
    d: DeviceDescriptor,
    mode: DeviceMode,
    zones: Seq<ZoneUi>,
) -> bool {
    match kept_for(devices, d) {
        Some(s) if s.zones@.len() == d.led_count => mode.same_as(s.mode) && same_zones(
            zones,
            s.zones@,
        ),
        _ => mode == DeviceMode::PerZone && default_zones(zones, d.led_count as nat),
    }
}

/// There is one first entry under a key, and it is what is kept.
proof fn first_is_kept(devices: Seq<SavedDevice>, key: Seq<char>, i: int)
    requires
        first_under(devices, key, i),
    ensures
        kept(devices, key) == Some(devices[i].setup),
{
    let k = choose|k: int| first_under(devices, key, k);
    assert(first_under(devices, key, k));
    if k < i {
        assert(devices[k].key@ != key);
    }
    if i < k {
        assert(devices[i].key@ != key);
    }
}

impl LightingSetup {
    fn find(&self, key: &str) -> (r: Option<usize>)
        ensures
            match r {
                Some(i) => i < self.devices@.len() && kept(self.devices@, key@) == Some(
                    self.devices@[i as int].setup,
                ),
                None => kept(self.devices@, key@) is None,
            },
    {
        let mut i: usize = 0;
        while i < self.devices.len()
            invariant
                i <= self.devices@.len(),
                forall|j: int| 0 <= j < i ==> (#[trigger] self.devices@[j]).key@ != key@,
            decreases self.devices@.len() - i,
        {
            if same(self.devices[i].key.as_str(), key) {
                proof {
                    assert(first_under(self.devices@, key@, i as int));
                    first_is_kept(self.devices@, key@, i as int);
                }
                return Some(i);
            }
            i += 1;
        }
        None
    }

    fn find_for(&self, d: &DeviceDescriptor) -> (r: Option<usize>)
        ensures
            match r {
                Some(i) => i < self.devices@.len() && kept_for(self.devices@, *d) == Some(
                    self.devices@[i as int].setup,
                ),
                None => kept_for(self.devices@, *d) is None,
            },
    {
        match self.find(d.topology_sig().as_str()) {
            Some(i) => Some(i),
            None => self.find(d.name.as_str()),
        }
    }

    /// A device's settings as they come back.
    pub fn restore(&self, d: &DeviceDescriptor) -> (r: (DeviceMode, Vec<ZoneUi>))
        ensures
            restored(self.devices@, *d, r.0, r.1@),
    {
        if let Some(i) = self.find_for(d) {
            let s = &self.devices[i].setup;
            if s.zones.len() == d.led_count as usize {
                return (s.mode.clone(), copy_zones(&s.zones));
            }
        }
        (DeviceMode::PerZone, fresh_zones(d.led_count))
    }

    /// Every device's settings as they come back, in order.
    pub fn rebuild_devices(&self, controllers: &Vec<DeviceDescriptor>) -> (r: (
        Vec<DeviceMode>,
        Vec<Vec<ZoneUi>>,
    ))
        ensures
            r.0@.len() == controllers@.len(),
            r.1@.len() == controllers@.len(),
            forall|i: int|
                0 <= i < controllers@.len() ==> restored(
                    self.devices@,
                    #[trigger] controllers@[i],
                    r.0@[i],
                    r.1@[i]@,
                ),
    {
        let mut modes: Vec<DeviceMode> = Vec::new();
        let mut zones: Vec<Vec<ZoneUi>> = Vec::new();
        let mut i: usize = 0;
        while i < controllers.len()
            invariant
                i <= controllers@.len(),
                modes@.len() == i,
                zones@.len() == i,
                forall|k: int|
                    0 <= k < i ==> restored(
                        self.devices@,
                        #[trigger] controllers@[k],
                        modes@[k],
                        zones@[k]@,
                    ),
            decreases controllers@.len() - i,
        {
            let (m, z) = self.restore(&controllers[i]);
            modes.push(m);
            zones.push(z);
            i += 1;
        }
        (modes, zones)
    }
}

/// Whether no later device has the key of the `i`-th.
pub open spec fn last_of_key(controllers: Seq<DeviceDescriptor>, i: int) -> bool {
    &&& 0 <= i < controllers.len()
    &&& forall|k: int| i < k < controllers.len() ==> (#[trigger] controllers[k]).shape()
        != controllers[i].shape()
}

/// Whether an entry keeps the `i`-th device.
pub open spec fn keeps(
    e: SavedDevice,
    controllers: Seq<DeviceDescriptor>,
    modes: Seq<DeviceMode>,
    zones: Seq<Vec<ZoneUi>>,
    i: int,
) -> bool {
    &&& e.key@ == controllers[i].shape()
    &&& e.setup.mode.same_as(modes[i])
    &&& same_zones(e.setup.zones@, zones[i]@)
}

/// Whether an entry keeps some device that no later one shares a key with.
pub open spec fn keeps_one(
    e: SavedDevice,
    controllers: Seq<DeviceDescriptor>,
    modes: Seq<DeviceMode>,
    zones: Seq<Vec<ZoneUi>>,
) -> bool {
    exists|i: int| #[trigger]
        last_of_key(controllers, i) && keeps(e, controllers, modes, zones, i)
}

/// Whether some entry keeps the `i`-th device.
pub open spec fn is_kept(
    entries: Seq<SavedDevice>,
    controllers: Seq<DeviceDescriptor>,
    modes: Seq<DeviceMode>,
    zones: Seq<Vec<ZoneUi>>,
    i: int,
) -> bool {
    exists|e: int|
        0 <= e < entries.len() && keeps(#[trigger] entries[e], controllers, modes, zones, i)
}

/// What is kept of some devices: of those that share a key the last one, of any
/// other every one, and nothing else. There is at most one entry a key.
pub open spec fn captured(
    entries: Seq<SavedDevice>,
    controllers: Seq<DeviceDescriptor>,
    modes: Seq<DeviceMode>,
    zones: Seq<Vec<ZoneUi>>,
) -> bool {
    &&& forall|e: int|
        0 <= e < entries.len() ==> keeps_one(#[trigger] entries[e], controllers, modes, zones)
    &&& forall|i: int| #[trigger]
        last_of_key(controllers, i) ==> is_kept(entries, controllers, modes, zones, i)
    &&& forall|a: int, b: int|
        0 <= a < b < entries.len() ==> (#[trigger] entries[a]).key@ != (#[trigger] entries[b]).key@
}

fn is_last_of_key(controllers: &Vec<DeviceDescriptor>, i: usize) -> (r: bool)
    requires
        i < controllers@.len(),
    ensures
        r == last_of_key(controllers@, i as int),
{
    let key = controllers[i].topology_sig();
    let n: usize = controllers.len();
    let mut k: usize = i + 1;
    while k < n
        invariant
            n == controllers@.len(),
            i < k <= n,
            key@ == controllers@[i as int].shape(),
            forall|j: int| i < j < k ==> (#[trigger] controllers@[j]).shape() != key@,
        decreases controllers@.len() - k,
    {
        if same(controllers[k].topology_sig().as_str(), key.as_str()) {
            assert(controllers@[k as int].shape() == key@);
            return false;
        }
        k += 1;
    }
    true
}

/// Captures the devices' settings.
pub fn capture_devices(
    controllers: &Vec<DeviceDescriptor>,
    modes: &Vec<DeviceMode>,
    zones: &Vec<Vec<ZoneUi>>,
) -> (r: Vec<SavedDevice>)
    requires
        modes@.len() == controllers@.len(),
        zones@.len() == controllers@.len(),
    ensures
        captured(r@, controllers@, modes@, zones@),
{
    let ghost cs = controllers@;
    let ghost ms = modes@;
    let ghost zs = zones@;
    let mut out: Vec<SavedDevice> = Vec::new();
    let mut i: usize = 0;
    while i < controllers.len()
        invariant
            i <= controllers@.len(),
            modes@.len() == controllers@.len(),
            zones@.len() == controllers@.len(),
            cs == controllers@,
            ms == modes@,
            zs == zones@,
            forall|e: int| 0 <= e < out@.len() ==> keeps_one(#[trigger] out@[e], cs, ms, zs),
            forall|k: int| k < i && #[trigger] last_of_key(cs, k) ==> is_kept(out@, cs, ms, zs, k),
            forall|e: int, k: int|
                0 <= e < out@.len() && i <= k < cs.len() ==> (#[trigger] out@[e]).key@ != (
                #[trigger] cs[k]).shape(),
            forall|a: int, b: int|
                0 <= a < b < out@.len() ==> (#[trigger] out@[a]).key@ != (#[trigger] out@[b]).key@,
        decreases controllers@.len() - i,
    {
        let ghost before = out@;
        if is_last_of_key(controllers, i) {
            let e = SavedDevice {
                key: controllers[i].topology_sig(),
                setup: DeviceSetup { mode: modes[i].clone(), zones: copy_zones(&zones[i]) },
            };
            proof {
                assert(keeps(e, cs, ms, zs, i as int));
                assert(keeps_one(e, cs, ms, zs));
            }
            out.push(e);
            proof {
                assert(keeps(out@[before.len() as int], cs, ms, zs, i as int));
                assert(is_kept(out@, cs, ms, zs, i as int));
            }
        }
        proof {
            assert forall|k: int| k < i + 1 && #[trigger] last_of_key(cs, k) implies is_kept(
                out@,
                cs,
                ms,
                zs,
                k,
            ) by {
                if k < i {
                    assert(is_kept(before, cs, ms, zs, k));
                    let e = choose|e: int|
                        0 <= e < before.len() && keeps(#[trigger] before[e], cs, ms, zs, k);
                    assert(keeps(out@[e], cs, ms, zs, k));
                }
            }
        }
        i += 1;
    }
    out
}

/// What was kept comes back: a device that no later one shares a topology with
/// gets back exactly the settings it was kept with.
pub proof fn kept_settings_come_back(
    entries: Seq<SavedDevice>,
    controllers: Seq<DeviceDescriptor>,
    modes: Seq<DeviceMode>,
    zones: Seq<Vec<ZoneUi>>,
    i: int,
    mode: DeviceMode,
    back: Seq<ZoneUi>,
)
    requires
        modes.len() == controllers.len(),
        zones.len() == controllers.len(),
        captured(entries, controllers, modes, zones),
        0 <= i < controllers.len(),
        zones[i]@.len() == controllers[i].led_count,
        forall|k: int|
            i < k < controllers.len() ==> (#[trigger] controllers[k]).shape()
                != controllers[i].shape(),
        restored(entries, controllers[i], mode, back),
    ensures
        mode.same_as(modes[i]),
        same_zones(back, zones[i]@),
        back.len() == zones[i]@.len(),
        forall|k: int|
            0 <= k < back.len() ==> {
                &&& (#[trigger] back[k]).color@ == zones[i]@[k].color@
                &&& back[k].speed == zones[i]@[k].speed
                &&& back[k].brightness == zones[i]@[k].brightness
                &&& match zones[i]@[k].kind {
                    Kind::Solid => back[k].kind is Solid,
                    Kind::Program(e) => back[k].kind == Kind::Program(e),
                    Kind::Custom(n) => back[k].kind matches Kind::Custom(m) && m@ == n@,
                }
            },
        match modes[i] {
            DeviceMode::PerZone => mode is PerZone,
            DeviceMode::Hardware(h) => mode matches DeviceMode::Hardware(g) && g.mode@ == h.mode@
                && g.color@ == h.color@ && g.speed == h.speed && g.brightness == h.brightness,
        },
{
    let key = controllers[i].shape();
    assert(last_of_key(controllers, i));
    assert(is_kept(entries, controllers, modes, zones, i));
    let e = choose|e: int|
        0 <= e < entries.len() && keeps(#[trigger] entries[e], controllers, modes, zones, i);
    assert(entries[e].key@ == key);
    under_has_first(entries, key, e);
    let f = choose|f: int| first_under(entries, key, f);
    assert(first_under(entries, key, f));
    first_is_kept(entries, key, f);
    assert(keeps_one(entries[f], controllers, modes, zones));
    let j = choose|j: int| #[trigger]
        last_of_key(controllers, j) && keeps(entries[f], controllers, modes, zones, j);
    assert(controllers[j].shape() == key);
    if j < i {
        assert(controllers[j].shape() != controllers[i].shape());
    }
    if i < j {
        assert(controllers[i].shape() != controllers[j].shape());
    }
    let s = entries[f].setup;
    assert(s.zones@.len() == controllers[i].led_count);
    assert forall|k: int| 0 <= k < back.len() implies (#[trigger] back[k]).same_as(
        zones[i]@[k],
    ) by {
        assert(back[k].same_as(s.zones@[k]));
        assert(s.zones@[k].same_as(zones[i]@[k]));
    }
}

proof fn under_has_first(devices: Seq<SavedDevice>, key: Seq<char>, i: int)
    requires
        0 <= i < devices.len(),
        devices[i].key@ == key,
    ensures
        exists|k: int| first_under(devices, key, k),
    decreases i,
{
    if exists|j: int| 0 <= j < i && (#[trigger] devices[j]).key@ == key {
        let j = choose|j: int| 0 <= j < i && (#[trigger] devices[j]).key@ == key;
        under_has_first(devices, key, j);
    } else {
        assert(first_under(devices, key, i));
    }
}

/// A changed topology is not restored onto: a device with another number of LEDs
/// than was kept starts fresh, whichever key found the kept settings.
pub proof fn other_led_counts_start_fresh(
    devices: Seq<SavedDevice>,
    d: DeviceDescriptor,
    mode: DeviceMode,
    zones: Seq<ZoneUi>,
)
    requires
        restored(devices, d, mode, zones),
        kept_for(devices, d) matches Some(s) ==> s.zones@.len() != d.led_count,
    ensures
        mode == DeviceMode::PerZone,
        default_zones(zones, d.led_count as nat),
        zones.len() == d.led_count,
        forall|k: int|
            0 <= k < zones.len() ==> {
                &&& (#[trigger] zones[k]).kind is Solid
                &&& zones[k].color@ == seq![0x00u8, 0xE5, 0xFF]
                &&& zones[k].speed == 5
                &&& zones[k].brightness == 100
            },
{
}

/// A copy is its original, field by field: a zone's kind, its three color bytes,
/// its speed and its brightness; a firmware effect's mode, color, speed and
/// brightness; the case's color, state, effect, speed and overrides.
pub proof fn copies_keep_every_field(
    z: ZoneUi,
    y: ZoneUi,
    h: HwEffect,
    g: HwEffect,
    s: DtSetup,
    t: DtSetup,
)
    ensures
        z.same_as(y) <==> {
            &&& z.color@ == y.color@
            &&& z.speed == y.speed
            &&& z.brightness == y.brightness
            &&& match y.kind {
                Kind::Solid => z.kind is Solid,
                Kind::Program(e) => z.kind == Kind::Program(e),
                Kind::Custom(n) => z.kind matches Kind::Custom(m) && m@ == n@,
            }
        },
        h.same_as(g) <==> h.mode@ == g.mode@ && h.color@ == g.color@ && h.speed == g.speed
            && h.brightness == g.brightness,
        s.same_as(t) <==> s.color@ == t.color@ && s.on == t.on && s.effect == t.effect && s.speed
            == t.speed && s.areas@ == t.areas@,
{
    if z.color@ == y.color@ {
        assert(z.color =~= y.color);
    }
    if h.color@ == g.color@ {
        assert(h.color =~= g.color);
    }
    if s.color@ == t.color@ {
        assert(s.color =~= t.color);
    }
}

/// A zone's source carries the zone: a solid zone shows its own three color
/// bytes; a program or custom effect runs with those bytes as its color, the
/// fixed second color, and the zone's own speed and brightness; a custom effect
/// is the library's, field by field; and one that the library no longer has
/// shows the zone's color.
pub proof fn sources_carry_the_zone(
    z: ZoneUi,
    effects: Seq<CustomEffect>,
    speed: Single,
    brightness: Single,
    r: ZoneSource,
)
    requires
        source_of(z, effects, speed, brightness, r),
    ensures
        match z.kind {
            Kind::Solid => r == ZoneSource::Solid(Rgb(z.color@[0], z.color@[1], z.color@[2])),
            Kind::Program(e) => r matches ZoneSource::Function(Fx::Program(f), p) && {
                &&& f == e
                &&& p.color == Rgb(z.color@[0], z.color@[1], z.color@[2])
                &&& p.color_b == Rgb(0xFF, 0x00, 0x88)
                &&& p.speed == speed
                &&& p.brightness == brightness
            },
            Kind::Custom(name) => if none_named(effects, name@) {
                r == ZoneSource::Solid(Rgb(z.color@[0], z.color@[1], z.color@[2]))
            } else {
                r matches ZoneSource::Function(Fx::Custom(d), p) && {
                    &&& d.name@ == name@
                    &&& exists|i: int|
                        0 <= i < effects.len() && d.palette@ == (#[trigger] effects[i]).palette@
                            && d.motion == effects[i].motion && d.speed == effects[i].speed
                            && d.brightness == effects[i].brightness && d.name@
                            == effects[i].name@
                    &&& p.color == Rgb(z.color@[0], z.color@[1], z.color@[2])
                    &&& p.color_b == Rgb(0xFF, 0x00, 0x88)
                    &&& p.speed == speed
                    &&& p.brightness == brightness
                }
            },
        },
{
    if let Kind::Custom(name) = z.kind {
        lookups_find_the_name(effects, name@);
    }
}

/// Zones that differ in their color look different: their sources differ.
pub proof fn other_colors_give_other_sources(
    a: ZoneUi,
    b: ZoneUi,
    effects: Seq<CustomEffect>,
    speed: Single,
    brightness: Single,
    r: ZoneSource,
    s: ZoneSource,
)
    requires
        source_of(a, effects, speed, brightness, r),
        source_of(b, effects, speed, brightness, s),
        a.color@ != b.color@,
    ensures
        r != s,
{
    sources_carry_the_zone(a, effects, speed, brightness, r);
    sources_carry_the_zone(b, effects, speed, brightness, s);
    if r == s {
        assert(a.color@ =~= b.color@);
    }
}

/// Kept settings are found by topology first and by name second: an entry under
/// the device's key is what comes back, whatever is kept under its name; without
/// one, an entry under its name is; with neither, nothing is found.
pub proof fn keys_come_before_names(devices: Seq<SavedDevice>, d: DeviceDescriptor, i: int)
    requires
        0 <= i < devices.len(),
    ensures
        devices[i].key@ == d.shape() && (forall|j: int|
            0 <= j < i ==> (#[trigger] devices[j]).key@ != d.shape()) ==> kept_for(devices, d)
            == Some(devices[i].setup),
        devices[i].key@ == d.name@ && (forall|j: int|
            0 <= j < i ==> (#[trigger] devices[j]).key@ != d.name@) && (forall|j: int|
            0 <= j < devices.len() ==> (#[trigger] devices[j]).key@ != d.shape()) ==> kept_for(
            devices,
            d,
        ) == Some(devices[i].setup),
        (forall|j: int|
            0 <= j < devices.len() ==> (#[trigger] devices[j]).key@ != d.shape() && devices[j].key@
                != d.name@) ==> kept_for(devices, d) is None,
{
    if first_under(devices, d.shape(), i) {
        first_is_kept(devices, d.shape(), i);
    }
    if first_under(devices, d.name@, i) {
        first_is_kept(devices, d.name@, i);
    }
}

/// A firmware effect is asked for as it was set: its mode, the three picked bytes,
/// the speed and the brightness.
pub proof fn firmware_effects_are_asked_for_as_set(h: &HwEffect, r: HwSpec)
    requires
        call_ensures(HwEffect::to_spec, (h,), r),
    ensures
        r.mode@ == h.mode@,
        r.color.0 == h.color@[0] && r.color.1 == h.color@[1] && r.color.2 == h.color@[2],
        r.speed == h.speed,
        r.brightness == h.brightness,
{
}

/// The case is asked for as it was set: the three picked bytes, on or off, the
/// effect, the speed and every override.
pub proof fn the_case_is_asked_for_as_set(s: &DtSetup, r: DtState, k: int)
    requires
        call_ensures(DtSetup::to_state, (s,), r),
    ensures
        r.color.0 == s.color@[0] && r.color.1 == s.color@[1] && r.color.2 == s.color@[2],
        r.on == s.on,
        r.effect == s.effect,
        r.speed == s.speed,
        r.areas@.len() == s.areas@.len(),
        0 <= k < s.areas@.len() ==> r.areas@[k] == s.areas@[k],
{
}

/// A kept master brightness between one and a hundred stays; anything else is
/// full.
pub proof fn master_brightness_stays_in_range(kept: u32, r: u32)
    requires
        call_ensures(master_of, (kept,), r),
    ensures
        1 <= kept <= 100 ==> r == kept,
        kept < 1 || kept > 100 ==> r == 100,
{
}

} // verus!
