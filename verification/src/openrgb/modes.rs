//! Finding controllers and modes by name, and tuning a mode.

use vstd::prelude::*;

use crate::openrgb::wire::{color_u32, packed_color, packed_color_bytes};
use crate::openrgb::{Controller, Mode, WireError};
use crate::rgb::Rgb;
use crate::text::{contains, contains_text};

verus! {

/// A text in lower case: the outcome of `str::to_lowercase`.
pub uninterp spec fn lowercase(text: Seq<char>) -> Seq<char>;

/// `str::to_lowercase`: nothing is claimed of the outcome but that it depends on
/// the text alone.
#[verifier::external_body]
pub(crate) fn to_lowercase(s: &str) -> (r: String)
    ensures
        r@ == lowercase(s@),
{
    s.to_lowercase()
}

/// The first of `names` that equals `wanted`.
pub fn first_equal(names: &Vec<String>, wanted: &String) -> (r: Option<usize>)
    ensures
        match r {
            Some(i) => {
                &&& i < names@.len()
                &&& names@[i as int]@ == wanted@
                &&& forall|j: int| 0 <= j < i ==> (#[trigger] names@[j])@ != wanted@
            },
            None => forall|j: int| 0 <= j < names@.len() ==> (#[trigger] names@[j])@ != wanted@,
        },
{
    let mut i: usize = 0;
    while i < names.len()
        invariant
            i <= names@.len(),
            forall|j: int| 0 <= j < i ==> (#[trigger] names@[j])@ != wanted@,
        decreases names@.len() - i,
    {
        if names[i] == *wanted {
            return Some(i);
        }
        i += 1;
    }
    None
}

/// The first of `names` that holds `needle`.
pub fn first_containing(names: &Vec<String>, needle: &str) -> (r: Option<usize>)
    ensures
        match r {
            Some(i) => {
                &&& i < names@.len()
                &&& contains_text(names@[i as int]@, needle@)
                &&& forall|j: int|
                    0 <= j < i ==> !contains_text((#[trigger] names@[j])@, needle@)
            },
            None => forall|j: int|
                0 <= j < names@.len() ==> !contains_text((#[trigger] names@[j])@, needle@),
        },
{
    let mut i: usize = 0;
    while i < names.len()
        invariant
            i <= names@.len(),
            forall|j: int| 0 <= j < i ==> !contains_text((#[trigger] names@[j])@, needle@),
        decreases names@.len() - i,
    {
        if contains(names[i].as_str(), needle) {
            return Some(i);
        }
        i += 1;
    }
    None
}

/// Whether the `i`-th mode is the first whose name equals `name` in lower case.
pub open spec fn first_mode(modes: Seq<Mode>, name: Seq<char>, i: int) -> bool {
    &&& 0 <= i < modes.len()
    &&& lowercase(modes[i].name@) == lowercase(name)
    &&& forall|j: int| 0 <= j < i ==> lowercase((#[trigger] modes[j]).name@) != lowercase(name)
}

/// Whether no mode has that name, in lower case.
pub open spec fn no_mode(modes: Seq<Mode>, name: Seq<char>) -> bool {
    forall|j: int| 0 <= j < modes.len() ==> lowercase((#[trigger] modes[j]).name@) != lowercase(name)
}

/// The first controller whose name holds `needle`, in lower case.
pub fn find(controllers: &Vec<Controller>, needle: &str) -> (r: Option<usize>)
    ensures
        match r {
            Some(i) => {
                &&& i < controllers@.len()
                &&& contains_text(lowercase(controllers@[i as int].name@), lowercase(needle@))
                &&& forall|j: int|
                    0 <= j < i ==> !contains_text(
                        lowercase((#[trigger] controllers@[j]).name@),
                        lowercase(needle@),
                    )
            },
            None => forall|j: int|
                0 <= j < controllers@.len() ==> !contains_text(
                    lowercase((#[trigger] controllers@[j]).name@),
                    lowercase(needle@),
                ),
        },
{
    let wanted = to_lowercase(needle);
    let mut names: Vec<String> = Vec::new();
    let mut i: usize = 0;
    while i < controllers.len()
        invariant
            i <= controllers@.len(),
            names@.len() == i,
            forall|j: int|
                0 <= j < i ==> (#[trigger] names@[j])@ == lowercase(controllers@[j].name@),
        decreases controllers@.len() - i,
    {
        names.push(to_lowercase(controllers[i].name.as_str()));
        i += 1;
    }
    let r = first_containing(&names, wanted.as_str());
    assert(forall|j: int|
        0 <= j < names@.len() ==> names@[j]@ == lowercase((#[trigger] controllers@[j]).name@));
    r
}

impl Controller {
    /// The names of the modes, in order.
    pub fn mode_names(&self) -> (r: Vec<&str>)
        ensures
            r@.len() == self.modes@.len(),
            forall|i: int| 0 <= i < r@.len() ==> (#[trigger] r@[i])@ == self.modes@[i].name@,
    {
        let mut out: Vec<&str> = Vec::new();
        let mut i: usize = 0;
        while i < self.modes.len()
            invariant
                i <= self.modes@.len(),
                out@.len() == i,
                forall|j: int| 0 <= j < i ==> (#[trigger] out@[j])@ == self.modes@[j].name@,
            decreases self.modes@.len() - i,
        {
            out.push(self.modes[i].name.as_str());
            i += 1;
        }
        out
    }

    /// The first mode of that name, whatever the case of its letters.
    pub fn mode(&self, name: &str) -> (r: Option<&Mode>)
        ensures
            match r {
                Some(m) => exists|i: int|
                    #[trigger] first_mode(self.modes@, name@, i) && *m == self.modes@[i],
                None => no_mode(self.modes@, name@),
            },
    {
        let wanted = to_lowercase(name);
        let mut names: Vec<String> = Vec::new();
        let mut i: usize = 0;
        while i < self.modes.len()
            invariant
                i <= self.modes@.len(),
                names@.len() == i,
                forall|j: int|
                    0 <= j < i ==> (#[trigger] names@[j])@ == lowercase(self.modes@[j].name@),
            decreases self.modes@.len() - i,
        {
            names.push(to_lowercase(self.modes[i].name.as_str()));
            i += 1;
        }
        let found = first_equal(&names, &wanted);
        assert(forall|j: int|
            0 <= j < names@.len() ==> lowercase((#[trigger] self.modes@[j]).name@) == names@[j]@);
        match found {
            Some(k) => {
                assert(first_mode(self.modes@, name@, k as int));
                Some(&self.modes[k])
            },
            None => None,
        }
    }
}

/// A number moved into a range.
pub open spec fn clamped(v: int, low: int, high: int) -> int {
    if v < low {
        low
    } else if v > high {
        high
    } else {
        v
    }
}

fn clamp_u32(v: u32, low: u32, high: u32) -> (r: u32)
    requires
        low <= high,
    ensures
        r == clamped(v as int, low as int, high as int),
        low <= r <= high,
        low <= v <= high ==> r == v,
{
    if v < low {
        low
    } else if v > high {
        high
    } else {
        v
    }
}

/// The mode `m` tuned to a color and, where given and supported, a speed and a
/// brightness moved into the mode's ranges. Everything else stays.
pub open spec fn tuned(
    m: Mode,
    color: Rgb,
    speed: Option<u32>,
    brightness: Option<u32>,
    r: Mode,
) -> bool {
    &&& r.index == m.index
    &&& r.name@ == m.name@
    &&& r.value == m.value
    &&& r.flags == m.flags
    &&& r.speed_min == m.speed_min
    &&& r.speed_max == m.speed_max
    &&& r.brightness_min == m.brightness_min
    &&& r.brightness_max == m.brightness_max
    &&& r.colors_min == m.colors_min
    &&& r.colors_max == m.colors_max
    &&& r.direction == m.direction
    &&& r.color_mode == m.color_mode
    &&& r.speed == (match speed {
        Some(s) if m.speed_max > m.speed_min => clamped(
            s as int,
            m.speed_min as int,
            m.speed_max as int,
        ),
        _ => m.speed as int,
    })
    &&& r.brightness == (match brightness {
        Some(b) if m.brightness_max > m.brightness_min => clamped(
            b as int,
            m.brightness_min as int,
            m.brightness_max as int,
        ),
        _ => m.brightness as int,
    })
    &&& r.colors@ == (if m.colors_max > 0 {
        seq![packed_color(color) as u32]
    } else {
        m.colors@
    })
}

impl Mode {
    /// This mode with a color and, where given and supported, a speed and a
    /// brightness.
    pub fn tune(&self, color: Rgb, speed: Option<u32>, brightness: Option<u32>) -> (r: Mode)
        ensures
            tuned(*self, color, speed, brightness, r),
            speed matches Some(s) ==> self.speed_min <= s <= self.speed_max && self.speed_min
                < self.speed_max ==> r.speed == s,
            brightness matches Some(b) ==> self.brightness_min <= b <= self.brightness_max
                && self.brightness_min < self.brightness_max ==> r.brightness == b,
    {
        let mut mode = self.clone();
        if let Some(s) = speed {
            if mode.has_speed() {
                mode.speed = clamp_u32(s, mode.speed_min, mode.speed_max);
            }
        }
        if let Some(b) = brightness {
            if mode.has_brightness() {
                mode.brightness = clamp_u32(b, mode.brightness_min, mode.brightness_max);
            }
        }
        if mode.takes_color() {
            mode.colors = vec![color_u32(color)];
            assert(mode.colors@ =~= seq![packed_color(color) as u32]);
        }
        mode
    }
}

/// The concrete mode to send for a mode name: the first mode of that name,
/// tuned.
pub fn resolve_mode(
    ctrl: &Controller,
    mode_name: &str,
    color: Rgb,
    speed: Option<u32>,
    brightness: Option<u32>,
) -> (r: Result<Mode, WireError>)
    ensures
        match r {
            Ok(m) => exists|i: int| #[trigger]
                first_mode(ctrl.modes@, mode_name@, i) && tuned(
                    ctrl.modes@[i],
                    color,
                    speed,
                    brightness,
                    m,
                ),
            Err(e) => no_mode(ctrl.modes@, mode_name@) && e == WireError::NoSuchMode,
        },
{
    match ctrl.mode(mode_name) {
        Some(m) => Ok(m.tune(color, speed, brightness)),
        None => Err(WireError::NoSuchMode),
    }
}

/// A tuned mode stays inside the ranges it advertises, whatever was asked.
pub proof fn tuned_modes_stay_in_range(
    m: Mode,
    color: Rgb,
    speed: Option<u32>,
    brightness: Option<u32>,
    r: Mode,
)
    requires
        tuned(m, color, speed, brightness, r),
    ensures
        speed is Some && m.speed_max > m.speed_min ==> r.speed_min <= r.speed <= r.speed_max,
        brightness is Some && m.brightness_max > m.brightness_min ==> r.brightness_min
            <= r.brightness <= r.brightness_max,
{
}

/// A tuned mode carries what was asked for: a speed or brightness inside the
/// advertised range comes out exactly as it was asked for, bounds included; one
/// outside moves to the nearer bound; one that was not asked for, or that the
/// mode has no range for, stays. A mode that takes colors gets the one color,
/// red in its low byte, then green, then blue. Everything else stays.
pub proof fn tuned_modes_carry_what_was_asked(
    m: Mode,
    color: Rgb,
    speed: Option<u32>,
    brightness: Option<u32>,
    r: Mode,
)
    requires
        tuned(m, color, speed, brightness, r),
    ensures
        m.speed_min < m.speed_max ==> (speed matches Some(s) ==> {
            &&& m.speed_min <= s <= m.speed_max ==> r.speed == s
            &&& s < m.speed_min ==> r.speed == m.speed_min
            &&& s > m.speed_max ==> r.speed == m.speed_max
        }),
        speed is None || m.speed_min >= m.speed_max ==> r.speed == m.speed,
        m.brightness_min < m.brightness_max ==> (brightness matches Some(b) ==> {
            &&& m.brightness_min <= b <= m.brightness_max ==> r.brightness == b
            &&& b < m.brightness_min ==> r.brightness == m.brightness_min
            &&& b > m.brightness_max ==> r.brightness == m.brightness_max
        }),
        brightness is None || m.brightness_min >= m.brightness_max ==> r.brightness == m.brightness,
        m.colors_max > 0 ==> r.colors@.len() == 1 && r.colors@[0] % 256 == color.0 && (r.colors@[0]
            / 256) % 256 == color.1 && r.colors@[0] / 0x1_0000 == color.2,
        m.colors_max == 0 ==> r.colors@ == m.colors@,
        r.index == m.index,
        r.name@ == m.name@,
        r.value == m.value,
        r.flags == m.flags,
        r.speed_min == m.speed_min,
        r.speed_max == m.speed_max,
        r.brightness_min == m.brightness_min,
        r.brightness_max == m.brightness_max,
        r.colors_min == m.colors_min,
        r.colors_max == m.colors_max,
        r.direction == m.direction,
        r.color_mode == m.color_mode,
{
    packed_color_bytes(color);
}

/// A mode is found by its name whatever the case of its letters: there is a first
/// mode of a name exactly where some mode has it, there is one such mode, and no
/// mode before it has the name.
pub proof fn modes_are_found_by_name(modes: Seq<Mode>, name: Seq<char>, i: int, j: int)
    requires
        0 <= i < modes.len(),
        lowercase(modes[i].name@) == lowercase(name),
    ensures
        !no_mode(modes, name),
        exists|k: int| #[trigger] first_mode(modes, name, k) && k <= i,
        first_mode(modes, name, j) ==> 0 <= j <= i && lowercase(modes[j].name@) == lowercase(name),
    decreases i,
{
    if first_mode(modes, name, i) {
    } else {
        let e = choose|e: int| 0 <= e < i && lowercase((#[trigger] modes[e]).name@) == lowercase(name);
        modes_are_found_by_name(modes, name, e, j);
    }
    if first_mode(modes, name, j) && i < j {
        assert(lowercase(modes[i].name@) != lowercase(name));
    }
}

/// A controller that is found holds what was searched for in its name, whatever
/// the case, and none before it does.
pub proof fn the_first_fitting_controller_is_found(
    controllers: &Vec<Controller>,
    needle: &str,
    i: usize,
    j: int,
)
    requires
        call_ensures(find, (controllers, needle), Some(i)),
        0 <= j < controllers@.len(),
        contains_text(lowercase(controllers@[j].name@), lowercase(needle@)),
    ensures
        i <= j,
        i < controllers@.len(),
        contains_text(lowercase(controllers@[i as int].name@), lowercase(needle@)),
{
    if j < i {
        assert(!contains_text(lowercase(controllers@[j].name@), lowercase(needle@)));
    }
}

/// A mode that the controller has is sent as asked: a speed or a brightness in
/// range is carried exactly, and the mode keeps its place and its name; a name
/// that none of its modes has is refused.
pub proof fn resolved_modes_carry_what_was_asked(
    ctrl: &Controller,
    name: &str,
    color: Rgb,
    speed: Option<u32>,
    brightness: Option<u32>,
    r: Result<Mode, WireError>,
    i: int,
)
    requires
        call_ensures(resolve_mode, (ctrl, name, color, speed, brightness), r),
        0 <= i < ctrl.modes@.len(),
        lowercase(ctrl.modes@[i].name@) == lowercase(name@),
        forall|j: int|
            0 <= j < i ==> lowercase((#[trigger] ctrl.modes@[j]).name@) != lowercase(name@),
    ensures
        r matches Ok(m) && {
            let was = ctrl.modes@[i];
            &&& m.index == was.index && m.name@ == was.name@ && m.value == was.value
            &&& speed matches Some(s) ==> was.speed_min <= s <= was.speed_max && was.speed_min
                < was.speed_max ==> m.speed == s
            &&& speed is None ==> m.speed == was.speed
            &&& brightness matches Some(b) ==> was.brightness_min <= b <= was.brightness_max
                && was.brightness_min < was.brightness_max ==> m.brightness == b
            &&& brightness is None ==> m.brightness == was.brightness
        },
{
    assert(first_mode(ctrl.modes@, name@, i));
    if let Ok(m) = r {
        let k = choose|k: int| #[trigger]
            first_mode(ctrl.modes@, name@, k) && tuned(
                ctrl.modes@[k],
                color,
                speed,
                brightness,
                m,
            );
        assert(k == i);
    }
}

} // verus!
