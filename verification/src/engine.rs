//! The lighting engine: what gets written to which device, and when.

pub mod case_laws;
pub mod pass;
pub mod session;
pub mod tracker;

use vstd::prelude::*;

use crate::dt::DtState;
use crate::effects::{Effect, Fx, ZoneSource};
use crate::library::Motion;
use crate::number::{Single, ZERO};
use crate::openrgb::Controller;
use crate::rgb::Rgb;
use crate::text::{decimal, decimals_differ, push_decimal};

verus! {

/// A firmware effect that the controller animates on its own.
#[derive(Debug)]
pub struct HwSpec {
    pub mode: String,
    pub color: Rgb,
    pub speed: u32,
    pub brightness: u32,
}

/// What drives one device, fully resolved.
#[derive(Debug)]
pub enum DeviceMode {
    /// Independent sources, zone by zone.
    PerZone(Vec<ZoneSource>),
    /// A firmware effect.
    Hardware(HwSpec),
}

/// The whole compositor state.
#[derive(Debug)]
pub struct EngineState {
    /// Parallel to the controller list reported on connect.
    pub devices: Vec<DeviceMode>,
    /// Master brightness, zero to one.
    pub master: Single,
    /// Keys of the effects that spread; no key twice.
    pub spread: Vec<String>,
    /// Push again periodically, even when nothing changed.
    pub hold: bool,
    /// On battery, dim and warm what is shown.
    pub battery_saver: bool,
    /// What the tower case shows; absent, the case is left alone.
    pub dt: Option<DtState>,
}

/// What the engine reports.
#[derive(Debug)]
pub enum EngineEvent {
    Connected(Vec<Controller>),
    Disconnected(String),
    /// Whether the last pass saw the machine on battery.
    OnBattery(bool),
    /// Whether the case can be reached, and the last failure if any.
    DtStatus { available: bool, error: Option<String> },
}

// --------------------------------------------------------------- signatures

impl HwSpec {
    /// The same firmware effect.
    pub open spec fn same_as(self, other: HwSpec) -> bool {
        &&& self.mode@ == other.mode@
        &&& self.color == other.color
        &&& self.speed == other.speed
        &&& self.brightness == other.brightness
    }

    pub open spec fn text(self) -> Seq<char> {
        self.mode@ + "|"@ + self.color.text() + "|"@ + decimal(self.speed as nat) + "|"@ + decimal(
            self.brightness as nat,
        )
    }

    /// A text that identifies the effect: equal signatures, equal effects.
    pub fn signature(&self) -> (r: String)
        ensures
            r@ == self.text(),
    {
        let mut out = String::new();
        out.append(self.mode.as_str());
        out.append("|");
        self.color.push_text(&mut out);
        out.append("|");
        push_decimal(&mut out, self.speed as u128);
        out.append("|");
        push_decimal(&mut out, self.brightness as u128);
        assert(out@ =~= self.text());
        out
    }
}

impl Clone for HwSpec {
    fn clone(&self) -> (r: Self)
        ensures
            r.same_as(*self),
    {
        HwSpec {
            mode: self.mode.clone(),
            color: self.color,
            speed: self.speed,
            brightness: self.brightness,
        }
    }
}

/// Whether a text does not hold a character.
pub open spec fn free_of(s: Seq<char>, c: char) -> bool {
    forall|i: int| 0 <= i < s.len() ==> #[trigger] s[i] != c
}

pub(crate) proof fn decimal_is_digits(n: nat)
    ensures
        forall|i: int| 0 <= i < decimal(n).len() ==> '0' <= #[trigger] decimal(n)[i] <= '9',
    decreases n,
{
    if n >= 10 {
        decimal_is_digits(n / 10);
        let head = decimal(n / 10);
        assert forall|i: int| 0 <= i < decimal(n).len() implies '0' <= #[trigger] decimal(n)[i]
            <= '9' by {
            if i < head.len() {
                assert(decimal(n)[i] == head[i]);
            }
        }
    }
}

/// A text cut at the last occurrence of a character is cut in one way.
pub(crate) proof fn last_cut_is_unique(a: Seq<char>, b: Seq<char>, c: char, x: Seq<char>, y: Seq<char>)
    requires
        a.push(c) + x == b.push(c) + y,
        free_of(x, c),
        free_of(y, c),
    ensures
        a == b,
        x == y,
{
    let s = a.push(c) + x;
    let t = b.push(c) + y;
    assert(s.len() == t.len());
    assert(s.len() == a.len() + 1 + x.len() && t.len() == b.len() + 1 + y.len());
    assert(s[a.len() as int] == c);
    assert(t[b.len() as int] == c);
    if a.len() < b.len() {
        assert(s[b.len() as int] == x[b.len() - a.len() - 1]);
    }
    if b.len() < a.len() {
        assert(t[a.len() as int] == y[a.len() - b.len() - 1]);
    }
    assert(a =~= s.take(a.len() as int));
    assert(b =~= t.take(b.len() as int));
    assert(x =~= s.skip((a.len() + 1) as int));
    assert(y =~= t.skip((b.len() + 1) as int));
}

proof fn color_texts_differ(a: Rgb, b: Rgb)
    requires
        a.text() == b.text(),
    ensures
        a == b,
{
    reveal_strlit("Rgb(");
    reveal_strlit(", ");
    reveal_strlit(")");
    let (a0, a1, a2) = (decimal(a.0 as nat), decimal(a.1 as nat), decimal(a.2 as nat));
    let (b0, b1, b2) = (decimal(b.0 as nat), decimal(b.1 as nat), decimal(b.2 as nat));
    decimal_is_digits(a.0 as nat);
    decimal_is_digits(a.1 as nat);
    decimal_is_digits(a.2 as nat);
    decimal_is_digits(b.0 as nat);
    decimal_is_digits(b.1 as nat);
    decimal_is_digits(b.2 as nat);
    let head = seq!['R', 'g', 'b', '('];
    let pa = head + a0 + seq![',', ' '] + a1 + seq![','];
    let pb = head + b0 + seq![',', ' '] + b1 + seq![','];
    let end = seq![')'];
    assert(a.text() =~= pa.push(' ') + (a2 + end));
    assert(b.text() =~= pb.push(' ') + (b2 + end));
    last_cut_is_unique(pa, pb, ' ', a2 + end, b2 + end);
    assert((a2 + end).drop_last() =~= a2);
    assert((b2 + end).drop_last() =~= b2);
    let comma = seq![','];
    let qa = head + a0 + comma;
    let qb = head + b0 + comma;
    assert(pa =~= qa.push(' ') + (a1 + comma));
    assert(pb =~= qb.push(' ') + (b1 + comma));
    last_cut_is_unique(qa, qb, ' ', a1 + comma, b1 + comma);
    assert((a1 + comma).drop_last() =~= a1);
    assert((b1 + comma).drop_last() =~= b1);
    assert(qa =~= seq!['R', 'g', 'b'].push('(') + (a0 + comma));
    assert(qb =~= seq!['R', 'g', 'b'].push('(') + (b0 + comma));
    last_cut_is_unique(seq!['R', 'g', 'b'], seq!['R', 'g', 'b'], '(', a0 + comma, b0 + comma);
    assert((a0 + comma).drop_last() =~= a0);
    assert((b0 + comma).drop_last() =~= b0);
    decimals_differ(a.0 as nat, b.0 as nat);
    decimals_differ(a.1 as nat, b.1 as nat);
    decimals_differ(a.2 as nat, b.2 as nat);
}

proof fn color_text_has_no_bar(c: Rgb)
    ensures
        free_of(c.text(), '|'),
{
    reveal_strlit("Rgb(");
    reveal_strlit(", ");
    reveal_strlit(")");
    decimal_is_digits(c.0 as nat);
    decimal_is_digits(c.1 as nat);
    decimal_is_digits(c.2 as nat);
    let t0 = "Rgb("@ + decimal(c.0 as nat);
    assert(free_of(t0, '|'));
    let t1 = t0 + ", "@ + decimal(c.1 as nat);
    assert(free_of(t1, '|'));
    let t2 = t1 + ", "@ + decimal(c.2 as nat);
    assert(free_of(t2, '|'));
}

/// Signatures tell effects apart: equal signatures mean the same mode, color,
/// speed and brightness, whatever the mode is called. So a device is never
/// skipped whose effect changed.
pub proof fn signatures_tell_effects_apart(a: HwSpec, b: HwSpec)
    ensures
        a.text() == b.text() <==> a.same_as(b),
        a.text() == b.text() <==> a.mode@ == b.mode@ && a.color == b.color && a.speed == b.speed
            && a.brightness == b.brightness,
{
    if a.text() == b.text() {
        reveal_strlit("|");
        let bar = seq!['|'];
        assert("|"@ =~= bar);
        decimal_is_digits(a.speed as nat);
        decimal_is_digits(b.speed as nat);
        decimal_is_digits(a.brightness as nat);
        decimal_is_digits(b.brightness as nat);
        color_text_has_no_bar(a.color);
        color_text_has_no_bar(b.color);
        let ma = a.mode@;
        let mb = b.mode@;
        let ca = ma + bar + a.color.text();
        let cb = mb + bar + b.color.text();
        let sa = ca + bar + decimal(a.speed as nat);
        let sb = cb + bar + decimal(b.speed as nat);
        assert(a.text() =~= sa.push('|') + decimal(a.brightness as nat));
        assert(b.text() =~= sb.push('|') + decimal(b.brightness as nat));
        last_cut_is_unique(sa, sb, '|', decimal(a.brightness as nat), decimal(b.brightness as nat));
        assert(sa =~= ca.push('|') + decimal(a.speed as nat));
        assert(sb =~= cb.push('|') + decimal(b.speed as nat));
        last_cut_is_unique(ca, cb, '|', decimal(a.speed as nat), decimal(b.speed as nat));
        assert(ca =~= ma.push('|') + a.color.text());
        assert(cb =~= mb.push('|') + b.color.text());
        last_cut_is_unique(ma, mb, '|', a.color.text(), b.color.text());
        decimals_differ(a.speed as nat, b.speed as nat);
        decimals_differ(a.brightness as nat, b.brightness as nat);
        color_texts_differ(a.color, b.color);
    }
}

// ------------------------------------------------------------------ cadence

/// The slowest frame rate, in frames a second.
pub const MIN_HZ: u32 = 8;

/// The fastest frame rate, in frames a second.
pub const MAX_HZ: u32 = 30;

/// How long the loop sleeps when nothing moves, in nanoseconds.
pub const IDLE_TICK: u64 = 900_000_000;

/// How long to wait before connecting again, in nanoseconds.
pub const RECONNECT_WAIT: u64 = 2_000_000_000;

/// How often a held profile is pushed again, in nanoseconds.
pub const HOLD_PERIOD: u64 = 3_000_000_000;

impl Default for EngineState {
    fn default() -> (r: Self)
        ensures
            r.devices@.len() == 0,
            r.master == Single(ZERO),
            r.spread@.len() == 0,
            !r.hold,
            !r.battery_saver,
            r.dt is None,
    {
        EngineState {
            devices: Vec::new(),
            master: Single(ZERO),
            spread: Vec::new(),
            hold: false,
            battery_saver: false,
            dt: None,
        }
    }
}

/// The frame rate that an effect wants.
pub open spec fn rate_of(fx: Fx) -> u32 {
    match fx {
        Fx::Program(e) => match e {
            Effect::Comet => 24,
            Effect::Fire => 24,
            Effect::Police => 24,
            Effect::Wave => 24,
            Effect::Rainbow => 16,
            Effect::Gradient => 16,
            Effect::Breathe => 10,
        },
        Fx::Custom(c) => match c.motion {
            Motion::Twinkle => 22,
            Motion::Scroll => 18,
            Motion::Bounce => 18,
            Motion::Pulse => 10,
            Motion::Static => 0,
        },
    }
}

/// The frame rate that an effect wants: a breathing pulse less than a comet.
pub fn fx_hz(fx: &Fx) -> (r: u32)
    ensures
        r == rate_of(*fx),
{
    match fx {
        Fx::Program(e) => match e {
            Effect::Comet | Effect::Fire | Effect::Police | Effect::Wave => 24,
            Effect::Rainbow | Effect::Gradient => 16,
            Effect::Breathe => 10,
        },
        Fx::Custom(c) => match c.motion {
            Motion::Twinkle => 22,
            Motion::Scroll | Motion::Bounce => 18,
            Motion::Pulse => 10,
            Motion::Static => 0,
        },
    }
}

/// The effect that a source runs.
pub open spec fn source_fx(s: ZoneSource) -> Option<Fx> {
    match s {
        ZoneSource::Solid(_) => None,
        ZoneSource::Function(f, _) => Some(f),
    }
}

/// Whether a source wants a frame rate.
pub open spec fn wants(s: ZoneSource, hz: u32) -> bool {
    source_fx(s) matches Some(f) && rate_of(f) == hz
}

/// Whether zone `j` of device `i` runs this effect.
pub open spec fn runs_at(devices: Seq<DeviceMode>, i: int, j: int, fx: Fx) -> bool {
    &&& 0 <= i < devices.len()
    &&& devices[i] matches DeviceMode::PerZone(s) && 0 <= j < s@.len() && source_fx(s@[j]) == Some(fx)
}

/// Whether some zone of some device runs an effect.
pub open spec fn animates(devices: Seq<DeviceMode>) -> bool {
    exists|i: int, j: int, fx: Fx| #[trigger] runs_at(devices, i, j, fx)
}

/// The frame rate of some devices: the highest that any effect wants, and never
/// below the slowest.
pub open spec fn is_rate(devices: Seq<DeviceMode>, hz: u32) -> bool {
    &&& hz >= MIN_HZ
    &&& forall|i: int, j: int, fx: Fx| #[trigger] runs_at(devices, i, j, fx) ==> rate_of(fx) <= hz
    &&& hz == MIN_HZ || exists|i: int, j: int, fx: Fx| #[trigger]
        runs_at(devices, i, j, fx) && rate_of(fx) == hz
}

/// Whether a run of sources holds an effect.
fn any_effect(sources: &Vec<ZoneSource>) -> (r: bool)
    ensures
        r == exists|j: int| 0 <= j < sources@.len() && #[trigger] sources@[j] is Function,
{
    let mut j: usize = 0;
    while j < sources.len()
        invariant
            j <= sources@.len(),
            forall|k: int| 0 <= k < j ==> !(#[trigger] sources@[k] is Function),
        decreases sources@.len() - j,
    {
        if sources[j].fx().is_some() {
            assert(sources@[j as int] is Function);
            return true;
        }
        j += 1;
    }
    false
}

/// Whether anything moves.
pub fn is_animating(state: &EngineState) -> (r: bool)
    ensures
        r == animates(state.devices@),
{
    let mut i: usize = 0;
    while i < state.devices.len()
        invariant
            i <= state.devices@.len(),
            forall|k: int, j: int, fx: Fx| k < i ==> !#[trigger] runs_at(state.devices@, k, j, fx),
        decreases state.devices@.len() - i,
    {
        if let DeviceMode::PerZone(sources) = &state.devices[i] {
            if any_effect(sources) {
                proof {
                    let j = choose|j: int| 0 <= j < sources@.len() && #[trigger] sources@[j] is Function;
                    let fx = sources@[j]->Function_0;
                    assert(runs_at(state.devices@, i as int, j, fx));
                }
                return true;
            }
            assert forall|j: int, fx: Fx| !#[trigger] runs_at(state.devices@, i as int, j, fx) by {
                if runs_at(state.devices@, i as int, j, fx) {
                    assert(sources@[j] is Function);
                }
            }
        }
        i += 1;
    }
    false
}

/// The fastest rate among some sources and a rate so far.
fn fastest(sources: &Vec<ZoneSource>, so_far: u32) -> (r: u32)
    ensures
        r >= so_far,
        forall|j: int|
            0 <= j < sources@.len() ==> (#[trigger] sources@[j] matches ZoneSource::Function(f, _)
                ==> rate_of(f) <= r),
        r == so_far || exists|j: int|
            0 <= j < sources@.len() && wants(#[trigger] sources@[j], r),
{
    let mut hz: u32 = so_far;
    let mut j: usize = 0;
    while j < sources.len()
        invariant
            j <= sources@.len(),
            hz >= so_far,
            forall|k: int|
                0 <= k < j ==> (#[trigger] sources@[k] matches ZoneSource::Function(f, _)
                    ==> rate_of(f) <= hz),
            hz == so_far || exists|k: int|
                0 <= k < j && wants(#[trigger] sources@[k], hz),
        decreases sources@.len() - j,
    {
        if let Some(fx) = sources[j].fx() {
            let want: u32 = fx_hz(fx);
            if want > hz {
                hz = want;
                assert(wants(sources@[j as int], hz));
            }
        }
        j += 1;
    }
    hz
}

/// The frame rate that the running effects want.
pub fn active_hz(state: &EngineState) -> (r: u32)
    ensures
        is_rate(state.devices@, r),
        MIN_HZ <= r <= MAX_HZ,
{
    let ghost devices = state.devices@;
    let mut hz: u32 = MIN_HZ;
    let mut i: usize = 0;
    while i < state.devices.len()
        invariant
            i <= state.devices@.len(),
            devices == state.devices@,
            MIN_HZ <= hz <= MAX_HZ,
            forall|k: int, j: int, fx: Fx|
                k < i && #[trigger] runs_at(devices, k, j, fx) ==> rate_of(fx) <= hz,
            hz == MIN_HZ || exists|k: int, j: int, fx: Fx| #[trigger]
                runs_at(devices, k, j, fx) && rate_of(fx) == hz,
        decreases state.devices@.len() - i,
    {
        if let DeviceMode::PerZone(sources) = &state.devices[i] {
            let next: u32 = fastest(sources, hz);
            proof {
                assert forall|j: int, fx: Fx| #[trigger] runs_at(
                    devices,
                    i as int,
                    j,
                    fx,
                ) implies rate_of(fx) <= next by {
                    assert(sources@[j] matches ZoneSource::Function(f, _) ==> rate_of(f) <= next);
                }
                if next != hz {
                    let j = choose|j: int|
                        0 <= j < sources@.len() && wants(#[trigger] sources@[j], next);
                    let fx = sources@[j]->Function_0;
                    assert(runs_at(devices, i as int, j, fx));
                }
            }
            hz = next;
        }
        i += 1;
    }
    hz
}

/// The frame rate of the loop: none when nothing moves.
pub fn frame_rate(state: &EngineState) -> (r: Option<u32>)
    ensures
        match r {
            Some(hz) => animates(state.devices@) && is_rate(state.devices@, hz) && MIN_HZ <= hz
                <= MAX_HZ,
            None => !animates(state.devices@),
        },
{
    if is_animating(state) {
        Some(active_hz(state))
    } else {
        None
    }
}

/// How fast each effect wants to run: sweeping effects and twinkling fastest,
/// scrolling ones less, breathing and pulsing slowest, and a still palette not
/// at all.
pub proof fn effects_want_their_rates(e: Effect, c: crate::library::CustomEffect)
    ensures
        (e == Effect::Comet || e == Effect::Fire || e == Effect::Police || e == Effect::Wave)
            ==> rate_of(Fx::Program(e)) == 24,
        (e == Effect::Rainbow || e == Effect::Gradient) ==> rate_of(Fx::Program(e)) == 16,
        e == Effect::Breathe ==> rate_of(Fx::Program(e)) == 10,
        c.motion == Motion::Twinkle ==> rate_of(Fx::Custom(c)) == 22,
        (c.motion == Motion::Scroll || c.motion == Motion::Bounce) ==> rate_of(Fx::Custom(c)) == 18,
        c.motion == Motion::Pulse ==> rate_of(Fx::Custom(c)) == 10,
        c.motion == Motion::Static ==> rate_of(Fx::Custom(c)) == 0,
{
}

/// The frame rate is enough for every running effect and no more than the fastest
/// of them wants, or than eight frames a second: so there is one such rate.
pub proof fn frame_rates_serve_every_effect(
    devices: Seq<DeviceMode>,
    hz: u32,
    other: u32,
    i: int,
    j: int,
)
    requires
        is_rate(devices, hz),
    ensures
        hz >= 8,
        0 <= i < devices.len() ==> (devices[i] matches DeviceMode::PerZone(s) ==> (0 <= j < s@.len()
            ==> (s@[j] matches ZoneSource::Function(f, _) ==> animates(devices) && rate_of(f)
            <= hz))),
        is_rate(devices, other) ==> other == hz,
        hz > 8 ==> animates(devices),
{
    if 0 <= i < devices.len() {
        if let DeviceMode::PerZone(s) = devices[i] {
            if 0 <= j < s@.len() {
                if let ZoneSource::Function(f, _) = s@[j] {
                    assert(runs_at(devices, i, j, f));
                }
            }
        }
    }
    if hz > 8 {
        let (a, b, f) = choose|a: int, b: int, f: Fx| #[trigger]
            runs_at(devices, a, b, f) && rate_of(f) == hz;
        assert(runs_at(devices, a, b, f));
    }
    if is_rate(devices, other) {
        if hz > other {
            let (a, b, f) = choose|a: int, b: int, f: Fx| #[trigger]
                runs_at(devices, a, b, f) && rate_of(f) == hz;
            assert(rate_of(f) <= other);
        }
        if other > hz {
            let (a, b, f) = choose|a: int, b: int, f: Fx| #[trigger]
                runs_at(devices, a, b, f) && rate_of(f) == other;
            assert(rate_of(f) <= hz);
        }
    }
}

/// Nothing moves exactly where every device either runs a firmware effect or
/// shows solid zones only.
pub proof fn only_effects_move(devices: Seq<DeviceMode>)
    requires
        animates(devices),
    ensures
        exists|i: int, j: int| #[trigger] shows_effect(devices, i, j),
{
    let (i, j, f) = choose|i: int, j: int, f: Fx| #[trigger] runs_at(devices, i, j, f);
    assert(shows_effect(devices, i, j));
}

/// Whether zone `j` of device `i` shows an effect.
pub open spec fn shows_effect(devices: Seq<DeviceMode>, i: int, j: int) -> bool {
    0 <= i < devices.len() && (devices[i] matches DeviceMode::PerZone(s) && 0 <= j < s@.len()
        && s@[j] is Function)
}

} // verus!
