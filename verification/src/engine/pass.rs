//! One pass over the devices: which of them are written, and how.
//!
//! A device is written when what it should show differs from what it was last
//! given, or when the pass is forced. Entering direct mode is asked for once,
//! not every frame.

use vstd::prelude::*;

use crate::engine::{signatures_tell_effects_apart, DeviceMode, HwSpec};
use crate::openrgb::Controller;
use crate::rgb::Rgb;
use crate::text::{contains, contains_text, occurrences_spell, occurs_at, same, spells, starts_with};

verus! {

/// What a device was last given.
pub struct DeviceTrack {
    /// Whether the device is in direct mode.
    pub direct_set: bool,
    /// The signature of the firmware effect that was applied.
    pub applied_hw: Option<String>,
    /// The frame that was last pushed.
    pub last_frame: Vec<Rgb>,
}

/// What a device was last given, as plain values.
#[verifier::ext_equal]
pub struct Given {
    pub direct: bool,
    pub effect: Option<Seq<char>>,
    pub frame: Seq<Rgb>,
}

impl View for DeviceTrack {
    type V = Given;

    open spec fn view(&self) -> Given {
        Given {
            direct: self.direct_set,
            effect: match self.applied_hw {
                Some(s) => Some(s@),
                None => None,
            },
            frame: self.last_frame@,
        }
    }
}

/// A device that was given nothing.
pub open spec fn nothing_given() -> Given {
    Given { direct: false, effect: None, frame: Seq::empty() }
}

/// One write to a device.
#[derive(Clone, Copy, Debug, PartialEq, Eq, Structural)]
pub enum Command {
    /// Apply the device's firmware effect.
    Apply { device: usize },
    /// Push the device's frame, entering direct mode first where asked.
    Frame { device: usize, enter: bool },
}

/// What a device needs.
pub open spec fn need(g: Given, mode: DeviceMode, frame: Seq<Rgb>, force: bool, device: usize) -> Option<
    Command,
> {
    match mode {
        DeviceMode::Hardware(spec) => if force || g.effect != Some(spec.text()) {
            Some(Command::Apply { device })
        } else {
            None
        },
        DeviceMode::PerZone(_) => if force || frame != g.frame {
            Some(Command::Frame { device, enter: !g.direct })
        } else {
            None
        },
    }
}

/// The writes that the first `n` devices need, in order.
pub open spec fn needs(
    given: Seq<Given>,
    devices: Seq<DeviceMode>,
    frames: Seq<Seq<Rgb>>,
    force: bool,
    n: nat,
) -> Seq<Command>
    decreases n,
{
    if n == 0 {
        Seq::empty()
    } else {
        let before = needs(given, devices, frames, force, (n - 1) as nat);
        match need(given[n - 1], devices[n - 1], frames[n - 1], force, (n - 1) as usize) {
            Some(c) => before.push(c),
            None => before,
        }
    }
}

/// What some devices were last given, as plain values.
pub open spec fn all_given(tracks: Seq<DeviceTrack>) -> Seq<Given> {
    tracks.map_values(|t: DeviceTrack| t@)
}

/// Some frames, as plain values.
pub open spec fn all_frames(frames: Seq<Vec<Rgb>>) -> Seq<Seq<Rgb>> {
    frames.map_values(|f: Vec<Rgb>| f@)
}

/// How many devices a pass goes through: those that are both connected and
/// described by the state.
pub open spec fn reached(tracks: nat, devices: nat) -> nat {
    if tracks < devices {
        tracks
    } else {
        devices
    }
}

fn same_frame(a: &Vec<Rgb>, b: &Vec<Rgb>) -> (r: bool)
    ensures
        r == (a@ == b@),
{
    if a.len() != b.len() {
        return false;
    }
    let mut i: usize = 0;
    while i < a.len()
        invariant
            i <= a@.len(),
            a@.len() == b@.len(),
            forall|j: int| 0 <= j < i ==> a@[j] == b@[j],
        decreases a@.len() - i,
    {
        if a[i] != b[i] {
            return false;
        }
        i += 1;
    }
    assert(a@ =~= b@);
    true
}

fn device_need(track: &DeviceTrack, mode: &DeviceMode, frame: &Vec<Rgb>, force: bool, device: usize) -> (r:
    Option<Command>)
    ensures
        r == need(track@, *mode, frame@, force, device),
{
    match mode {
        DeviceMode::Hardware(spec) => {
            let sig = spec.signature();
            let current = match &track.applied_hw {
                Some(s) => same(s.as_str(), sig.as_str()),
                None => false,
            };
            if force || !current {
                Some(Command::Apply { device })
            } else {
                None
            }
        },
        DeviceMode::PerZone(_) => {
            if !force && same_frame(frame, &track.last_frame) {
                None
            } else {
                Some(Command::Frame { device, enter: !track.direct_set })
            }
        },
    }
}

/// What a device is held to have been given once a pass looks at it: one that is
/// driven zone by zone shows no firmware effect.
pub open spec fn looked_at(g: Given, mode: DeviceMode) -> Given {
    match mode {
        DeviceMode::Hardware(_) => g,
        DeviceMode::PerZone(_) => Given { effect: None, ..g },
    }
}

/// Plans a pass. `frames` holds the rendered frame of every device that is
/// driven zone by zone.
pub fn plan_pass(
    tracks: &mut Vec<DeviceTrack>,
    devices: &Vec<DeviceMode>,
    frames: &Vec<Vec<Rgb>>,
    force: bool,
) -> (r: Vec<Command>)
    requires
        frames@.len() == devices@.len(),
    ensures
        r@ == needs(
            all_given(old(tracks)@),
            devices@,
            all_frames(frames@),
            force,
            reached(old(tracks)@.len(), devices@.len()),
        ),
        forall|i: int|
            0 <= i < old(tracks)@.len() && i < devices@.len() && devices@[i] is PerZone && (force
                || frames@[i]@ != (#[trigger] old(tracks)@[i]).last_frame@) ==> r@.contains(
                Command::Frame { device: i as usize, enter: !old(tracks)@[i].direct_set },
            ),
        final(tracks)@.len() == old(tracks)@.len(),
        forall|i: int|
            0 <= i < final(tracks)@.len() ==> (#[trigger] final(tracks)@[i])@ == (if i < devices@.len() {
                looked_at(old(tracks)@[i]@, devices@[i])
            } else {
                old(tracks)@[i]@
            }),
{
    let ghost given = all_given(tracks@);
    let ghost shown = all_frames(frames@);
    let n: usize = if tracks.len() < devices.len() {
        tracks.len()
    } else {
        devices.len()
    };
    let mut out: Vec<Command> = Vec::new();
    let mut i: usize = 0;
    while i < n
        invariant
            i <= n <= tracks@.len(),
            n <= devices@.len(),
            n == reached(old(tracks)@.len(), devices@.len()),
            frames@.len() == devices@.len(),
            tracks@.len() == old(tracks)@.len(),
            given == all_given(old(tracks)@),
            shown == all_frames(frames@),
            forall|k: int|
                0 <= k < i ==> (#[trigger] tracks@[k])@ == looked_at(old(tracks)@[k]@, devices@[k]),
            forall|k: int| i <= k < tracks@.len() ==> #[trigger] tracks@[k] == old(tracks)@[k],
            out@ == needs(given, devices@, shown, force, i as nat),
        decreases n - i,
    {
        if let Some(c) = device_need(&tracks[i], &devices[i], &frames[i], force, i) {
            out.push(c);
        }
        if let DeviceMode::PerZone(_) = &devices[i] {
            tracks[i].applied_hw = None;
        }
        i += 1;
    }
    proof {
        assert forall|k: int|
            0 <= k < old(tracks)@.len() && k < devices@.len() && devices@[k] is PerZone && (force
                || frames@[k]@ != (#[trigger] old(tracks)@[k]).last_frame@) implies out@.contains(
            Command::Frame { device: k as usize, enter: !old(tracks)@[k].direct_set },
        ) by {
            assert(given[k] == old(tracks)@[k]@);
            assert(shown[k] == frames@[k]@);
            needs_hold_each_need(given, devices@, shown, force, n as nat, k);
        }
    }
    out
}

/// What a device holds once its firmware effect was applied.
pub open spec fn after_apply(spec: HwSpec) -> Given {
    Given { direct: false, effect: Some(spec.text()), frame: Seq::empty() }
}

/// What a device holds once a frame was pushed.
pub open spec fn after_frame(g: Given, frame: Seq<Rgb>, entered: bool) -> Given {
    Given { direct: g.direct || entered, effect: None, frame }
}

impl DeviceTrack {
    /// A device that was given nothing.
    pub fn new() -> (r: Self)
        ensures
            r@ == nothing_given(),
    {
        DeviceTrack { direct_set: false, applied_hw: None, last_frame: Vec::new() }
    }

    /// Takes in that the firmware effect was applied.
    pub fn applied(&mut self, spec: &HwSpec)
        ensures
            final(self)@ == after_apply(*spec),
    {
        self.applied_hw = Some(spec.signature());
        self.direct_set = false;
        self.last_frame.clear();
    }

    /// Takes in that a frame was pushed, and whether direct mode was entered
    /// for it.
    pub fn pushed(&mut self, frame: Vec<Rgb>, entered: bool)
        ensures
            final(self)@ == after_frame(old(self)@, frame@, entered),
    {
        if entered {
            self.direct_set = true;
        }
        self.applied_hw = None;
        self.last_frame = frame;
    }

    /// Forgets everything: a save changed the device's active mode.
    pub fn invalidate(&mut self)
        ensures
            final(self)@ == nothing_given(),
    {
        self.applied_hw = None;
        self.direct_set = false;
        self.last_frame.clear();
    }
}

/// A repeated pass is silent: once what a device needed was given to it, the
/// same state needs nothing, unless forced.
pub proof fn given_devices_need_nothing(
    g: Given,
    mode: DeviceMode,
    frame: Seq<Rgb>,
    force: bool,
    entered: bool,
    device: usize,
)
    requires
        need(g, mode, frame, force, device) is Some,
    ensures
        match mode {
            DeviceMode::Hardware(spec) => need(after_apply(spec), mode, frame, false, device)
                is None,
            DeviceMode::PerZone(_) => need(
                after_frame(g, frame, entered),
                mode,
                frame,
                false,
                device,
            ) is None,
        },
{
}

/// Direct mode is entered once: a device that entered it is not asked to enter
/// it again by the next frame.
pub proof fn direct_mode_is_entered_once(
    g: Given,
    mode: DeviceMode,
    frame: Seq<Rgb>,
    next: Seq<Rgb>,
    force: bool,
    device: usize,
)
    ensures
        need(after_frame(g, frame, true), mode, next, force, device) matches Some(c) ==> c
            != (Command::Frame { device, enter: true }),
{
}

/// A forced pass reaches every device: that is how hold out-times whoever else
/// repaints them.
pub proof fn forced_passes_reach_every_device(
    given: Seq<Given>,
    devices: Seq<DeviceMode>,
    frames: Seq<Seq<Rgb>>,
    n: nat,
)
    ensures
        needs(given, devices, frames, true, n).len() == n,
    decreases n,
{
    if n > 0 {
        forced_passes_reach_every_device(given, devices, frames, (n - 1) as nat);
    }
}

/// A pass is silent when no device needs anything.
pub proof fn settled_devices_are_left_alone(
    given: Seq<Given>,
    devices: Seq<DeviceMode>,
    frames: Seq<Seq<Rgb>>,
    n: nat,
)
    requires
        forall|i: int|
            0 <= i < n ==> need(#[trigger] given[i], devices[i], frames[i], false, i as usize)
                is None,
    ensures
        needs(given, devices, frames, false, n) == Seq::<Command>::empty(),
    decreases n,
{
    if n > 0 {
        settled_devices_are_left_alone(given, devices, frames, (n - 1) as nat);
        assert(need(given[n - 1], devices[n - 1], frames[n - 1], false, (n - 1) as usize) is None);
    }
}

/// A save makes the next pass establish the device again. (A device without
/// LEDs has nothing to establish.)
pub proof fn a_save_re_establishes_the_device(mode: DeviceMode, frame: Seq<Rgb>, device: usize)
    requires
        mode is PerZone ==> frame.len() > 0,
    ensures
        need(nothing_given(), mode, frame, false, device) is Some,
{
}

/// The commands that a pass holds are those of the devices that need one, each
/// under the device's own number.
proof fn needs_hold_each_need(
    given: Seq<Given>,
    devices: Seq<DeviceMode>,
    frames: Seq<Seq<Rgb>>,
    force: bool,
    n: nat,
    i: int,
)
    requires
        0 <= i < n <= usize::MAX,
    ensures
        need(given[i], devices[i], frames[i], force, i as usize) matches Some(c) ==> needs(
            given,
            devices,
            frames,
            force,
            n,
        ).contains(c),
    decreases n,
{
    let before = needs(given, devices, frames, force, (n - 1) as nat);
    let now = needs(given, devices, frames, force, n);
    if let Some(c) = need(given[i], devices[i], frames[i], force, i as usize) {
        if i == n - 1 {
            assert(now.last() == c);
        } else {
            needs_hold_each_need(given, devices, frames, force, (n - 1) as nat, i);
            let k = choose|k: int| 0 <= k < before.len() && before[k] == c;
            assert(now[k] == c);
        }
    }
}

/// A changed frame is pushed: where any LED of a device driven zone by zone is to
/// show another color than it was last given, or the number of LEDs is another,
/// the pass holds a frame command for that device, forced or not.
pub proof fn changed_frames_are_pushed(
    given: Seq<Given>,
    devices: Seq<DeviceMode>,
    frames: Seq<Seq<Rgb>>,
    force: bool,
    n: nat,
    i: int,
    led: int,
)
    requires
        0 <= i < n <= usize::MAX,
        devices[i] is PerZone,
        frames[i].len() != given[i].frame.len() || (0 <= led < frames[i].len() && frames[i][led]
            != given[i].frame[led]),
    ensures
        needs(given, devices, frames, force, n).contains(
            Command::Frame { device: i as usize, enter: !given[i].direct },
        ),
{
    needs_hold_each_need(given, devices, frames, force, n, i);
    assert(frames[i] != given[i].frame);
}

/// A changed firmware effect is applied: where a device was given another effect
/// than it is to run (another mode, color, speed or brightness), or a frame, the
/// pass holds an apply command for it, forced or not.
pub proof fn changed_effects_are_applied(
    given: Seq<Given>,
    devices: Seq<DeviceMode>,
    frames: Seq<Seq<Rgb>>,
    force: bool,
    n: nat,
    i: int,
    was: HwSpec,
)
    requires
        0 <= i < n <= usize::MAX,
        devices[i] matches DeviceMode::Hardware(spec) && (given[i].effect is None || (given[i]
            == after_apply(was) && (was.mode@ != spec.mode@ || was.color != spec.color || was.speed
            != spec.speed || was.brightness != spec.brightness))),
    ensures
        needs(given, devices, frames, force, n).contains(Command::Apply { device: i as usize }),
{
    if let DeviceMode::Hardware(spec) = devices[i] {
        signatures_tell_effects_apart(was, spec);
    }
    needs_hold_each_need(given, devices, frames, force, n, i);
}

/// Every command of a pass has a reason: it is for a device that the pass goes
/// through, of the kind that drives the device, and without force what the
/// device was last given differs from what it is to show. Direct mode is asked
/// for exactly where the device is not in it. No device is written twice.
pub proof fn commands_have_a_reason(
    given: Seq<Given>,
    devices: Seq<DeviceMode>,
    frames: Seq<Seq<Rgb>>,
    force: bool,
    n: nat,
    k: int,
)
    requires
        n <= usize::MAX,
        0 <= k < needs(given, devices, frames, force, n).len(),
    ensures
        match needs(given, devices, frames, force, n)[k] {
            Command::Apply { device } => {
                &&& device < n
                &&& devices[device as int] matches DeviceMode::Hardware(spec) && (force
                    || given[device as int] != after_apply(spec))
            },
            Command::Frame { device, enter } => {
                &&& device < n
                &&& devices[device as int] is PerZone
                &&& force || frames[device as int] != given[device as int].frame
                &&& enter == !given[device as int].direct
            },
        },
        forall|j: int|
            0 <= j < k ==> device_of(#[trigger] needs(given, devices, frames, force, n)[j])
                < device_of(needs(given, devices, frames, force, n)[k]),
        device_of(needs(given, devices, frames, force, n)[k]) < n,
    decreases n,
{
    let before = needs(given, devices, frames, force, (n - 1) as nat);
    let now = needs(given, devices, frames, force, n);
    if k < before.len() {
        commands_have_a_reason(given, devices, frames, force, (n - 1) as nat, k);
        assert(now[k] == before[k]);
        assert forall|j: int| 0 <= j < k implies device_of(#[trigger] now[j]) < device_of(
            now[k],
        ) by {
            assert(now[j] == before[j]);
        }
    } else {
        assert forall|j: int| 0 <= j < k implies device_of(#[trigger] now[j]) < device_of(
            now[k],
        ) by {
            assert(now[j] == before[j]);
            commands_have_a_reason(given, devices, frames, force, (n - 1) as nat, j);
        }
    }
}

/// The device that a command is for.
pub open spec fn device_of(c: Command) -> int {
    match c {
        Command::Apply { device } => device as int,
        Command::Frame { device, .. } => device as int,
    }
}

/// A switch between the two ways to drive a device is seen by the next pass: a
/// firmware effect is applied again once zones were driven, and zones are driven
/// from direct mode again once a firmware effect ran.
pub proof fn switched_devices_are_established_again(
    g: Given,
    spec: HwSpec,
    sources: Vec<crate::effects::ZoneSource>,
    frame: Seq<Rgb>,
    entered: bool,
    device: usize,
)
    requires
        frame.len() > 0,
    ensures
        need(
            looked_at(g, DeviceMode::PerZone(sources)),
            DeviceMode::Hardware(spec),
            frame,
            false,
            device,
        ) == Some(Command::Apply { device }),
        need(after_frame(g, frame, entered), DeviceMode::Hardware(spec), frame, false, device)
            == Some(Command::Apply { device }),
        need(after_apply(spec), DeviceMode::PerZone(sources), frame, false, device) == Some(
            Command::Frame { device, enter: true },
        ),
        looked_at(g, DeviceMode::PerZone(sources)).frame == g.frame,
        looked_at(g, DeviceMode::PerZone(sources)).direct == g.direct,
        looked_at(g, DeviceMode::Hardware(spec)) == g,
        after_frame(g, frame, entered).frame == frame,
        after_frame(g, frame, entered).direct == (g.direct || entered),
{
}

/// A pass goes through every device that is both connected and described.
pub proof fn passes_reach_what_both_sides_know(tracks: nat, devices: nat, i: nat)
    ensures
        i < reached(tracks, devices) <==> i < tracks && i < devices,
{
}

// ----------------------------------------------------- which devices to list

/// A text in upper case: the outcome of `str::to_uppercase`.
pub uninterp spec fn uppercase(text: Seq<char>) -> Seq<char>;

/// `str::to_uppercase`: nothing is claimed of the outcome but that it depends on
/// the text alone.
#[verifier::external_body]
pub(crate) fn to_uppercase(s: &str) -> (r: String)
    ensures
        r@ == uppercase(s@),
{
    s.to_uppercase()
}

/// Whether a controller is hidden, by its name and vendor in upper case: the
/// tower's server accepts writes to its controllers and drops them, and other
/// makers' peripherals are out of scope.
pub open spec fn hidden(hay: Seq<char>) -> bool {
    ||| occurs_at(hay, "ACERDT"@, 0)
    ||| contains_text(hay, "LOGITECH"@)
    ||| contains_text(hay, "G502"@)
    ||| contains_text(hay, "G512"@)
}

/// Whether a controller is hidden, by its name and vendor in upper case.
pub fn is_hidden(hay: &str) -> (r: bool)
    ensures
        r == hidden(hay@),
{
    starts_with(hay, "ACERDT") || contains(hay, "LOGITECH") || contains(hay, "G502") || contains(
        hay,
        "G512",
    )
}

/// The tower's controllers and the named peripherals are hidden, wherever their
/// marks stand; a name without any of the marks is not.
pub proof fn marked_controllers_are_hidden(x: Seq<char>, y: Seq<char>)
    ensures
        hidden("ACERDT"@ + x),
        hidden(x + "LOGITECH"@ + y),
        hidden(x + "G502"@ + y),
        hidden(x + "G512"@ + y),
        hidden(x) ==> x.len() >= 4,
        hidden(x) ==> {
            ||| exists|i: int| #[trigger] spells(x, i, "LOGITECH"@)
            ||| exists|i: int| #[trigger] spells(x, i, "G502"@)
            ||| exists|i: int| #[trigger] spells(x, i, "G512"@)
            ||| spells(x, 0, "ACERDT"@)
        },
{
    reveal_strlit("ACERDT");
    reveal_strlit("LOGITECH");
    reveal_strlit("G502");
    reveal_strlit("G512");
    let a = "ACERDT"@ + x;
    assert(a.subrange(0, "ACERDT"@.len() as int) =~= "ACERDT"@);
    let b = x + "LOGITECH"@ + y;
    assert(b.subrange(x.len() as int, (x.len() + "LOGITECH"@.len()) as int) =~= "LOGITECH"@);
    assert(occurs_at(b, "LOGITECH"@, x.len() as int));
    let c = x + "G502"@ + y;
    assert(c.subrange(x.len() as int, (x.len() + "G502"@.len()) as int) =~= "G502"@);
    assert(occurs_at(c, "G502"@, x.len() as int));
    let d = x + "G512"@ + y;
    assert(d.subrange(x.len() as int, (x.len() + "G512"@.len()) as int) =~= "G512"@);
    assert(occurs_at(d, "G512"@, x.len() as int));
    if occurs_at(x, "ACERDT"@, 0) {
        occurrences_spell(x, "ACERDT"@, 0);
    }
    if contains_text(x, "LOGITECH"@) {
        let i = choose|i: int| occurs_at(x, "LOGITECH"@, i);
        occurrences_spell(x, "LOGITECH"@, i);
    }
    if contains_text(x, "G502"@) {
        let i = choose|i: int| occurs_at(x, "G502"@, i);
        occurrences_spell(x, "G502"@, i);
    }
    if contains_text(x, "G512"@) {
        let i = choose|i: int| occurs_at(x, "G512"@, i);
        occurrences_spell(x, "G512"@, i);
    }
}

/// Whether a controller is hidden.
pub open spec fn inert(c: Controller) -> bool {
    hidden(uppercase(c.name@ + " "@ + c.vendor@))
}

/// Whether a controller is hidden.
pub fn is_inert(c: &Controller) -> (r: bool)
    ensures
        r == inert(*c),
{
    let mut hay = String::new();
    hay.append(c.name.as_str());
    hay.append(" ");
    hay.append(c.vendor.as_str());
    assert(hay@ =~= c.name@ + " "@ + c.vendor@);
    is_hidden(to_uppercase(hay.as_str()).as_str())
}

/// Splits the controllers into those that are listed and those that are hidden,
/// both in order.
pub fn list_controllers(controllers: Vec<Controller>) -> (r: (Vec<Controller>, Vec<Controller>))
    ensures
        r.0@ == controllers@.filter(|c: Controller| !inert(c)),
        r.1@ == controllers@.filter(|c: Controller| inert(c)),
{
    let ghost all = controllers@;
    let ghost is_live = |c: Controller| !inert(c);
    let ghost is_dead = |c: Controller| inert(c);
    let n: usize = controllers.len();
    let mut rest = controllers;
    let mut live: Vec<Controller> = Vec::new();
    let mut dead: Vec<Controller> = Vec::new();
    let mut i: usize = 0;
    proof {
        reveal(Seq::filter);
        assert(all.take(0) =~= Seq::<Controller>::empty());
    }
    while i < n
        invariant
            n == all.len(),
            i <= n,
            is_live == (|c: Controller| !inert(c)),
            is_dead == (|c: Controller| inert(c)),
            rest@ == all.skip(i as int),
            live@ == all.take(i as int).filter(is_live),
            dead@ == all.take(i as int).filter(is_dead),
        decreases n - i,
    {
        let c = rest.remove(0);
        proof {
            reveal(Seq::filter);
            assert(rest@ =~= all.skip(i + 1));
            let next = all.take(i + 1);
            assert(next.drop_last() =~= all.take(i as int));
            assert(next.last() == c);
        }
        if is_inert(&c) {
            dead.push(c);
        } else {
            live.push(c);
        }
        i += 1;
    }
    assert(all.take(n as int) =~= all);
    (live, dead)
}

/// The log line for a hidden controller.
pub fn hidden_line(c: &Controller) -> (r: String)
    ensures
        r@ == "engine: hiding inert OpenRGB controller '"@ + c.name@ + "' (WMI owns it)"@,
{
    let mut out = String::new();
    out.append("engine: hiding inert OpenRGB controller '");
    out.append(c.name.as_str());
    out.append("' (WMI owns it)");
    assert(out@ =~= "engine: hiding inert OpenRGB controller '"@ + c.name@ + "' (WMI owns it)"@);
    out
}

/// A controller is hidden by the marks in its name and in its vendor, and by
/// nothing else of it.
pub proof fn names_and_vendors_decide(c: Controller, d: Controller)
    ensures
        contains_text(uppercase(c.name@ + " "@ + c.vendor@), "LOGITECH"@) ==> inert(c),
        contains_text(uppercase(c.name@ + " "@ + c.vendor@), "G502"@) ==> inert(c),
        contains_text(uppercase(c.name@ + " "@ + c.vendor@), "G512"@) ==> inert(c),
        inert(c) ==> uppercase(c.name@ + " "@ + c.vendor@).len() >= 4,
        c.name@ == d.name@ && c.vendor@ == d.vendor@ ==> inert(c) == inert(d),
{
    marked_controllers_are_hidden(uppercase(c.name@ + " "@ + c.vendor@), Seq::empty());
}

/// A device that was given nothing is established in full: its firmware effect is
/// applied, or its frame is pushed in direct mode, which is entered first.
pub proof fn new_devices_are_established(
    mode: DeviceMode,
    frame: Seq<Rgb>,
    force: bool,
    device: usize,
)
    ensures
        mode is Hardware ==> need(nothing_given(), mode, frame, force, device) == Some(
            Command::Apply { device },
        ),
        mode is PerZone && frame.len() > 0 ==> need(nothing_given(), mode, frame, force, device)
            == Some(Command::Frame { device, enter: true }),
{
}

} // verus!
