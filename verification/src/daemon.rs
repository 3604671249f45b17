//! The service: the single owner of lighting state, and how it answers.

use vstd::prelude::*;
use vstd::utf8::char_is_scalar;

use crate::engine::{EngineEvent, EngineState, HwSpec};
use crate::ipc::{ClientMsg, ServerMsg, PIPE_NAME};
use crate::model::{
    copies_show_the_same, copy_devices, describe_all, same_devices, shows_all, DeviceDescriptor,
    LedInfo, ModeInfo, ZoneInfo,
};
use crate::text::{
    chars_of, contained_in_a_longer_text, contains_text, decimal, joined_texts_contain_their_parts,
    occurs_at, push_decimal, same,
};

verus! {

pub const SERVICE_NAME: &'static str = "colormemuch-svc";

pub const DISPLAY_NAME: &'static str = "colormemuch lighting service";

/// The status that the service answers with.
pub struct Snapshot {
    pub connected: bool,
    pub error: Option<String>,
    pub on_battery: bool,
    pub controllers: Option<Vec<DeviceDescriptor>>,
    pub dt_available: bool,
    pub dt_error: Option<String>,
}

impl Default for Snapshot {
    fn default() -> (r: Self)
        ensures
            !r.connected,
            r.error is None,
            !r.on_battery,
            r.controllers is None,
            !r.dt_available,
            r.dt_error is None,
    {
        Snapshot {
            connected: false,
            error: None,
            on_battery: false,
            controllers: None,
            dt_available: false,
            dt_error: None,
        }
    }
}

/// The status once an engine event was taken in.
pub open spec fn absorbed(before: Snapshot, ev: EngineEvent, after: Snapshot) -> bool {
    match ev {
        EngineEvent::Connected(cs) => {
            &&& after.controllers matches Some(ds) && shows_all(cs@, ds@)
            &&& after == (Snapshot {
                connected: true,
                error: None,
                controllers: after.controllers,
                ..before
            })
        },
        // The device list stays: it is what the window knew last.
        EngineEvent::Disconnected(e) => after == (Snapshot {
            connected: false,
            error: Some(e),
            ..before
        }),
        EngineEvent::OnBattery(b) => after == (Snapshot { on_battery: b, ..before }),
        EngineEvent::DtStatus { available, error } => after == (Snapshot {
            dt_available: available,
            dt_error: error,
            ..before
        }),
    }
}

fn copy_text(s: &Option<String>) -> (r: Option<String>)
    ensures
        r == *s,
{
    match s {
        Some(t) => Some(t.clone()),
        None => None,
    }
}

/// What a status message reports of the status.
pub open spec fn reports(s: Snapshot, m: ServerMsg) -> bool {
    m matches ServerMsg::Status {
        connected,
        error,
        on_battery,
        controllers,
        dt_available,
        dt_error,
    } && {
        &&& connected == s.connected
        &&& error == s.error
        &&& on_battery == s.on_battery
        &&& match (controllers, s.controllers) {
            (None, None) => true,
            (Some(a), Some(b)) => same_devices(a@, b@),
            _ => false,
        }
        &&& dt_available == s.dt_available
        &&& dt_error == s.dt_error
    }
}

impl Snapshot {
    /// Takes in an engine event.
    pub fn absorb(&mut self, ev: EngineEvent)
        ensures
            absorbed(*old(self), ev, *final(self)),
    {
        match ev {
            EngineEvent::Connected(cs) => {
                self.connected = true;
                self.error = None;
                self.controllers = Some(describe_all(&cs));
            },
            EngineEvent::Disconnected(e) => {
                self.connected = false;
                self.error = Some(e);
            },
            EngineEvent::OnBattery(b) => {
                self.on_battery = b;
            },
            EngineEvent::DtStatus { available, error } => {
                self.dt_available = available;
                self.dt_error = error;
            },
        }
    }

    /// The status as a message.
    pub fn report(&self) -> (r: ServerMsg)
        ensures
            reports(*self, r),
    {
        ServerMsg::Status {
            connected: self.connected,
            error: copy_text(&self.error),
            on_battery: self.on_battery,
            controllers: match &self.controllers {
                Some(c) => Some(copy_devices(c)),
                None => None,
            },
            dt_available: self.dt_available,
            dt_error: copy_text(&self.dt_error),
        }
    }
}

/// What a request has the service do before it answers.
pub enum Task {
    /// Nothing.
    Nothing,
    /// Keep the state and hand it to the engine.
    Apply(EngineState),
    /// Have the engine save a firmware mode, and answer with what came of it.
    Save { device: usize, spec: HwSpec },
    /// Have the engine connect again.
    Reconnect,
}

/// What the service does about a request, and what it answers; a save is
/// answered with what came of it.
pub open spec fn answers(msg: ClientMsg, s: Snapshot, task: Task, reply: Option<ServerMsg>) -> bool {
    match msg {
        ClientMsg::Hello => task == Task::Nothing && reply == Some(ServerMsg::Done),
        ClientMsg::Poll => task == Task::Nothing && (reply matches Some(m) && reports(s, m)),
        ClientMsg::SetState(state) => task == Task::Apply(state) && reply == Some(ServerMsg::Done),
        ClientMsg::SaveFirmware { device, spec } => task == (Task::Save { device, spec })
            && reply is None,
        ClientMsg::Reconnect => task == Task::Reconnect && reply == Some(ServerMsg::Done),
    }
}

/// What the service does about a request, and what it answers.
pub fn answer(msg: ClientMsg, snapshot: &Snapshot) -> (r: (Task, Option<ServerMsg>))
    ensures
        answers(msg, *snapshot, r.0, r.1),
{
    match msg {
        ClientMsg::Hello => (Task::Nothing, Some(ServerMsg::Done)),
        ClientMsg::Poll => (Task::Nothing, Some(snapshot.report())),
        ClientMsg::SetState(state) => (Task::Apply(state), Some(ServerMsg::Done)),
        ClientMsg::SaveFirmware { device, spec } => (Task::Save { device, spec }, None),
        ClientMsg::Reconnect => (Task::Reconnect, Some(ServerMsg::Done)),
    }
}

/// The answer to a save: what the engine reported, or that it did not.
pub fn save_answer(result: Option<Result<bool, String>>) -> (r: ServerMsg)
    ensures
        match result {
            Some(res) => r == ServerMsg::SaveResult(res),
            None => r matches ServerMsg::SaveResult(Err(e)) && e@ == "engine unavailable"@,
        },
{
    match result {
        Some(res) => ServerMsg::SaveResult(res),
        None => ServerMsg::SaveResult(Err("engine unavailable".to_string())),
    }
}

/// A poll after an event reports that event: what the service answers is what
/// the engine last said.
pub proof fn polls_report_the_last_event(before: Snapshot, ev: EngineEvent, after: Snapshot, m: ServerMsg)
    requires
        absorbed(before, ev, after),
        reports(after, m),
    ensures
        match ev {
            EngineEvent::Connected(cs) => m matches ServerMsg::Status {
                connected,
                error,
                controllers,
                ..
            } && connected && error is None && (controllers matches Some(ds) && shows_all(
                cs@,
                ds@,
            )),
            EngineEvent::Disconnected(e) => m matches ServerMsg::Status { connected, error, .. }
                && !connected && error == Some(e),
            EngineEvent::OnBattery(b) => m matches ServerMsg::Status { on_battery, .. }
                && on_battery == b,
            EngineEvent::DtStatus { available, error } => m matches ServerMsg::Status {
                dt_available,
                dt_error,
                ..
            } && dt_available == available && dt_error == error,
        },
        // What the event does not speak of is reported as before.
        !(ev is OnBattery) ==> (m matches ServerMsg::Status { on_battery, .. } && on_battery
            == before.on_battery),
        !(ev is DtStatus) ==> (m matches ServerMsg::Status { dt_available, dt_error, .. }
            && dt_available == before.dt_available && dt_error == before.dt_error),
        ev is OnBattery || ev is DtStatus ==> (m matches ServerMsg::Status { connected, error, .. }
            && connected == before.connected && error == before.error),
        !(ev is Connected) ==> (m matches ServerMsg::Status { controllers, .. } && (
        controllers is Some <==> before.controllers is Some)),
{
    if let EngineEvent::Connected(cs) = ev {
        if let ServerMsg::Status { controllers: Some(ds), .. } = m {
            copies_show_the_same(cs@, after.controllers->0@, ds@);
        }
    }
}

// ---------------------------------------------------------------- the pipe

/// The full path of the service's pipe.
pub fn pipe_path() -> (r: String)
    ensures
        r@ == "\\\\.\\pipe\\"@ + PIPE_NAME@,
{
    let mut out = String::new();
    out.append("\\\\.\\pipe\\");
    out.append(PIPE_NAME);
    assert(out@ =~= "\\\\.\\pipe\\"@ + PIPE_NAME@);
    out
}

/// One character in UTF-16: itself, or a surrogate pair.
pub open spec fn utf16_units(c: char) -> Seq<u16> {
    let v = c as u32;
    if v < 0x1_0000 {
        seq![v as u16]
    } else {
        seq![(0xD800 + (v - 0x1_0000) / 0x400) as u16, (0xDC00 + (v - 0x1_0000) % 0x400) as u16]
    }
}

/// A text in UTF-16.
pub open spec fn utf16(text: Seq<char>) -> Seq<u16>
    decreases text.len(),
{
    if text.len() == 0 {
        Seq::empty()
    } else {
        utf16(text.drop_last()) + utf16_units(text.last())
    }
}

/// A text in UTF-16 with a trailing zero.
pub fn wide(s: &str) -> (r: Vec<u16>)
    ensures
        r@ == utf16(s@).push(0),
{
    let chars = chars_of(s);
    let mut out: Vec<u16> = Vec::new();
    let mut i: usize = 0;
    assert(out@ =~= utf16(chars@.take(0)));
    while i < chars.len()
        invariant
            i <= chars@.len(),
            out@ == utf16(chars@.take(i as int)),
        decreases chars@.len() - i,
    {
        let ch: char = chars[i];
        proof {
            char_is_scalar(ch);
        }
        let c: u32 = ch as u32;
        if c < 0x1_0000 {
            out.push(c as u16);
        } else {
            let rest: u32 = c - 0x1_0000;
            out.push((0xD800 + rest / 0x400) as u16);
            out.push((0xDC00 + rest % 0x400) as u16);
        }
        proof {
            let next = chars@.take(i + 1);
            assert(next.drop_last() =~= chars@.take(i as int));
            assert(next.last() == chars@[i as int]);
            assert(out@ =~= utf16(next));
        }
        i += 1;
    }
    assert(chars@.take(i as int) =~= chars@);
    out.push(0);
    out
}

// -------------------------------------------------------------- the listing

pub open spec fn matrix_note(z: ZoneInfo) -> Seq<char> {
    match z.matrix {
        Some(m) => " matrix "@ + decimal(m.height as nat) + "x"@ + decimal(m.width as nat),
        None => Seq::empty(),
    }
}

pub open spec fn zone_line(z: ZoneInfo) -> Seq<char> {
    "      - "@ + z.name@ + " ["@ + z.kind.name() + "] "@ + decimal(z.leds_count as nat) + " LEDs"@
        + matrix_note(z) + "\n"@
}

pub open spec fn zone_lines(zones: Seq<ZoneInfo>) -> Seq<char>
    decreases zones.len(),
{
    if zones.len() == 0 {
        Seq::empty()
    } else {
        zone_lines(zones.drop_last()) + zone_line(zones.last())
    }
}

/// LED names with commas between them.
pub open spec fn led_list(leds: Seq<LedInfo>) -> Seq<char>
    decreases leds.len(),
{
    if leds.len() == 0 {
        Seq::empty()
    } else if leds.len() == 1 {
        leds[0].name@
    } else {
        led_list(leds.drop_last()) + ", "@ + leds.last().name@
    }
}

/// A mode's capabilities, in order.
pub open spec fn capabilities(m: ModeInfo) -> Seq<Seq<char>> {
    let a = Seq::<Seq<char>>::empty();
    let b = if m.has_speed {
        a.push("speed"@)
    } else {
        a
    };
    let c = if m.has_brightness {
        b.push("brightness"@)
    } else {
        b
    };
    let d = if m.has_direction {
        c.push("direction"@)
    } else {
        c
    };
    let e = if m.takes_color {
        d.push("color"@)
    } else {
        d
    };
    if m.can_save {
        e.push("save"@)
    } else {
        e
    }
}

/// Texts with a separator between them.
pub open spec fn joined(parts: Seq<Seq<char>>, sep: Seq<char>) -> Seq<char>
    decreases parts.len(),
{
    if parts.len() == 0 {
        Seq::empty()
    } else if parts.len() == 1 {
        parts[0]
    } else {
        joined(parts.drop_last(), sep) + sep + parts.last()
    }
}

pub open spec fn mode_line(m: ModeInfo) -> Seq<char> {
    "      - "@ + m.name@ + " ["@ + joined(capabilities(m), ","@) + "]\n"@
}

pub open spec fn mode_lines(modes: Seq<ModeInfo>) -> Seq<char>
    decreases modes.len(),
{
    if modes.len() == 0 {
        Seq::empty()
    } else {
        mode_lines(modes.drop_last()) + mode_line(modes.last())
    }
}

/// The line on a device's maker, where it says anything.
pub open spec fn maker_line(d: DeviceDescriptor) -> Seq<char> {
    if d.vendor@.len() == 0 && d.description@.len() == 0 {
        Seq::empty()
    } else {
        "    "@ + d.vendor@ + " — "@ + d.description@ + "\n"@
    }
}

/// A device's entry in the listing.
pub open spec fn device_entry(d: DeviceDescriptor) -> Seq<char> {
    "\n["@ + decimal(d.index as nat) + "] "@ + d.name@ + "  ("@ + d.kind.name() + ")\n"@
        + maker_line(d) + "    zones ("@ + decimal(d.zones@.len()) + "):\n"@ + zone_lines(d.zones@)
        + "    LEDs ("@ + decimal(d.leds@.len()) + "): "@ + led_list(d.leds@) + "\n    modes ("@
        + decimal(d.modes@.len()) + "):\n"@ + mode_lines(d.modes@)
}

/// The names of a mode's capabilities, in order.
pub fn capability_names(m: &ModeInfo) -> (r: Vec<&'static str>)
    ensures
        r@.map_values(|s: &'static str| s@) == capabilities(*m),
{
    let mut out: Vec<&'static str> = Vec::new();
    if m.has_speed {
        out.push("speed");
    }
    if m.has_brightness {
        out.push("brightness");
    }
    if m.has_direction {
        out.push("direction");
    }
    if m.takes_color {
        out.push("color");
    }
    if m.can_save {
        out.push("save");
    }
    assert(out@.map_values(|s: &'static str| s@) =~= capabilities(*m));
    out
}

/// A mode's capabilities in one line, with a separator between them.
pub fn capability_list(m: &ModeInfo, sep: &str) -> (r: String)
    ensures
        r@ == joined(capabilities(*m), sep@),
{
    let caps = capability_names(m);
    let ghost parts = capabilities(*m);
    let mut out = String::new();
    let mut i: usize = 0;
    assert(out@ =~= joined(parts.take(0), sep@));
    while i < caps.len()
        invariant
            i <= caps@.len(),
            caps@.map_values(|s: &'static str| s@) == parts,
            parts.len() == caps@.len(),
            out@ == joined(parts.take(i as int), sep@),
        decreases caps@.len() - i,
    {
        if i > 0 {
            out.append(sep);
        }
        out.append(caps[i]);
        proof {
            let next = parts.take(i + 1);
            assert(parts[i as int] == caps@[i as int]@);
            assert(next.drop_last() =~= parts.take(i as int));
            assert(out@ =~= joined(next, sep@));
        }
        i += 1;
    }
    assert(parts.take(i as int) =~= parts);
    out
}

fn push_zone_line(out: &mut String, z: &ZoneInfo)
    ensures
        final(out)@ == old(out)@ + zone_line(*z),
{
    out.append("      - ");
    out.append(z.name.as_str());
    out.append(" [");
    out.append(z.kind.label());
    out.append("] ");
    push_decimal(out, z.leds_count as u128);
    out.append(" LEDs");
    if let Some(m) = &z.matrix {
        out.append(" matrix ");
        push_decimal(out, m.height as u128);
        out.append("x");
        push_decimal(out, m.width as u128);
    }
    out.append("\n");
    assert(out@ =~= old(out)@ + zone_line(*z));
}

fn push_zone_lines(out: &mut String, zones: &Vec<ZoneInfo>)
    ensures
        final(out)@ == old(out)@ + zone_lines(zones@),
{
    let mut i: usize = 0;
    assert(out@ =~= old(out)@ + zone_lines(zones@.take(0)));
    while i < zones.len()
        invariant
            i <= zones@.len(),
            out@ == old(out)@ + zone_lines(zones@.take(i as int)),
        decreases zones@.len() - i,
    {
        push_zone_line(out, &zones[i]);
        proof {
            let next = zones@.take(i + 1);
            assert(next.drop_last() =~= zones@.take(i as int));
            assert(next.last() == zones@[i as int]);
            assert(out@ =~= old(out)@ + zone_lines(next));
        }
        i += 1;
    }
    assert(zones@.take(i as int) =~= zones@);
}

fn push_led_list(out: &mut String, leds: &Vec<LedInfo>)
    ensures
        final(out)@ == old(out)@ + led_list(leds@),
{
    let mut i: usize = 0;
    assert(out@ =~= old(out)@ + led_list(leds@.take(0)));
    while i < leds.len()
        invariant
            i <= leds@.len(),
            out@ == old(out)@ + led_list(leds@.take(i as int)),
        decreases leds@.len() - i,
    {
        if i > 0 {
            out.append(", ");
        }
        out.append(leds[i].name.as_str());
        proof {
            let next = leds@.take(i + 1);
            assert(next.drop_last() =~= leds@.take(i as int));
            assert(out@ =~= old(out)@ + led_list(next));
        }
        i += 1;
    }
    assert(leds@.take(i as int) =~= leds@);
}

/// The names of some LEDs in one line.
pub fn led_names(leds: &Vec<LedInfo>) -> (r: String)
    ensures
        r@ == led_list(leds@),
{
    let mut out = String::new();
    push_led_list(&mut out, leds);
    assert(out@ =~= led_list(leds@));
    out
}

fn push_mode_lines(out: &mut String, modes: &Vec<ModeInfo>)
    ensures
        final(out)@ == old(out)@ + mode_lines(modes@),
{
    let mut i: usize = 0;
    assert(out@ =~= old(out)@ + mode_lines(modes@.take(0)));
    while i < modes.len()
        invariant
            i <= modes@.len(),
            out@ == old(out)@ + mode_lines(modes@.take(i as int)),
        decreases modes@.len() - i,
    {
        let caps = capability_list(&modes[i], ",");
        out.append("      - ");
        out.append(modes[i].name.as_str());
        out.append(" [");
        out.append(caps.as_str());
        out.append("]\n");
        proof {
            let next = modes@.take(i + 1);
            assert(next.drop_last() =~= modes@.take(i as int));
            assert(out@ =~= old(out)@ + mode_lines(next));
        }
        i += 1;
    }
    assert(modes@.take(i as int) =~= modes@);
}

fn push_text_line(out: &mut String, d: &DeviceDescriptor)
    ensures
        final(out)@ == old(out)@ + maker_line(*d),
{
    let none = same(d.vendor.as_str(), "") && same(d.description.as_str(), "");
    proof {
        reveal_strlit("");
        assert((d.vendor@ == ""@) == (d.vendor@.len() == 0)) by {
            if d.vendor@.len() == 0 {
                assert(d.vendor@ =~= ""@);
            }
        }
        assert((d.description@ == ""@) == (d.description@.len() == 0)) by {
            if d.description@.len() == 0 {
                assert(d.description@ =~= ""@);
            }
        }
    }
    if !none {
        out.append("    ");
        out.append(d.vendor.as_str());
        out.append(" — ");
        out.append(d.description.as_str());
        out.append("\n");
    }
    assert(out@ =~= old(out)@ + maker_line(*d));
}

/// A device's entry in the listing.
pub fn describe_device(d: &DeviceDescriptor) -> (r: String)
    ensures
        r@ == device_entry(*d),
{
    let mut out = String::new();
    out.append("\n[");
    push_decimal(&mut out, d.index as u128);
    out.append("] ");
    out.append(d.name.as_str());
    out.append("  (");
    out.append(d.kind.label());
    out.append(")\n");
    push_text_line(&mut out, d);
    out.append("    zones (");
    push_decimal(&mut out, d.zones.len() as u128);
    out.append("):\n");
    push_zone_lines(&mut out, &d.zones);
    out.append("    LEDs (");
    push_decimal(&mut out, d.leds.len() as u128);
    out.append("): ");
    push_led_list(&mut out, &d.leds);
    out.append("\n    modes (");
    push_decimal(&mut out, d.modes.len() as u128);
    out.append("):\n");
    push_mode_lines(&mut out, &d.modes);
    assert(out@ =~= device_entry(*d));
    out
}

/// The first line of the listing.
pub fn listing_head(count: usize, addr: &str) -> (r: String)
    ensures
        r@ == decimal(count as nat) + " controller(s) on "@ + addr@ + "\n"@,
{
    let mut out = String::new();
    push_decimal(&mut out, count as u128);
    out.append(" controller(s) on ");
    out.append(addr);
    out.append("\n");
    assert(out@ =~= decimal(count as nat) + " controller(s) on "@ + addr@ + "\n"@);
    out
}

// ---------------------------------------------------------- the command line

/// What the service binary is asked to do.
#[derive(Clone, Copy, Debug, PartialEq, Eq, Structural)]
pub enum Verb {
    /// Run under the service manager.
    Run,
    /// Serve in the foreground.
    Console,
    Install,
    Uninstall,
    /// Print the discovered devices.
    List,
}

pub open spec fn verb_text(v: Verb) -> Seq<char> {
    match v {
        Verb::Run => "run"@,
        Verb::Console => "console"@,
        Verb::Install => "install"@,
        Verb::Uninstall => "uninstall"@,
        Verb::List => "list"@,
    }
}

/// Reads the first argument of the service binary.
pub fn parse_verb(arg: &str) -> (r: Option<Verb>)
    ensures
        match r {
            Some(v) => arg@ == verb_text(v),
            None => forall|v: Verb| arg@ != #[trigger] verb_text(v),
        },
{
    if same(arg, "run") {
        Some(Verb::Run)
    } else if same(arg, "console") {
        Some(Verb::Console)
    } else if same(arg, "install") {
        Some(Verb::Install)
    } else if same(arg, "uninstall") {
        Some(Verb::Uninstall)
    } else if same(arg, "list") {
        Some(Verb::List)
    } else {
        None
    }
}

/// Requests are carried out: a state is applied as it came, a save goes to the
/// device and with the effect asked for, a poll is answered with the status and
/// changes nothing, and nothing is done that was not asked for.
pub proof fn requests_are_carried_out(
    msg: ClientMsg,
    s: Snapshot,
    task: Task,
    reply: Option<ServerMsg>,
)
    requires
        answers(msg, s, task, reply),
    ensures
        task is Apply <==> msg is SetState,
        msg matches ClientMsg::SetState(state) ==> (task matches Task::Apply(a) && a == state),
        task is Save <==> msg is SaveFirmware,
        msg matches ClientMsg::SaveFirmware { device, spec } ==> (task matches Task::Save {
            device: d,
            spec: t,
        } && d == device && t == spec),
        task is Reconnect <==> msg is Reconnect,
        reply is None <==> msg is SaveFirmware,
        msg is Poll ==> (reply matches Some(ServerMsg::Status { connected, on_battery, error, .. })
            && connected == s.connected && on_battery == s.on_battery && error == s.error),
        msg is Hello || msg is SetState || msg is Reconnect ==> reply == Some(ServerMsg::Done),
{
}

/// A text in UTF-16 reads back character by character: a character of the basic
/// plane is one unit, itself; any other is a high and a low surrogate that
/// together give it back.
pub proof fn utf16_units_read_back(c: char)
    ensures
        ({
            let u = utf16_units(c);
            &&& c as u32 <= 0xFFFF ==> u.len() == 1 && u[0] == c as u32
            &&& c as u32 > 0xFFFF ==> {
                &&& u.len() == 2
                &&& 0xD800 <= u[0] < 0xDC00
                &&& 0xDC00 <= u[1] < 0xE000
                &&& 0x1_0000 + 0x400 * (u[0] - 0xD800) + (u[1] - 0xDC00) == c as u32
            }
        }),
{
    char_is_scalar(c);
}

/// A text in UTF-16 is its characters' units one after the other.
pub proof fn utf16_texts_join(a: Seq<char>, b: Seq<char>)
    ensures
        utf16(a + b) == utf16(a) + utf16(b),
    decreases b.len(),
{
    if b.len() == 0 {
        assert(a + b =~= a);
        assert(utf16(a) + utf16(b) =~= utf16(a));
    } else {
        utf16_texts_join(a, b.drop_last());
        assert((a + b).drop_last() =~= a + b.drop_last());
        assert((a + b).last() == b.last());
        assert(utf16(a + b) =~= utf16(a) + utf16(b));
    }
}

/// A mode's capabilities are those it has, no more and no less.
pub proof fn capabilities_are_those_it_has(m: ModeInfo)
    ensures
        capabilities(m).contains("speed"@) <==> m.has_speed,
        capabilities(m).contains("brightness"@) <==> m.has_brightness,
        capabilities(m).contains("direction"@) <==> m.has_direction,
        capabilities(m).contains("color"@) <==> m.takes_color,
        capabilities(m).contains("save"@) <==> m.can_save,
{
    reveal_strlit("speed");
    reveal_strlit("brightness");
    reveal_strlit("direction");
    reveal_strlit("color");
    reveal_strlit("save");
    let c = capabilities(m);
    let a0 = "speed"@;
    let a1 = "brightness"@;
    let a2 = "direction"@;
    let a3 = "color"@;
    let a4 = "save"@;
    assert(a0[0] == 's' && a1[0] == 'b' && a2[0] == 'd' && a3[0] == 'c' && a4[0] == 's');
    assert(a0.len() == 5 && a4.len() == 4);
    let n0: int = if m.has_speed { 1 } else { 0 };
    let n1: int = n0 + if m.has_brightness { 1int } else { 0 };
    let n2: int = n1 + if m.has_direction { 1int } else { 0 };
    let n3: int = n2 + if m.takes_color { 1int } else { 0 };
    if m.has_speed {
        assert(c[0] == a0);
    }
    if m.has_brightness {
        assert(c[n0] == a1);
    }
    if m.has_direction {
        assert(c[n1] == a2);
    }
    if m.takes_color {
        assert(c[n2] == a3);
    }
    if m.can_save {
        assert(c[n3] == a4);
    }
}

/// The listing names everything: an entry holds the device's own name and kind,
/// every zone's line, every LED's name and every mode's line.
pub proof fn listings_name_everything(d: DeviceDescriptor)
    ensures
        contains_text(device_entry(d), d.name@),
        contains_text(device_entry(d), d.kind.name()),
        contains_text(device_entry(d), decimal(d.index as nat)),
        contains_text(device_entry(d), zone_lines(d.zones@)),
        contains_text(device_entry(d), led_list(d.leds@)),
        contains_text(device_entry(d), mode_lines(d.modes@)),
{
    let p0 = "\n["@;
    let p1 = p0 + decimal(d.index as nat);
    let p2 = p1 + "] "@;
    let p3 = p2 + d.name@;
    let p4 = p3 + "  ("@;
    let p5 = p4 + d.kind.name();
    let p6 = p5 + ")\n"@;
    let p7 = p6 + maker_line(d);
    let p8 = p7 + "    zones ("@;
    let p9 = p8 + decimal(d.zones@.len());
    let p10 = p9 + "):\n"@;
    let p11 = p10 + zone_lines(d.zones@);
    let p12 = p11 + "    LEDs ("@;
    let p13 = p12 + decimal(d.leds@.len());
    let p14 = p13 + "): "@;
    let p15 = p14 + led_list(d.leds@);
    let p16 = p15 + "\n    modes ("@;
    let p17 = p16 + decimal(d.modes@.len());
    let p18 = p17 + "):\n"@;
    let p19 = p18 + mode_lines(d.modes@);
    assert(device_entry(d) == p19);
    stands_at_the_end(p0, decimal(d.index as nat));
    contained_in_a_longer_text(p1, decimal(d.index as nat), "] "@);
    contained_in_a_longer_text(p2, decimal(d.index as nat), d.name@);
    contained_in_a_longer_text(p3, decimal(d.index as nat), "  ("@);
    contained_in_a_longer_text(p4, decimal(d.index as nat), d.kind.name());
    contained_in_a_longer_text(p5, decimal(d.index as nat), ")\n"@);
    contained_in_a_longer_text(p6, decimal(d.index as nat), maker_line(d));
    contained_in_a_longer_text(p7, decimal(d.index as nat), "    zones ("@);
    contained_in_a_longer_text(p8, decimal(d.index as nat), decimal(d.zones@.len()));
    contained_in_a_longer_text(p9, decimal(d.index as nat), "):\n"@);
    contained_in_a_longer_text(p10, decimal(d.index as nat), zone_lines(d.zones@));
    contained_in_a_longer_text(p11, decimal(d.index as nat), "    LEDs ("@);
    contained_in_a_longer_text(p12, decimal(d.index as nat), decimal(d.leds@.len()));
    contained_in_a_longer_text(p13, decimal(d.index as nat), "): "@);
    contained_in_a_longer_text(p14, decimal(d.index as nat), led_list(d.leds@));
    contained_in_a_longer_text(p15, decimal(d.index as nat), "\n    modes ("@);
    contained_in_a_longer_text(p16, decimal(d.index as nat), decimal(d.modes@.len()));
    contained_in_a_longer_text(p17, decimal(d.index as nat), "):\n"@);
    contained_in_a_longer_text(p18, decimal(d.index as nat), mode_lines(d.modes@));
    stands_at_the_end(p2, d.name@);
    contained_in_a_longer_text(p3, d.name@, "  ("@);
    contained_in_a_longer_text(p4, d.name@, d.kind.name());
    contained_in_a_longer_text(p5, d.name@, ")\n"@);
    contained_in_a_longer_text(p6, d.name@, maker_line(d));
    contained_in_a_longer_text(p7, d.name@, "    zones ("@);
    contained_in_a_longer_text(p8, d.name@, decimal(d.zones@.len()));
    contained_in_a_longer_text(p9, d.name@, "):\n"@);
    contained_in_a_longer_text(p10, d.name@, zone_lines(d.zones@));
    contained_in_a_longer_text(p11, d.name@, "    LEDs ("@);
    contained_in_a_longer_text(p12, d.name@, decimal(d.leds@.len()));
    contained_in_a_longer_text(p13, d.name@, "): "@);
    contained_in_a_longer_text(p14, d.name@, led_list(d.leds@));
    contained_in_a_longer_text(p15, d.name@, "\n    modes ("@);
    contained_in_a_longer_text(p16, d.name@, decimal(d.modes@.len()));
    contained_in_a_longer_text(p17, d.name@, "):\n"@);
    contained_in_a_longer_text(p18, d.name@, mode_lines(d.modes@));
    stands_at_the_end(p4, d.kind.name());
    contained_in_a_longer_text(p5, d.kind.name(), ")\n"@);
    contained_in_a_longer_text(p6, d.kind.name(), maker_line(d));
    contained_in_a_longer_text(p7, d.kind.name(), "    zones ("@);
    contained_in_a_longer_text(p8, d.kind.name(), decimal(d.zones@.len()));
    contained_in_a_longer_text(p9, d.kind.name(), "):\n"@);
    contained_in_a_longer_text(p10, d.kind.name(), zone_lines(d.zones@));
    contained_in_a_longer_text(p11, d.kind.name(), "    LEDs ("@);
    contained_in_a_longer_text(p12, d.kind.name(), decimal(d.leds@.len()));
    contained_in_a_longer_text(p13, d.kind.name(), "): "@);
    contained_in_a_longer_text(p14, d.kind.name(), led_list(d.leds@));
    contained_in_a_longer_text(p15, d.kind.name(), "\n    modes ("@);
    contained_in_a_longer_text(p16, d.kind.name(), decimal(d.modes@.len()));
    contained_in_a_longer_text(p17, d.kind.name(), "):\n"@);
    contained_in_a_longer_text(p18, d.kind.name(), mode_lines(d.modes@));
    stands_at_the_end(p10, zone_lines(d.zones@));
    contained_in_a_longer_text(p11, zone_lines(d.zones@), "    LEDs ("@);
    contained_in_a_longer_text(p12, zone_lines(d.zones@), decimal(d.leds@.len()));
    contained_in_a_longer_text(p13, zone_lines(d.zones@), "): "@);
    contained_in_a_longer_text(p14, zone_lines(d.zones@), led_list(d.leds@));
    contained_in_a_longer_text(p15, zone_lines(d.zones@), "\n    modes ("@);
    contained_in_a_longer_text(p16, zone_lines(d.zones@), decimal(d.modes@.len()));
    contained_in_a_longer_text(p17, zone_lines(d.zones@), "):\n"@);
    contained_in_a_longer_text(p18, zone_lines(d.zones@), mode_lines(d.modes@));
    stands_at_the_end(p14, led_list(d.leds@));
    contained_in_a_longer_text(p15, led_list(d.leds@), "\n    modes ("@);
    contained_in_a_longer_text(p16, led_list(d.leds@), decimal(d.modes@.len()));
    contained_in_a_longer_text(p17, led_list(d.leds@), "):\n"@);
    contained_in_a_longer_text(p18, led_list(d.leds@), mode_lines(d.modes@));
    stands_at_the_end(p18, mode_lines(d.modes@));
}

proof fn stands_at_the_end(head: Seq<char>, part: Seq<char>)
    ensures
        contains_text(head + part, part),
{
    let none = Seq::<char>::empty();
    assert(head + part =~= head + part + none);
    joined_texts_contain_their_parts(head, part, none);
}

/// Every LED's name stands in the list of LEDs, and every zone's and mode's own
/// line among the lines.
pub proof fn lists_hold_every_entry(
    leds: Seq<LedInfo>,
    zones: Seq<ZoneInfo>,
    modes: Seq<ModeInfo>,
    i: int,
)
    ensures
        0 <= i < leds.len() ==> contains_text(led_list(leds), leds[i].name@),
        0 <= i < zones.len() ==> contains_text(zone_lines(zones), zone_line(zones[i])),
        0 <= i < modes.len() ==> contains_text(mode_lines(modes), mode_line(modes[i])),
    decreases leds.len() + zones.len() + modes.len(),
{
    let none = Seq::<char>::empty();
    let no_leds = Seq::<LedInfo>::empty();
    let no_zones = Seq::<ZoneInfo>::empty();
    let no_modes = Seq::<ModeInfo>::empty();
    if 0 <= i < leds.len() {
        let name = leds[i].name@;
        if leds.len() == 1 {
            assert(led_list(leds) =~= none + name + none);
            joined_texts_contain_their_parts(none, name, none);
        } else {
            let head = led_list(leds.drop_last());
            if i == leds.len() - 1 {
                assert(led_list(leds) =~= (head + ", "@) + name + none);
                joined_texts_contain_their_parts(head + ", "@, name, none);
            } else {
                lists_hold_every_entry(leds.drop_last(), no_zones, no_modes, i);
                let more = ", "@ + leds.last().name@;
                assert(led_list(leds) =~= head + more);
                contained_in_a_longer_text(head, name, more);
            }
        }
    }
    if 0 <= i < zones.len() {
        let head = zone_lines(zones.drop_last());
        let line = zone_line(zones[i]);
        if i == zones.len() - 1 {
            assert(zone_lines(zones) =~= head + line + none);
            joined_texts_contain_their_parts(head, line, none);
        } else {
            lists_hold_every_entry(no_leds, zones.drop_last(), no_modes, i);
            contained_in_a_longer_text(head, line, zone_line(zones.last()));
        }
    }
    if 0 <= i < modes.len() {
        let head = mode_lines(modes.drop_last());
        let line = mode_line(modes[i]);
        if i == modes.len() - 1 {
            assert(mode_lines(modes) =~= head + line + none);
            joined_texts_contain_their_parts(head, line, none);
        } else {
            lists_hold_every_entry(no_leds, no_zones, modes.drop_last(), i);
            contained_in_a_longer_text(head, line, mode_line(modes.last()));
        }
    }
}

/// A zone's line holds its name, its kind and its LED count, and a mode's line its
/// name.
pub proof fn lines_name_their_subject(z: ZoneInfo, m: ModeInfo)
    ensures
        contains_text(zone_line(z), z.name@),
        contains_text(zone_line(z), z.kind.name()),
        contains_text(zone_line(z), decimal(z.leds_count as nat)),
        contains_text(mode_line(m), m.name@),
{
    let n = decimal(z.leds_count as nat);
    let e2 = " LEDs"@ + matrix_note(z) + "\n"@;
    let e1 = "] "@ + n + e2;
    let e0 = " ["@ + z.kind.name() + e1;
    let h0 = "      - "@;
    let h1 = h0 + z.name@ + " ["@;
    let h2 = h1 + z.kind.name() + "] "@;
    assert(zone_line(z) =~= h0 + z.name@ + e0);
    joined_texts_contain_their_parts(h0, z.name@, e0);
    assert(zone_line(z) =~= h1 + z.kind.name() + e1);
    joined_texts_contain_their_parts(h1, z.kind.name(), e1);
    assert(zone_line(z) =~= h2 + n + e2);
    joined_texts_contain_their_parts(h2, n, e2);
    let e = " ["@ + joined(capabilities(m), ","@) + "]\n"@;
    assert(mode_line(m) =~= h0 + m.name@ + e);
    joined_texts_contain_their_parts(h0, m.name@, e);
}

/// Each verb has a word of its own.
pub proof fn verbs_are_told_apart(a: Verb, b: Verb)
    ensures
        verb_text(a) == verb_text(b) ==> a == b,
        verb_text(Verb::Run) == "run"@ && verb_text(Verb::Console) == "console"@ && verb_text(
            Verb::Install,
        ) == "install"@ && verb_text(Verb::Uninstall) == "uninstall"@ && verb_text(Verb::List)
            == "list"@,
{
    reveal_strlit("run");
    reveal_strlit("console");
    reveal_strlit("install");
    reveal_strlit("uninstall");
    reveal_strlit("list");
    if verb_text(a) == verb_text(b) {
        assert(verb_text(a)[0] == verb_text(b)[0]);
    }
}

/// A matrix is noted by its height and then its width, and the maker where the
/// device names one or is described.
pub proof fn notes_say_what_there_is(z: ZoneInfo, d: DeviceDescriptor)
    ensures
        z.matrix is None ==> matrix_note(z).len() == 0,
        z.matrix matches Some(m) ==> {
            let h = decimal(m.height as nat);
            let w = decimal(m.width as nat);
            &&& matrix_note(z).len() == 9 + h.len() + w.len()
            &&& occurs_at(matrix_note(z), h, 8)
            &&& occurs_at(matrix_note(z), w, (9 + h.len()) as int)
        },
        maker_line(d).len() == 0 <==> d.vendor@.len() == 0 && d.description@.len() == 0,
        maker_line(d).len() > 0 ==> contains_text(maker_line(d), d.vendor@) && contains_text(
            maker_line(d),
            d.description@,
        ),
{
    reveal_strlit(" matrix ");
    reveal_strlit("x");
    reveal_strlit("    ");
    if let Some(m) = z.matrix {
        let h = decimal(m.height as nat);
        let w = decimal(m.width as nat);
        let t = matrix_note(z);
        assert(t.subrange(8, (8 + h.len()) as int) =~= h);
        assert(t.subrange((9 + h.len()) as int, (9 + h.len() + w.len()) as int) =~= w);
    }
    if maker_line(d).len() > 0 {
        let front = "    "@ + d.vendor@ + " — "@;
        joined_texts_contain_their_parts(front, d.description@, "\n"@);
        assert(maker_line(d) =~= "    "@ + d.vendor@ + (" — "@ + d.description@ + "\n"@));
        joined_texts_contain_their_parts("    "@, d.vendor@, " — "@ + d.description@ + "\n"@);
    }
}

/// What came of a save is passed on as it is, and an engine that is gone is an
/// error.
pub proof fn saves_are_answered(result: Option<Result<bool, String>>, r: ServerMsg)
    requires
        call_ensures(save_answer, (result,), r),
    ensures
        r matches ServerMsg::SaveResult(s) && {
            &&& result matches Some(t) ==> s == t
            &&& result is None ==> s is Err
        },
{
}

/// A listing starts with the number of controllers and says where they are.
pub proof fn listings_say_how_many_and_where(count: usize, addr: &str, r: String)
    requires
        call_ensures(listing_head, (count, addr), r),
    ensures
        occurs_at(r@, decimal(count as nat), 0),
        contains_text(r@, addr@),
{
    let n = decimal(count as nat);
    assert(r@.subrange(0, n.len() as int) =~= n);
    joined_texts_contain_their_parts(n + " controller(s) on "@, addr@, "\n"@);
}

} // verus!
