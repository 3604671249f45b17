//! The control screen: what it remembers, what it decides and what it says.
//! Drawing is someone else's business.

pub mod case;
pub mod editor;
pub mod labels;
pub mod setup;
pub mod zones;

use vstd::prelude::*;

use crate::effects::listed;
use crate::effects::{Fx, ZoneSource};
use crate::engine::{DeviceMode as EngDeviceMode, EngineState, HwSpec};
use crate::host::HostEvent;
use crate::library::EffectLibrary;
use crate::model::DeviceDescriptor;
use crate::number::Single;
use crate::rgb::Rgb;
use crate::screen::editor::EditorState;
use crate::screen::labels::Link;
use crate::screen::setup::{
    capture_devices, captured, master_of, restored, rgb_of, source_of, sources_carry_the_zone,
    DeviceMode, DtSetup, Kind, LightingSetup, ZoneUi,
};
use crate::screen::zones::{all_differ, no_repeats, without_repeats};

verus! {

/// How the connection stands.
#[derive(Debug)]
pub enum Conn {
    Connecting,
    Ready(Vec<DeviceDescriptor>),
    Failed(String),
}

/// Severity of a notice.
#[derive(Clone, Copy, Debug, PartialEq, Eq, Structural)]
pub enum Notice {
    Info,
    Success,
    Error,
}

/// Everything the screen remembers.
#[derive(Debug)]
pub struct Screen {
    pub conn: Conn,
    /// The selected device's number, or the device count for the tower case.
    pub selected: usize,
    /// Per-device settings, parallel to the device list.
    pub zones: Vec<Vec<ZoneUi>>,
    pub dev_mode: Vec<DeviceMode>,
    /// Keys of the effects that spread; no key twice.
    pub spread: Vec<String>,
    /// Master brightness in percent.
    pub master: u32,
    pub hold: bool,
    pub battery_saver: bool,
    pub on_battery: bool,
    /// Whether the case can be reached, and the last failure.
    pub dt_available: bool,
    pub dt_error: Option<String>,
    /// The case's settings; absent, the case is left alone.
    pub dt: Option<DtSetup>,
    /// Whether something changed that the engine has not seen.
    pub dirty: bool,
    pub library: EffectLibrary,
    pub editor: Option<EditorState>,
    pub inspector_open: bool,
    pub notice: Option<(Notice, String)>,
}

impl Conn {
    /// How many devices are connected; none while there is no connection.
    pub open spec fn devices(self) -> Option<nat> {
        match self {
            Conn::Ready(cs) => Some(cs@.len()),
            _ => None,
        }
    }

    /// How the connection stands, in a word.
    pub fn link(&self) -> (r: Link)
        ensures
            r == (match *self {
                Conn::Connecting => Link::Connecting,
                Conn::Ready(_) => Link::Ready,
                Conn::Failed(_) => Link::Failed,
            }),
    {
        match self {
            Conn::Connecting => Link::Connecting,
            Conn::Ready(_) => Link::Ready,
            Conn::Failed(_) => Link::Failed,
        }
    }
}

/// How many devices are listed.
pub open spec fn listed_devices(conn: Conn) -> nat {
    match conn.devices() {
        Some(n) => n,
        None => 0,
    }
}

/// Whether the tower case is offered: the case can be reached, or there is
/// nothing else to show.
pub open spec fn offers_case(conn: Conn, dt_available: bool) -> bool {
    conn.devices() matches Some(n) && (dt_available || n == 0)
}

/// A zone's speed and brightness as the renderer computed them.
#[derive(Clone, Copy, Debug, PartialEq, Eq, Structural)]
pub struct Rates {
    pub speed: Single,
    pub brightness: Single,
}

/// What the engine is given for a device.
pub open spec fn resolves(
    mode: DeviceMode,
    zones: Seq<ZoneUi>,
    rates: Seq<Rates>,
    library: EffectLibrary,
    r: EngDeviceMode,
) -> bool {
    match mode {
        DeviceMode::Hardware(h) => r matches EngDeviceMode::Hardware(s) && {
            &&& s.mode@ == h.mode@
            &&& s.color == rgb_of(h.color)
            &&& s.speed == h.speed
            &&& s.brightness == h.brightness
        },
        DeviceMode::PerZone => r matches EngDeviceMode::PerZone(s) && {
            &&& s@.len() == zones.len()
            &&& forall|i: int|
                0 <= i < s@.len() ==> source_of(
                    zones[i],
                    library.effects@,
                    rates[i].speed,
                    rates[i].brightness,
                    #[trigger] s@[i],
                )
        },
    }
}

/// What the engine is given for the case.
pub open spec fn resolves_case(dt: Option<DtSetup>, r: Option<crate::dt::DtState>) -> bool {
    match (dt, r) {
        (None, None) => true,
        (Some(s), Some(d)) => {
            &&& d.color == rgb_of(s.color)
            &&& d.on == s.on
            &&& d.effect == s.effect
            &&& d.speed == s.speed
            &&& d.areas@ == s.areas@
        },
        _ => false,
    }
}

fn sources_of(zones: &Vec<ZoneUi>, rates: &Vec<Rates>, library: &EffectLibrary) -> (r: Vec<ZoneSource>)
    requires
        rates@.len() == zones@.len(),
    ensures
        r@.len() == zones@.len(),
        forall|i: int|
            0 <= i < r@.len() ==> source_of(
                zones@[i],
                library.effects@,
                rates@[i].speed,
                rates@[i].brightness,
                #[trigger] r@[i],
            ),
{
    let mut out: Vec<ZoneSource> = Vec::new();
    let mut i: usize = 0;
    while i < zones.len()
        invariant
            i <= zones@.len(),
            rates@.len() == zones@.len(),
            out@.len() == i,
            forall|k: int|
                0 <= k < i ==> source_of(
                    zones@[k],
                    library.effects@,
                    rates@[k].speed,
                    rates@[k].brightness,
                    #[trigger] out@[k],
                ),
        decreases zones@.len() - i,
    {
        out.push(zones[i].to_source(library, rates[i].speed, rates[i].brightness));
        i += 1;
    }
    out
}

fn copy_texts(v: &Vec<String>) -> (r: Vec<String>)
    ensures
        r@ == v@,
{
    let mut out: Vec<String> = Vec::new();
    let mut i: usize = 0;
    while i < v.len()
        invariant
            i <= v@.len(),
            out@ == v@.take(i as int),
        decreases v@.len() - i,
    {
        out.push(v[i].clone());
        assert(out@ =~= v@.take(i + 1));
        i += 1;
    }
    assert(v@.take(i as int) =~= v@);
    out
}

/// Whether some zone's look changes over time.
pub open spec fn moves(zones: Seq<ZoneUi>) -> bool {
    exists|j: int| 0 <= j < zones.len() && !((#[trigger] zones[j]).kind is Solid)
}

fn any_moving(zones: &Vec<ZoneUi>) -> (r: bool)
    ensures
        r == moves(zones@),
{
    let mut j: usize = 0;
    while j < zones.len()
        invariant
            j <= zones@.len(),
            forall|k: int| 0 <= k < j ==> (#[trigger] zones@[k]).kind is Solid,
        decreases zones@.len() - j,
    {
        if !matches!(zones[j].kind, Kind::Solid) {
            return true;
        }
        j += 1;
    }
    false
}

/// The screen once its selection has settled: the last device where the case
/// was selected and is no longer offered.
pub open spec fn settled(s: Screen) -> Screen {
    Screen {
        selected: if !offers_case(s.conn, s.dt_available) && listed_devices(s.conn) > 0
            && s.selected >= listed_devices(s.conn) {
            (listed_devices(s.conn) - 1) as usize
        } else {
            s.selected
        },
        ..s
    }
}

/// What a save came to, for the user.
pub open spec fn save_notice(res: Result<bool, String>) -> (Notice, Seq<char>) {
    match res {
        Ok(saved) => if saved {
            (Notice::Success, "Saved to device — survives reboot."@)
        } else {
            (Notice::Info, "This effect can't be saved to firmware."@)
        },
        Err(e) => (Notice::Error, "Save failed: "@ + e@),
    }
}

/// What a save came to, for the user.
pub fn describe_save(res: &Result<bool, String>) -> (r: (Notice, String))
    ensures
        (r.0, r.1@) == save_notice(*res),
{
    match res {
        Ok(saved) => {
            if *saved {
                (Notice::Success, "Saved to device — survives reboot.".to_string())
            } else {
                (Notice::Info, "This effect can't be saved to firmware.".to_string())
            }
        },
        Err(e) => {
            let mut out = String::new();
            out.append("Save failed: ");
            out.append(e.as_str());
            assert(out@ =~= "Save failed: "@ + e@);
            (Notice::Error, out)
        },
    }
}

impl Screen {
    /// Well-formedness: the per-device settings are parallel to the device list,
    /// and no effect is listed twice as spread.
    pub open spec fn wf(self) -> bool {
        &&& self.zones@.len() == self.dev_mode@.len()
        &&& self.conn.devices() matches Some(n) ==> self.zones@.len() == n
        &&& no_repeats(self.spread@)
    }

    /// Whether the screen is well-formed.
    pub fn is_sound(&self) -> (r: bool)
        ensures
            r == self.wf(),
    {
        let parallel = match &self.conn {
            Conn::Ready(cs) => self.zones.len() == cs.len(),
            _ => true,
        };
        self.zones.len() == self.dev_mode.len() && parallel && all_differ(&self.spread)
    }

    /// The screen at the start, from what was kept.
    pub fn new(setup: LightingSetup, library: EffectLibrary) -> (r: Self)
        ensures
            r.wf(),
            r.conn == Conn::Connecting,
            r.selected == 0,
            r.zones@.len() == 0,
            forall|t: Seq<char>| #[trigger] listed(r.spread@, t) == listed(setup.spread@, t),
            r.master == (if setup.master == 0 || setup.master > 100 {
                100
            } else {
                setup.master
            }),
            r.hold == setup.hold,
            r.battery_saver == setup.battery_saver,
            !r.on_battery,
            !r.dt_available,
            r.dt_error is None,
            r.dt == setup.dt,
            !r.dirty,
            r.library == library,
            r.editor is None,
            !r.inspector_open,
            r.notice is None,
    {
        Screen {
            conn: Conn::Connecting,
            selected: 0,
            zones: Vec::new(),
            dev_mode: Vec::new(),
            spread: without_repeats(&setup.spread),
            master: master_of(setup.master),
            hold: setup.hold,
            battery_saver: setup.battery_saver,
            on_battery: false,
            dt_available: false,
            dt_error: None,
            dt: setup.dt,
            dirty: false,
            library,
            editor: None,
            inspector_open: false,
            notice: None,
        }
    }

    /// How many devices are listed.
    pub fn device_count(&self) -> (r: usize)
        ensures
            r == listed_devices(self.conn),
    {
        match &self.conn {
            Conn::Ready(cs) => cs.len(),
            _ => 0,
        }
    }

    /// Whether the tower case is offered.
    pub fn case_offered(&self) -> (r: bool)
        ensures
            r == offers_case(self.conn, self.dt_available),
    {
        match &self.conn {
            Conn::Ready(cs) => self.dt_available || cs.len() == 0,
            _ => false,
        }
    }

    /// The number under which the tower case is selected.
    pub fn case_index(&self) -> (r: usize)
        ensures
            r == listed_devices(self.conn),
    {
        self.device_count()
    }

    /// Whether the tower case is selected.
    pub open spec fn shows_case(self) -> bool {
        offers_case(self.conn, self.dt_available) && self.selected >= listed_devices(self.conn)
    }

    /// Whether the tower case is selected.
    pub fn case_selected(&self) -> (r: bool)
        ensures
            r == self.shows_case(),
    {
        self.case_offered() && self.selected >= self.case_index()
    }

    /// Falls back to the last device where the case was selected and is no longer
    /// offered.
    pub fn settle_selection(&mut self)
        ensures
            *final(self) == settled(*old(self)),
    {
        let n: usize = self.device_count();
        if !self.case_offered() && n > 0 && self.selected >= n {
            self.selected = n - 1;
        }
    }

    /// Shows a notice.
    pub fn notify(&mut self, kind: Notice, text: String)
        ensures
            *final(self) == (Screen { notice: Some((kind, text)), ..*old(self) }),
    {
        self.notice = Some((kind, text));
    }

    /// Takes in a host event. Says whether the host is to be created again: that
    /// is how a dropped service fails over.
    pub fn on_event(&mut self, ev: HostEvent, via_service: bool, setup: &LightingSetup) -> (r: bool)
        requires
            old(self).wf(),
        ensures
            final(self).wf(),
            r == (ev is Disconnected && via_service),
            match ev {
                HostEvent::Connected(cs) => {
                    &&& final(self).conn == Conn::Ready(cs)
                    &&& final(self).dev_mode@.len() == cs@.len()
                    &&& forall|i: int|
                        0 <= i < cs@.len() ==> restored(
                            setup.devices@,
                            #[trigger] cs@[i],
                            final(self).dev_mode@[i],
                            final(self).zones@[i]@,
                        )
                    &&& final(self).selected == ({
                        let max = if old(self).dt_available || cs@.len() == 0 {
                            cs@.len() as int
                        } else {
                            cs@.len() - 1
                        };
                        if old(self).selected > max {
                            max
                        } else {
                            old(self).selected as int
                        }
                    })
                    &&& *final(self) == (Screen {
                        conn: final(self).conn,
                        dev_mode: final(self).dev_mode,
                        zones: final(self).zones,
                        selected: final(self).selected,
                        dirty: true,
                        ..*old(self)
                    })
                },
                HostEvent::Disconnected(e) => *final(self) == (if via_service {
                    Screen { conn: Conn::Connecting, dirty: true, ..*old(self) }
                } else {
                    Screen { conn: Conn::Failed(e), ..*old(self) }
                }),
                HostEvent::OnBattery(b) => *final(self) == (Screen { on_battery: b, ..*old(self) }),
                HostEvent::DtStatus { available, error } => *final(self) == (Screen {
                    dt_available: available,
                    dt_error: error,
                    ..*old(self)
                }),
                HostEvent::SaveResult(res) => {
                    &&& final(self).notice matches Some((kind, text)) && (kind, text@)
                        == save_notice(res)
                    &&& *final(self) == (Screen { notice: final(self).notice, ..*old(self) })
                },
            },
    {
        match ev {
            HostEvent::Connected(cs) => {
                let (modes, zones) = setup.rebuild_devices(&cs);
                let n: usize = cs.len();
                self.dev_mode = modes;
                self.zones = zones;
                self.conn = Conn::Ready(cs);
                let max: usize = if self.dt_available || n == 0 {
                    n
                } else {
                    n - 1
                };
                if self.selected > max {
                    self.selected = max;
                }
                self.dirty = true;
                false
            },
            HostEvent::Disconnected(e) => {
                if via_service {
                    self.conn = Conn::Connecting;
                    self.dirty = true;
                    true
                } else {
                    self.conn = Conn::Failed(e);
                    false
                }
            },
            HostEvent::OnBattery(b) => {
                self.on_battery = b;
                false
            },
            HostEvent::DtStatus { available, error } => {
                self.dt_available = available;
                self.dt_error = error;
                false
            },
            HostEvent::SaveResult(res) => {
                let (kind, text) = describe_save(&res);
                self.notify(kind, text);
                false
            },
        }
    }

    /// Starts over with a fresh host.
    pub fn reconnect(&mut self)
        requires
            old(self).wf(),
        ensures
            *final(self) == (Screen { conn: Conn::Connecting, dirty: true, ..*old(self) }),
            final(self).wf(),
    {
        self.conn = Conn::Connecting;
        self.dirty = true;
    }

    /// Whether a fresh state is due to the engine: something changed, and there
    /// is a connection. Either way the change counts as seen.
    pub fn take_update(&mut self) -> (r: bool)
        ensures
            r == (old(self).dirty && old(self).conn is Ready),
            *final(self) == (Screen { dirty: false, ..*old(self) }),
    {
        let due = self.dirty && matches!(self.conn, Conn::Ready(_));
        self.dirty = false;
        due
    }

    /// The resolved state for the engine. `rates` holds every zone's speed over
    /// five and brightness over a hundred, and `master` the master brightness
    /// over a hundred, as the renderer computed them.
    pub fn engine_state(&self, rates: &Vec<Vec<Rates>>, master: Single) -> (r: EngineState)
        requires
            self.wf(),
            rates@.len() == self.zones@.len(),
            forall|i: int|
                0 <= i < rates@.len() ==> (#[trigger] rates@[i])@.len() == self.zones@[i]@.len(),
        ensures
            r.devices@.len() == self.dev_mode@.len(),
            forall|i: int|
                0 <= i < r.devices@.len() ==> resolves(
                    self.dev_mode@[i],
                    self.zones@[i]@,
                    rates@[i]@,
                    self.library,
                    #[trigger] r.devices@[i],
                ),
            r.master == master,
            r.spread@ == self.spread@,
            r.hold == self.hold,
            r.battery_saver == self.battery_saver,
            resolves_case(self.dt, r.dt),
    {
        let mut devices: Vec<EngDeviceMode> = Vec::new();
        let mut i: usize = 0;
        while i < self.dev_mode.len()
            invariant
                i <= self.dev_mode@.len(),
                self.wf(),
                rates@.len() == self.zones@.len(),
                forall|k: int|
                    0 <= k < rates@.len() ==> (#[trigger] rates@[k])@.len()
                        == self.zones@[k]@.len(),
                devices@.len() == i,
                forall|k: int|
                    0 <= k < i ==> resolves(
                        self.dev_mode@[k],
                        self.zones@[k]@,
                        rates@[k]@,
                        self.library,
                        #[trigger] devices@[k],
                    ),
            decreases self.dev_mode@.len() - i,
        {
            assert(rates@[i as int]@.len() == self.zones@[i as int]@.len());
            let mode = match &self.dev_mode[i] {
                DeviceMode::Hardware(h) => EngDeviceMode::Hardware(h.to_spec()),
                DeviceMode::PerZone => EngDeviceMode::PerZone(
                    sources_of(&self.zones[i], &rates[i], &self.library),
                ),
            };
            devices.push(mode);
            i += 1;
        }
        EngineState {
            devices,
            master,
            spread: copy_texts(&self.spread),
            hold: self.hold,
            battery_saver: self.battery_saver,
            dt: match &self.dt {
                Some(d) => Some(d.to_state()),
                None => None,
            },
        }
    }

    /// Everything that is kept; nothing while there is no connection, so that a
    /// missing device does not wipe its settings.
    pub fn capture(&self) -> (r: Option<LightingSetup>)
        requires
            self.wf(),
        ensures
            match r {
                Some(s) => {
                    &&& self.conn matches Conn::Ready(cs) && captured(
                        s.devices@,
                        cs@,
                        self.dev_mode@,
                        self.zones@,
                    )
                    &&& s.master == self.master
                    &&& s.spread@ == self.spread@
                    &&& s.hold == self.hold
                    &&& s.battery_saver == self.battery_saver
                    &&& match (s.dt, self.dt) {
                        (None, None) => true,
                        (Some(a), Some(b)) => a.same_as(b),
                        _ => false,
                    }
                },
                None => !(self.conn is Ready),
            },
    {
        match &self.conn {
            Conn::Ready(cs) => Some(
                LightingSetup {
                    master: self.master,
                    spread: copy_texts(&self.spread),
                    hold: self.hold,
                    battery_saver: self.battery_saver,
                    devices: capture_devices(cs, &self.dev_mode, &self.zones),
                    dt: match &self.dt {
                        Some(d) => Some(d.clone()),
                        None => None,
                    },
                },
            ),
            _ => None,
        }
    }

    /// Whether the selected device's preview moves.
    pub fn selected_animating(&self) -> (r: bool)
        requires
            self.wf(),
        ensures
            r == (!self.shows_case() && self.conn is Ready && self.selected < self.dev_mode@.len()
                && self.dev_mode@[self.selected as int] is PerZone && moves(
                self.zones@[self.selected as int]@,
            )),
    {
        if self.case_selected() || self.selected >= self.dev_mode.len() {
            return false;
        }
        match (&self.conn, &self.dev_mode[self.selected]) {
            (Conn::Ready(_), DeviceMode::PerZone) => any_moving(&self.zones[self.selected]),
            _ => false,
        }
    }

    /// Asks for the selected device's firmware effect to be kept in its flash:
    /// the device and the effect to save. Nothing where the device runs none.
    pub fn request_save(&mut self) -> (r: Option<(usize, HwSpec)>)
        requires
            old(self).wf(),
        ensures
            match r {
                Some((device, spec)) => {
                    &&& device == old(self).selected
                    &&& device < old(self).dev_mode@.len()
                    &&& old(self).dev_mode@[device as int] matches DeviceMode::Hardware(h) && {
                        &&& spec.mode@ == h.mode@
                        &&& spec.color == rgb_of(h.color)
                        &&& spec.speed == h.speed
                        &&& spec.brightness == h.brightness
                    }
                    &&& final(self).notice matches Some((kind, text)) && kind == Notice::Info
                        && text@ == "Saving to device…"@
                    &&& *final(self) == (Screen { notice: final(self).notice, ..*old(self) })
                },
                None => {
                    &&& old(self).selected < old(self).dev_mode@.len() ==> old(
                        self,
                    ).dev_mode@[old(self).selected as int] is PerZone
                    &&& *final(self) == *old(self)
                },
            },
    {
        if self.selected >= self.dev_mode.len() {
            return None;
        }
        let spec = match &self.dev_mode[self.selected] {
            DeviceMode::Hardware(h) => h.to_spec(),
            DeviceMode::PerZone => return None,
        };
        self.notify(Notice::Info, "Saving to device…".to_string());
        Some((self.selected, spec))
    }
}

/// The selection always shows something: on a connected screen, once the
/// selection has settled, either a device of the list or the case is selected.
pub proof fn settled_selections_show_something(s: Screen)
    requires
        s.conn is Ready,
    ensures
        settled(s).shows_case() || settled(s).selected < listed_devices(s.conn),
        settled(settled(s)) == settled(s),
{
}

/// The engine gets what the user set: a firmware effect with its own mode, three
/// color bytes, speed and brightness; otherwise one source a zone, each from its
/// own zone and its own rates.
pub proof fn devices_get_what_was_set(
    mode: DeviceMode,
    zones: Seq<ZoneUi>,
    rates: Seq<Rates>,
    library: EffectLibrary,
    r: EngDeviceMode,
    i: int,
)
    requires
        resolves(mode, zones, rates, library, r),
    ensures
        match mode {
            DeviceMode::Hardware(h) => r matches EngDeviceMode::Hardware(s) && {
                &&& s.mode@ == h.mode@
                &&& s.color.0 == h.color@[0] && s.color.1 == h.color@[1] && s.color.2 == h.color@[2]
                &&& s.speed == h.speed
                &&& s.brightness == h.brightness
            },
            DeviceMode::PerZone => r matches EngDeviceMode::PerZone(s) && {
                &&& s@.len() == zones.len()
                &&& 0 <= i < zones.len() ==> match zones[i].kind {
                    Kind::Solid => s@[i] == ZoneSource::Solid(
                        Rgb(zones[i].color@[0], zones[i].color@[1], zones[i].color@[2]),
                    ),
                    Kind::Program(e) => s@[i] matches ZoneSource::Function(Fx::Program(f), p) && {
                        &&& f == e
                        &&& p.color == Rgb(
                            zones[i].color@[0],
                            zones[i].color@[1],
                            zones[i].color@[2],
                        )
                        &&& p.speed == rates[i].speed
                        &&& p.brightness == rates[i].brightness
                    },
                    Kind::Custom(name) => s@[i] matches ZoneSource::Function(Fx::Custom(c), p)
                        ==> c.name@ == name@ && p.speed == rates[i].speed && p.brightness
                        == rates[i].brightness,
                }
            },
        },
{
    if let (DeviceMode::PerZone, EngDeviceMode::PerZone(s)) = (mode, r) {
        if 0 <= i < zones.len() {
            sources_carry_the_zone(
                zones[i],
                library.effects@,
                rates[i].speed,
                rates[i].brightness,
                s@[i],
            );
        }
    }
}

/// The case gets what was set, and is left alone exactly where it was never
/// turned on.
pub proof fn the_case_gets_what_was_set(dt: Option<DtSetup>, r: Option<crate::dt::DtState>)
    requires
        resolves_case(dt, r),
    ensures
        dt is Some <==> r is Some,
        dt matches Some(s) ==> (r matches Some(d) ==> {
            &&& d.color == Rgb(s.color@[0], s.color@[1], s.color@[2])
            &&& d.on == s.on
            &&& d.effect == s.effect
            &&& d.speed == s.speed
            &&& d.areas@ == s.areas@
        }),
{
}

/// Settling moves nothing but a selection that shows nothing: one on a listed
/// device or on an offered case stays. The case is offered on a connection where
/// it can be reached or nothing else is listed, and is selected past the list.
pub proof fn shown_selections_stay(s: Screen)
    ensures
        settled(s) == (Screen { selected: settled(s).selected, ..s }),
        s.conn matches Conn::Ready(cs) ==> {
            &&& s.selected < cs@.len() ==> settled(s).selected == s.selected
            &&& s.dt_available || cs@.len() == 0 ==> settled(s).selected == s.selected
            &&& !s.dt_available && cs@.len() > 0 && s.selected >= cs@.len() ==> settled(s).selected
                == cs@.len() - 1
            &&& s.shows_case() <==> (s.dt_available || cs@.len() == 0) && s.selected >= cs@.len()
            &&& listed_devices(s.conn) == cs@.len()
        },
        !(s.conn is Ready) ==> settled(s).selected == s.selected && !s.shows_case()
            && listed_devices(s.conn) == 0,
{
}

/// What a save came to is told apart: kept, not keepable, or failed with the
/// reason at the end.
pub proof fn saves_are_told_apart(res: Result<bool, String>)
    ensures
        res == Ok::<bool, String>(true) <==> save_notice(res).0 == Notice::Success,
        res == Ok::<bool, String>(false) <==> save_notice(res).0 == Notice::Info,
        res is Err <==> save_notice(res).0 == Notice::Error,
        res matches Err(e) ==> save_notice(res).1.len() >= e@.len() && save_notice(res).1.skip(
            save_notice(res).1.len() - e@.len(),
        ) == e@,
{
    if let Err(e) = res {
        let t = save_notice(res).1;
        assert(t.skip(t.len() - e@.len()) =~= e@);
    }
}

/// A page moves exactly where some zone runs an effect.
pub proof fn moving_pages_have_an_effect(zones: Seq<ZoneUi>, j: int)
    ensures
        0 <= j < zones.len() && zones[j].kind !is Solid ==> moves(zones),
        moves(zones) ==> exists|k: int|
            0 <= k < zones.len() && (#[trigger] zones[k]).kind !is Solid,
{
}

} // verus!
