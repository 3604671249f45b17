//! Where the engine runs, from the window's point of view: in this process, or
//! behind the service. Either way the window sees the same events.

use vstd::prelude::*;

use crate::engine::tracker::{elapsed, since, text_of};
use crate::engine::EngineEvent;
use crate::model::{describe_all, shows_all, DeviceDescriptor};
use crate::text::same;

verus! {

/// Events that the window sees, uniform across hosts.
#[derive(Debug)]
pub enum HostEvent {
    Connected(Vec<DeviceDescriptor>),
    Disconnected(String),
    OnBattery(bool),
    DtStatus { available: bool, error: Option<String> },
    SaveResult(Result<bool, String>),
}

/// What the window sees of an engine event.
pub open spec fn seen_as(ev: EngineEvent, h: HostEvent) -> bool {
    match ev {
        EngineEvent::Connected(cs) => h matches HostEvent::Connected(ds) && shows_all(cs@, ds@),
        EngineEvent::Disconnected(e) => h == HostEvent::Disconnected(e),
        EngineEvent::OnBattery(b) => h == HostEvent::OnBattery(b),
        EngineEvent::DtStatus { available, error } => h == (HostEvent::DtStatus {
            available,
            error,
        }),
    }
}

/// What the window sees of an engine event.
pub fn from_engine(ev: EngineEvent) -> (r: HostEvent)
    ensures
        seen_as(ev, r),
{
    match ev {
        EngineEvent::Connected(cs) => HostEvent::Connected(describe_all(&cs)),
        EngineEvent::Disconnected(e) => HostEvent::Disconnected(e),
        EngineEvent::OnBattery(b) => HostEvent::OnBattery(b),
        EngineEvent::DtStatus { available, error } => HostEvent::DtStatus { available, error },
    }
}

/// How often the service is asked for its status, in nanoseconds.
pub const POLL_INTERVAL: u64 = 400_000_000;

/// What a client of the service remembers, so that it reports changes only.
pub struct Client {
    pub last_poll: Option<u64>,
    /// Whether the connection to the service stands.
    pub alive: bool,
    /// The topology keys of the devices that were last reported.
    pub last_ctrls: Option<Vec<String>>,
    pub last_batt: Option<bool>,
    /// The case status that was last reported.
    pub last_case: Option<(bool, Option<String>)>,
    pub pending_save: Option<Result<bool, String>>,
}

/// Texts by content.
pub open spec fn texts(v: Seq<String>) -> Seq<Seq<char>> {
    v.map_values(|s: String| s@)
}

/// The topology keys of some devices.
pub open spec fn keys(devices: Seq<DeviceDescriptor>) -> Seq<Seq<char>> {
    devices.map_values(|d: DeviceDescriptor| d.shape())
}

/// The topology keys that were last reported.
pub open spec fn known(last: Option<Vec<String>>) -> Option<Seq<Seq<char>>> {
    match last {
        Some(v) => Some(texts(v@)),
        None => None,
    }
}

/// The case status that was last reported.
pub open spec fn known_case(last: Option<(bool, Option<String>)>) -> Option<
    (bool, Option<Seq<char>>),
> {
    match last {
        Some((a, e)) => Some((a, text_of(e))),
        None => None,
    }
}

/// Whether the service is to be asked again.
pub open spec fn poll_due(alive: bool, last: Option<u64>, now: u64) -> bool {
    alive && (last matches Some(t) ==> since(now, t) >= POLL_INTERVAL)
}

fn same_texts(a: &Vec<String>, b: &Vec<String>) -> (r: bool)
    ensures
        r == (texts(a@) == texts(b@)),
{
    if a.len() != b.len() {
        assert(texts(a@).len() != texts(b@).len());
        return false;
    }
    let mut i: usize = 0;
    while i < a.len()
        invariant
            i <= a@.len(),
            a@.len() == b@.len(),
            forall|j: int| 0 <= j < i ==> (#[trigger] a@[j])@ == b@[j]@,
        decreases a@.len() - i,
    {
        if !same(a[i].as_str(), b[i].as_str()) {
            assert(texts(a@)[i as int] != texts(b@)[i as int]);
            return false;
        }
        i += 1;
    }
    assert(texts(a@) =~= texts(b@));
    true
}

fn topology_keys(devices: &Vec<DeviceDescriptor>) -> (r: Vec<String>)
    ensures
        texts(r@) == keys(devices@),
{
    let mut out: Vec<String> = Vec::new();
    let mut i: usize = 0;
    while i < devices.len()
        invariant
            i <= devices@.len(),
            out@.len() == i,
            forall|j: int| 0 <= j < i ==> (#[trigger] out@[j])@ == devices@[j].shape(),
        decreases devices@.len() - i,
    {
        out.push(devices[i].topology_sig());
        i += 1;
    }
    assert(texts(out@) =~= keys(devices@));
    out
}

impl Client {
    /// A client that just shook hands with the service.
    pub fn new() -> (r: Self)
        ensures
            r.last_poll is None,
            r.alive,
            r.last_ctrls is None,
            r.last_batt is None,
            r.last_case is None,
            r.pending_save is None,
    {
        Client {
            last_poll: None,
            alive: true,
            last_ctrls: None,
            last_batt: None,
            last_case: None,
            pending_save: None,
        }
    }

    /// Starts a poll: hands out the result of a save that is waiting, and says
    /// whether the service is to be asked now.
    pub fn begin_poll(&mut self, now: u64) -> (r: (Option<HostEvent>, bool))
        ensures
            r.0 == (match old(self).pending_save {
                Some(res) => Some(HostEvent::SaveResult(res)),
                None => None,
            }),
            r.1 == poll_due(old(self).alive, old(self).last_poll, now),
            *final(self) == (Client {
                pending_save: None,
                last_poll: if r.1 {
                    Some(now)
                } else {
                    old(self).last_poll
                },
                ..*old(self)
            }),
    {
        let first = match self.pending_save.take() {
            Some(res) => Some(HostEvent::SaveResult(res)),
            None => None,
        };
        let due = self.alive && match self.last_poll {
            Some(t) => elapsed(now, t) >= POLL_INTERVAL,
            None => true,
        };
        if due {
            self.last_poll = Some(now);
        }
        (first, due)
    }

    /// Takes in the service's devices. Devices are reported when their topology
    /// changed; that there are none is reported every time.
    pub fn on_devices(
        &mut self,
        connected: bool,
        error: Option<String>,
        controllers: Option<Vec<DeviceDescriptor>>,
    ) -> (r: Option<HostEvent>)
        ensures
            match controllers {
                Some(cs) => {
                    &&& r == (if known(old(self).last_ctrls) == Some(keys(cs@)) {
                        None
                    } else {
                        Some(HostEvent::Connected(cs))
                    })
                    &&& known(final(self).last_ctrls) == Some(keys(cs@))
                },
                None => if connected {
                    r is None && final(self).last_ctrls == old(self).last_ctrls
                } else {
                    &&& r matches Some(HostEvent::Disconnected(e)) && e@ == (match error {
                        Some(x) => x@,
                        None => "service: no device"@,
                    })
                    &&& final(self).last_ctrls is None
                },
            },
            *final(self) == (Client { last_ctrls: final(self).last_ctrls, ..*old(self) }),
    {
        match controllers {
            Some(cs) => {
                let sig = topology_keys(&cs);
                let unchanged = match &self.last_ctrls {
                    Some(last) => same_texts(last, &sig),
                    None => false,
                };
                if unchanged {
                    None
                } else {
                    self.last_ctrls = Some(sig);
                    Some(HostEvent::Connected(cs))
                }
            },
            None => {
                if connected {
                    None
                } else {
                    self.last_ctrls = None;
                    Some(
                        HostEvent::Disconnected(
                            match error {
                                Some(e) => e,
                                None => "service: no device".to_string(),
                            },
                        ),
                    )
                }
            },
        }
    }

    /// Takes in the service's power status, which is reported when it changed.
    pub fn on_power(&mut self, on_battery: bool) -> (r: Option<HostEvent>)
        ensures
            r == (if old(self).last_batt == Some(on_battery) {
                None
            } else {
                Some(HostEvent::OnBattery(on_battery))
            }),
            *final(self) == (Client { last_batt: Some(on_battery), ..*old(self) }),
    {
        if let Some(b) = self.last_batt {
            if b == on_battery {
                return None;
            }
        }
        self.last_batt = Some(on_battery);
        Some(HostEvent::OnBattery(on_battery))
    }

    /// Takes in the service's case status, which is reported when it changed.
    pub fn on_case(&mut self, available: bool, error: Option<String>) -> (r: Option<HostEvent>)
        ensures
            r == (if known_case(old(self).last_case) == Some((available, text_of(error))) {
                None
            } else {
                Some(HostEvent::DtStatus { available, error })
            }),
            known_case(final(self).last_case) == Some((available, text_of(error))),
            *final(self) == (Client { last_case: final(self).last_case, ..*old(self) }),
    {
        let unchanged = match &self.last_case {
            Some((a, e)) => *a == available && match (e, &error) {
                (None, None) => true,
                (Some(x), Some(y)) => same(x.as_str(), y.as_str()),
                _ => false,
            },
            None => false,
        };
        if unchanged {
            return None;
        }
        let copy = match &error {
            Some(e) => Some(e.clone()),
            None => None,
        };
        self.last_case = Some((available, copy));
        Some(HostEvent::DtStatus { available, error })
    }

    /// Takes in that the service did not answer.
    pub fn lost(&mut self, error: &str) -> (r: HostEvent)
        ensures
            r matches HostEvent::Disconnected(e) && e@ == "service connection lost: "@ + error@,
            *final(self) == (Client { alive: false, ..*old(self) }),
    {
        self.alive = false;
        let mut out = String::new();
        out.append("service connection lost: ");
        out.append(error);
        assert(out@ =~= "service connection lost: "@ + error@);
        HostEvent::Disconnected(out)
    }

    /// Takes in whether a state reached the service.
    pub fn sent(&mut self, reached: bool)
        ensures
            *final(self) == (Client { alive: old(self).alive && reached, ..*old(self) }),
    {
        if !reached {
            self.alive = false;
        }
    }

    /// Takes in what the service answered to a save, if it answered one.
    pub fn on_save(&mut self, result: Option<Result<bool, String>>)
        ensures
            *final(self) == (Client {
                pending_save: if result is Some {
                    result
                } else {
                    old(self).pending_save
                },
                ..*old(self)
            }),
    {
        if result.is_some() {
            self.pending_save = result;
        }
    }
}

/// The window sees what the engine said: the same devices one by one, the same
/// error, the same power and case status.
pub proof fn the_window_sees_what_the_engine_said(ev: EngineEvent, h: HostEvent, i: int)
    requires
        seen_as(ev, h),
    ensures
        match ev {
            EngineEvent::Connected(cs) => h matches HostEvent::Connected(ds) && ds@.len()
                == cs@.len() && (0 <= i < cs@.len() ==> ds@[i].name@ == cs@[i].name@
                && ds@[i].led_count == cs@[i].led_count && ds@[i].zones@.len()
                == cs@[i].zones@.len() && ds@[i].modes@.len() == cs@[i].modes@.len()),
            EngineEvent::Disconnected(e) => h matches HostEvent::Disconnected(f) && f@ == e@,
            EngineEvent::OnBattery(b) => h matches HostEvent::OnBattery(c) && c == b,
            EngineEvent::DtStatus { available, error } => h matches HostEvent::DtStatus {
                available: a,
                error: e,
            } && a == available && e == error,
        },
{
}

/// The service is asked every 400 milliseconds while the connection stands, the
/// first time at once, and never once it is lost.
pub proof fn polls_recur(t: u64, now: u64)
    requires
        t <= now,
    ensures
        poll_due(true, Some(t), now) <==> now - t >= 400_000_000,
        poll_due(true, None, now),
        !poll_due(false, Some(t), now),
        !poll_due(false, None, now),
{
}

/// Devices count as the same exactly where there are as many of them and each
/// has the key of the one in its place; a case status exactly where both the
/// availability and the error are the same.
pub proof fn reports_are_compared_one_by_one(
    a: Seq<DeviceDescriptor>,
    b: Seq<DeviceDescriptor>,
    x: bool,
    y: bool,
    e: Option<String>,
    f: Option<String>,
)
    ensures
        keys(a) == keys(b) <==> a.len() == b.len() && forall|i: int|
            0 <= i < a.len() ==> (#[trigger] a[i]).shape() == b[i].shape(),
        known_case(Some((x, e))) == known_case(Some((y, f))) <==> x == y && match (e, f) {
            (None, None) => true,
            (Some(s), Some(t)) => s@ == t@,
            _ => false,
        },
{
    if keys(a) == keys(b) {
        assert(keys(a).len() == a.len() && keys(b).len() == b.len());
        assert forall|i: int| 0 <= i < a.len() implies (#[trigger] a[i]).shape() == b[i].shape() by {
            assert(keys(a)[i] == a[i].shape());
            assert(keys(b)[i] == b[i].shape());
        }
    }
    if a.len() == b.len() && forall|i: int|
        0 <= i < a.len() ==> (#[trigger] a[i]).shape() == b[i].shape() {
        assert(keys(a) =~= keys(b));
    }
}

} // verus!
