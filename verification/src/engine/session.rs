//! One connection to the server: what the render loop remembers between its
//! rounds, and what it does next.

use vstd::prelude::*;

use crate::engine::pass::{all_given, nothing_given, DeviceTrack};
use crate::engine::tracker::{elapsed, since};
use crate::engine::{HOLD_PERIOD, IDLE_TICK};

verus! {

/// What the loop does after it has handled something.
#[derive(Clone, Copy, Debug, PartialEq, Eq, Structural)]
pub enum Control {
    /// Render and push.
    Render,
    /// Go to sleep again.
    Sleep,
    /// Drop the connection and connect again.
    Reconnect,
    /// End.
    Quit,
}

/// What woke the loop up.
#[derive(Clone, Copy, Debug, PartialEq, Eq, Structural)]
pub enum Wakeup {
    /// A new state came.
    State,
    /// Someone asked to connect again.
    Reconnect,
    /// Nothing came in time.
    Timeout,
    /// Whoever sends commands is gone.
    Closed,
}

/// What the loop does after it was woken up.
pub open spec fn response(w: Wakeup) -> Control {
    match w {
        Wakeup::State => Control::Render,
        Wakeup::Timeout => Control::Render,
        Wakeup::Reconnect => Control::Reconnect,
        Wakeup::Closed => Control::Quit,
    }
}

/// What the loop does after it was woken up.
pub fn on_wakeup(w: Wakeup) -> (r: Control)
    ensures
        r == response(w),
{
    match w {
        Wakeup::State | Wakeup::Timeout => Control::Render,
        Wakeup::Reconnect => Control::Reconnect,
        Wakeup::Closed => Control::Quit,
    }
}

/// What the loop does when connecting failed and it was woken up from the wait:
/// it only ends when whoever sends commands is gone.
pub fn on_wait_over(w: Wakeup) -> (r: Control)
    ensures
        r == (if w == Wakeup::Closed {
            Control::Quit
        } else {
            Control::Reconnect
        }),
{
    if w == Wakeup::Closed {
        Control::Quit
    } else {
        Control::Reconnect
    }
}

/// How long the loop sleeps: a frame where something moves, the idle time where
/// nothing does, and never past a pending case write.
pub fn sleep_time(frame: Option<u64>, wake: Option<u64>) -> (r: u64)
    ensures
        ({
            let tick = match frame {
                Some(f) => f,
                None => IDLE_TICK,
            };
            r == match wake {
                Some(w) if w < tick => w,
                _ => tick,
            }
        }),
{
    let tick: u64 = match frame {
        Some(f) => f,
        None => IDLE_TICK,
    };
    match wake {
        Some(w) if w < tick => w,
        _ => tick,
    }
}

/// What the loop remembers during one connection.
pub struct Session {
    /// What each device was last given.
    pub tracks: Vec<DeviceTrack>,
    /// When a held profile was last pushed again.
    pub last_forced: Option<u64>,
    /// Whether the last round saw the machine on battery.
    pub last_batt: bool,
}

/// Whether a held profile is due to be pushed again.
pub open spec fn hold_due(hold: bool, last: Option<u64>, now: u64) -> bool {
    hold && (last matches Some(t) ==> since(now, t) >= HOLD_PERIOD)
}

/// What a save of a firmware mode came to.
pub enum SaveResult {
    /// The mode was saved, or cannot be saved at all.
    Done(bool),
    Failed(String),
}

impl Session {
    /// A fresh connection to `n` devices: nothing was given to any of them, and
    /// a held profile is due.
    pub fn new(n: usize) -> (r: Self)
        ensures
            r.tracks@.len() == n,
            forall|i: int| 0 <= i < n ==> (#[trigger] r.tracks@[i])@ == nothing_given(),
            r.last_forced is None,
            !r.last_batt,
    {
        let mut tracks: Vec<DeviceTrack> = Vec::new();
        let mut i: usize = 0;
        while i < n
            invariant
                i <= n,
                tracks@.len() == i,
                forall|k: int| 0 <= k < i ==> (#[trigger] tracks@[k])@ == nothing_given(),
            decreases n - i,
        {
            tracks.push(DeviceTrack::new());
            i += 1;
        }
        Session { tracks, last_forced: None, last_batt: false }
    }

    /// Takes in whether the machine is on battery. The first result says
    /// whether frames are dimmed, the second whether that is news.
    pub fn battery(&mut self, saver: bool, on_battery: bool) -> (r: (bool, bool))
        ensures
            r.0 == (saver && on_battery),
            r.1 == (r.0 != old(self).last_batt),
            final(self).last_batt == r.0,
            final(self).tracks == old(self).tracks,
            final(self).last_forced == old(self).last_forced,
    {
        let on = saver && on_battery;
        let news = on != self.last_batt;
        self.last_batt = on;
        (on, news)
    }

    /// Whether this round pushes everything again.
    pub fn is_forced(&self, hold: bool, now: u64) -> (r: bool)
        ensures
            r == hold_due(hold, self.last_forced, now),
    {
        hold && match self.last_forced {
            Some(t) => elapsed(now, t) >= HOLD_PERIOD,
            None => true,
        }
    }

    /// Takes in that a forced round went through.
    pub fn forced(&mut self, now: u64)
        ensures
            final(self).last_forced == Some(now),
            final(self).tracks == old(self).tracks,
            final(self).last_batt == old(self).last_batt,
    {
        self.last_forced = Some(now);
    }

    /// Whether there is a device of that number.
    pub fn has_device(&self, device: usize) -> (r: bool)
        ensures
            r == (device < self.tracks@.len()),
    {
        device < self.tracks.len()
    }

    /// Takes in what a save of a device's firmware mode came to. Whatever it
    /// was, the device is established again; a failure drops the connection.
    pub fn saved(&mut self, device: usize, result: &SaveResult) -> (r: Control)
        ensures
            r == (if *result is Failed {
                Control::Reconnect
            } else {
                Control::Sleep
            }),
            all_given(final(self).tracks@) == (if device < old(self).tracks@.len() {
                all_given(old(self).tracks@).update(device as int, nothing_given())
            } else {
                all_given(old(self).tracks@)
            }),
            final(self).last_forced == old(self).last_forced,
            final(self).last_batt == old(self).last_batt,
    {
        if device < self.tracks.len() {
            self.tracks[device].invalidate();
        }
        assert(all_given(self.tracks@) =~= if device < old(self).tracks@.len() {
            all_given(old(self).tracks@).update(device as int, nothing_given())
        } else {
            all_given(old(self).tracks@)
        });
        match result {
            SaveResult::Failed(_) => Control::Reconnect,
            SaveResult::Done(_) => Control::Sleep,
        }
    }
}

/// The error of a save for a device that does not exist.
pub fn no_such_device() -> (r: String)
    ensures
        r@ == "no such device"@,
{
    "no such device".to_string()
}

/// The reason given for a connection dropped by a failed save.
pub fn save_failed() -> (r: String)
    ensures
        r@ == "save failed"@,
{
    "save failed".to_string()
}

/// Hold out-times whoever repaints: from any forced round on, the next one is
/// due after exactly the hold period, for as long as hold is on.
pub proof fn holds_recur(t: u64, now: u64)
    requires
        t <= now,
    ensures
        hold_due(true, Some(t), now) == (now - t >= HOLD_PERIOD),
        hold_due(true, Some(t), now) == (now - t >= 3_000_000_000),
        !hold_due(false, Some(t), now),
        !hold_due(false, None, now),
        hold_due(true, None, now),
{
}

/// The loop renders when a state came or time passed, connects again when asked
/// to, and ends only when nobody can ask it for anything any more.
pub proof fn wakeups_are_answered(w: Wakeup)
    ensures
        response(w) == Control::Render <==> w == Wakeup::State || w == Wakeup::Timeout,
        response(w) == Control::Reconnect <==> w == Wakeup::Reconnect,
        response(w) == Control::Quit <==> w == Wakeup::Closed,
{
}

/// A sleep never outlasts the frame or the wake-up that it waits for, nor nine
/// tenths of a second where no frame is due; and it ends at one of them.
pub proof fn sleeps_end_at_what_comes_first(frame: Option<u64>, wake: Option<u64>, r: u64)
    requires
        call_ensures(sleep_time, (frame, wake), r),
    ensures
        frame matches Some(f) ==> r <= f,
        frame is None ==> r <= 900_000_000,
        wake matches Some(w) ==> r <= w,
        frame == Some(r) || wake == Some(r) || frame is None && r == 900_000_000,
{
}

/// While a connection is awaited, a closed channel ends the loop and anything
/// else tries again.
pub proof fn waits_end_in_another_try(w: Wakeup, r: Control)
    requires
        call_ensures(on_wait_over, (w,), r),
    ensures
        r == Control::Quit <==> w == Wakeup::Closed,
        r == Control::Quit || r == Control::Reconnect,
{
}

} // verus!
