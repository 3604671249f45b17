//! The case write scheduler.
//!
//! Every case write blanks its area while the firmware applies it, and a
//! broadcast repaints every area. So writes are debounced (a request is written
//! once it has stopped moving), diffed (only what differs from what is applied
//! is written), and, under hold, verified by reading back instead of replayed.
//!
//! Times are nanoseconds of a clock that does not go back.

use vstd::prelude::*;

use crate::dt::{
    area, behavior, behavior_bytes, color_word, color_word_bytes, effect_transaction, flag_of,
    flags, flags_and_trailers_are_the_captured_ones, sent_color, speed, wire_color, AreaCmd,
    DtEffect, DtState, Transaction,
};
use crate::engine::EngineEvent;
use crate::rgb::Rgb;
use crate::text::{
    contained_in_a_longer_text, contains_text, joined_texts_contain_their_parts, occurs_at,
};

verus! {

/// A change is written once the request has not moved for this long.
pub const DT_SETTLE: u64 = 220_000_000;

/// How long a failed write waits before it is tried again.
pub const DT_RETRY: u64 = 2_000_000_000;

/// How often the registers are read back under hold.
pub const DT_VERIFY_PERIOD: u64 = 4_000_000_000;

/// An area that still disagrees after this many rewrites in a row is judged
/// unreadable.
pub const DT_VERIFY_STRIKES: u8 = 2;

/// The shortest sleep before a pending write.
pub const MIN_WAKE: u64 = 5_000_000;

/// One resolved write: what an area should show.
#[derive(Clone, Copy, Debug, PartialEq, Eq, Structural)]
pub struct ZoneWrite {
    pub area: u16,
    /// The color that goes on the wire.
    pub color: Rgb,
    pub on: bool,
    pub effect: DtEffect,
    /// The speed byte that goes on the wire.
    pub speed: u8,
}

// ------------------------------------------------------------- the request

/// The write of a per-area override. Overrides have no speed of their own.
pub open spec fn override_write(a: AreaCmd) -> ZoneWrite {
    ZoneWrite {
        area: a.area,
        color: sent_color(a.color, a.effect),
        on: a.on,
        effect: a.effect,
        speed: a.effect.sent_speed(speed::DEFAULT),
    }
}

/// The writes that a request implies: the broadcast, then every override.
pub open spec fn resolved(want: DtState) -> Seq<ZoneWrite> {
    seq![
        ZoneWrite {
            area: area::ALL,
            color: sent_color(want.color, want.effect),
            on: want.on,
            effect: want.effect,
            speed: want.effect.sent_speed(want.speed),
        },
    ] + want.areas@.map_values(|a: AreaCmd| override_write(a))
}

/// Flattens a request into the writes it implies. The request's colors are
/// those that the hardware should show.
pub fn resolve_dt(want: &DtState) -> (r: Vec<ZoneWrite>)
    ensures
        r@ == resolved(*want),
        r@.len() == want.areas@.len() + 1,
        r@[0].area == area::ALL && r@[0].on == want.on && r@[0].effect == want.effect,
        forall|k: int|
            0 <= k < want.areas@.len() ==> r@[k + 1].area == (#[trigger] want.areas@[k]).area && r@[k
                + 1].on == want.areas@[k].on && r@[k + 1].effect == want.areas@[k].effect,
{
    let mut out: Vec<ZoneWrite> = Vec::new();
    out.push(
        ZoneWrite {
            area: area::ALL,
            color: wire_color(want.color, want.effect),
            on: want.on,
            effect: want.effect,
            speed: want.effect.wire_speed(want.speed),
        },
    );
    let ghost head = out@;
    let mut i: usize = 0;
    while i < want.areas.len()
        invariant
            i <= want.areas@.len(),
            head.len() == 1,
            head[0] == resolved(*want)[0],
            out@ == head + want.areas@.take(i as int).map_values(|a: AreaCmd| override_write(a)),
        decreases want.areas@.len() - i,
    {
        let a = want.areas[i];
        out.push(
            ZoneWrite {
                area: a.area,
                color: wire_color(a.color, a.effect),
                on: a.on,
                effect: a.effect,
                speed: a.effect.wire_speed(speed::DEFAULT),
            },
        );
        assert(out@ =~= head + want.areas@.take(i + 1).map_values(|a: AreaCmd| override_write(a)));
        i += 1;
    }
    assert(want.areas@.take(i as int) =~= want.areas@);
    assert(out@ =~= resolved(*want));
    out
}

// ---------------------------------------------------------------- the plan

/// Whether some write is for that area.
pub open spec fn covers(writes: Seq<ZoneWrite>, area: u16) -> bool {
    exists|i: int| 0 <= i < writes.len() && (#[trigger] writes[i]).area == area
}

/// The overrides that are new or changed.
pub open spec fn changed(prev: Seq<ZoneWrite>, next: Seq<ZoneWrite>) -> Seq<ZoneWrite> {
    next.skip(1).filter(|z: ZoneWrite| !prev.skip(1).contains(z))
}

/// The overrides that the next request no longer has.
pub open spec fn dropped(prev: Seq<ZoneWrite>, next: Seq<ZoneWrite>) -> Seq<ZoneWrite> {
    prev.skip(1).filter(|p: ZoneWrite| !covers(next.skip(1), p.area))
}

/// The global look on one area.
pub open spec fn global_on(global: ZoneWrite, area: u16) -> ZoneWrite {
    ZoneWrite {
        area,
        color: global.color,
        on: global.on,
        effect: global.effect,
        speed: global.speed,
    }
}

/// Whether an area whose override is gone cannot be given the global look by
/// itself, because no capture backs that effect there.
pub open spec fn stranded(prev: Seq<ZoneWrite>, next: Seq<ZoneWrite>) -> bool {
    exists|i: int|
        1 <= i < prev.len() && !covers(next.skip(1), (#[trigger] prev[i]).area)
            && !next[0].effect.captured_for(prev[i].area)
}

/// The writes that lead from what is applied to a request, in order. A changed
/// broadcast repaints every area, so every override follows it. Otherwise only
/// changed overrides are written, and areas whose override is gone get the
/// global look. Where one of those cannot be given it by itself, the broadcast
/// brings it.
pub open spec fn plan(applied: Option<Seq<ZoneWrite>>, next: Seq<ZoneWrite>) -> Seq<ZoneWrite> {
    match applied {
        None => next,
        Some(prev) => if next[0] != prev[0] || stranded(prev, next) {
            next
        } else {
            changed(prev, next) + dropped(prev, next).map_values(
                |p: ZoneWrite| global_on(next[0], p.area),
            )
        },
    }
}

fn copy_writes(v: &Vec<ZoneWrite>) -> (r: Vec<ZoneWrite>)
    ensures
        r@ == v@,
{
    let r = v.clone();
    assert(r@ =~= v@);
    r
}

fn same_writes(a: &Vec<ZoneWrite>, b: &Vec<ZoneWrite>) -> (r: bool)
    ensures
        r == (a@ == b@),
{
    if a.len() != b.len() {
        return false;
    }
    let mut i: usize = 0;
    while i < a.len()
        invariant
            i <= a@.len(),
            a@.len() == b@.len(),
            forall|j: int| 0 <= j < i ==> a@[j] == b@[j],
        decreases a@.len() - i,
    {
        if a[i] != b[i] {
            return false;
        }
        i += 1;
    }
    assert(a@ =~= b@);
    true
}

fn same_request(a: &Option<Vec<ZoneWrite>>, b: &Option<Vec<ZoneWrite>>) -> (r: bool)
    ensures
        r == (content(*a) == content(*b)),
{
    match (a, b) {
        (None, None) => true,
        (Some(x), Some(y)) => same_writes(x, y),
        _ => false,
    }
}

/// A list of writes by content.
pub open spec fn content(v: Option<Vec<ZoneWrite>>) -> Option<Seq<ZoneWrite>> {
    match v {
        Some(x) => Some(x@),
        None => None,
    }
}

/// Whether an override of a list is this write.
fn has_override(list: &Vec<ZoneWrite>, z: &ZoneWrite) -> (r: bool)
    requires
        list@.len() > 0,
    ensures
        r == list@.skip(1).contains(*z),
{
    let mut i: usize = 1;
    while i < list.len()
        invariant
            1 <= i <= list@.len(),
            forall|j: int| 1 <= j < i ==> list@[j] != *z,
        decreases list@.len() - i,
    {
        if list[i] == *z {
            assert(list@.skip(1)[i - 1] == *z);
            return true;
        }
        i += 1;
    }
    assert forall|k: int| 0 <= k < list@.skip(1).len() implies list@.skip(1)[k] != *z by {
        assert(list@.skip(1)[k] == list@[k + 1]);
    }
    false
}

/// Whether an override of a list is for this area.
fn overrides(list: &Vec<ZoneWrite>, area: u16) -> (r: bool)
    requires
        list@.len() > 0,
    ensures
        r == covers(list@.skip(1), area),
{
    let mut i: usize = 1;
    while i < list.len()
        invariant
            1 <= i <= list@.len(),
            forall|j: int| 1 <= j < i ==> list@[j].area != area,
        decreases list@.len() - i,
    {
        if list[i].area == area {
            assert(list@.skip(1)[i - 1].area == area);
            return true;
        }
        i += 1;
    }
    assert forall|k: int| 0 <= k < list@.skip(1).len() implies list@.skip(1)[k].area != area by {
        assert(list@.skip(1)[k] == list@[k + 1]);
    }
    false
}

/// Whether some area cannot be given the global look by itself.
fn strands(prev: &Vec<ZoneWrite>, next: &Vec<ZoneWrite>) -> (r: bool)
    requires
        prev@.len() > 0,
        next@.len() > 0,
    ensures
        r == stranded(prev@, next@),
{
    let mut i: usize = 1;
    while i < prev.len()
        invariant
            1 <= i <= prev@.len(),
            next@.len() > 0,
            forall|j: int|
                1 <= j < i ==> covers(next@.skip(1), (#[trigger] prev@[j]).area)
                    || next@[0].effect.captured_for(prev@[j].area),
        decreases prev@.len() - i,
    {
        if !overrides(next, prev[i].area) && !next[0].effect.is_supported_for(prev[i].area) {
            return true;
        }
        i += 1;
    }
    false
}

/// Works out the writes that lead from what is applied to a request.
pub fn plan_writes(applied: &Option<Vec<ZoneWrite>>, next: &Vec<ZoneWrite>) -> (r: Vec<ZoneWrite>)
    requires
        next@.len() > 0,
        applied matches Some(prev) ==> prev@.len() > 0,
    ensures
        r@ == plan(content(*applied), next@),
{
    let prev = match applied {
        None => return copy_writes(next),
        Some(prev) => prev,
    };
    if next[0] != prev[0] || strands(prev, next) {
        return copy_writes(next);
    }
    let ghost is_changed = |z: ZoneWrite| !prev@.skip(1).contains(z);
    let ghost is_dropped = |p: ZoneWrite| !covers(next@.skip(1), p.area);
    let ghost recover = |p: ZoneWrite| global_on(next@[0], p.area);
    let mut out: Vec<ZoneWrite> = Vec::new();
    let mut i: usize = 1;
    proof {
        reveal(Seq::filter);
        assert(next@.skip(1).take(0) =~= Seq::<ZoneWrite>::empty());
    }
    while i < next.len()
        invariant
            1 <= i <= next@.len(),
            prev@.len() > 0,
            is_changed == (|z: ZoneWrite| !prev@.skip(1).contains(z)),
            out@ == next@.skip(1).take(i - 1).filter(is_changed),
        decreases next@.len() - i,
    {
        let ghost so_far = next@.skip(1).take(i as int);
        proof {
            reveal(Seq::filter);
            assert(so_far.drop_last() =~= next@.skip(1).take(i - 1));
            assert(so_far.last() == next@[i as int]);
        }
        if !has_override(prev, &next[i]) {
            out.push(next[i]);
        }
        i += 1;
    }
    assert(next@.skip(1).take(i - 1) =~= next@.skip(1));
    let ghost head = out@;
    assert(head == changed(prev@, next@));
    let mut k: usize = 1;
    proof {
        reveal(Seq::filter);
        assert(prev@.skip(1).take(0) =~= Seq::<ZoneWrite>::empty());
        assert(out@ =~= head + prev@.skip(1).take(0).filter(is_dropped).map_values(recover));
    }
    while k < prev.len()
        invariant
            1 <= k <= prev@.len(),
            next@.len() > 0,
            is_dropped == (|p: ZoneWrite| !covers(next@.skip(1), p.area)),
            recover == (|p: ZoneWrite| global_on(next@[0], p.area)),
            out@ == head + prev@.skip(1).take(k - 1).filter(is_dropped).map_values(recover),
        decreases prev@.len() - k,
    {
        let ghost so_far = prev@.skip(1).take(k as int);
        proof {
            reveal(Seq::filter);
            assert(so_far.drop_last() =~= prev@.skip(1).take(k - 1));
            assert(so_far.last() == prev@[k as int]);
        }
        if !overrides(next, prev[k].area) {
            out.push(
                ZoneWrite {
                    area: prev[k].area,
                    color: next[0].color,
                    on: next[0].on,
                    effect: next[0].effect,
                    speed: next[0].speed,
                },
            );
        }
        assert(out@ =~= head + so_far.filter(is_dropped).map_values(recover));
        k += 1;
    }
    assert(prev@.skip(1).take(k - 1) =~= prev@.skip(1));
    out
}

// ------------------------------------------------------------- the tracker

/// How often in a row an area's echo disagreed after a rewrite.
#[derive(Clone, Copy, Debug, PartialEq, Eq, Structural)]
pub struct Strike {
    pub area: u16,
    pub count: u8,
}

/// What the scheduler remembers, as plain values.
#[verifier::ext_equal]
pub struct Memory {
    /// What the hardware shows, as far as it was written.
    pub applied: Option<Seq<ZoneWrite>>,
    /// The most recent request.
    pub seen: Option<Seq<ZoneWrite>>,
    /// When the request last moved.
    pub changed_at: Option<u64>,
    /// When a write last failed.
    pub failed_at: Option<u64>,
    /// When the registers were last read back, or written.
    pub last_verify: Option<u64>,
    /// Areas whose echo disagreed after a rewrite, and how often in a row.
    pub strikes: Seq<Strike>,
    /// Areas whose echo never reflects what is written.
    pub unreadable: Seq<u16>,
    /// Reading back failed; verification is off.
    pub verify_broken: bool,
    /// The pending write was asked for by verification.
    pub verify_rewrite: bool,
}

/// The case write scheduler.
pub struct DtTracker {
    applied: Option<Vec<ZoneWrite>>,
    seen: Option<Vec<ZoneWrite>>,
    changed_at: Option<u64>,
    failed_at: Option<u64>,
    last_verify: Option<u64>,
    strikes: Vec<Strike>,
    unreadable: Vec<u16>,
    verify_broken: bool,
    verify_rewrite: bool,
}

impl View for DtTracker {
    type V = Memory;

    closed spec fn view(&self) -> Memory {
        Memory {
            applied: content(self.applied),
            seen: content(self.seen),
            changed_at: self.changed_at,
            failed_at: self.failed_at,
            last_verify: self.last_verify,
            strikes: self.strikes@,
            unreadable: self.unreadable@,
            verify_broken: self.verify_broken,
            verify_rewrite: self.verify_rewrite,
        }
    }
}

/// A scheduler that has seen nothing.
pub open spec fn blank() -> Memory {
    Memory {
        applied: None,
        seen: None,
        changed_at: None,
        failed_at: None,
        last_verify: None,
        strikes: Seq::empty(),
        unreadable: Seq::empty(),
        verify_broken: false,
        verify_rewrite: false,
    }
}

/// Well-formedness: a list of applied writes starts with a global look, and no
/// area has more strikes than are allowed.
pub open spec fn sound(m: Memory) -> bool {
    &&& m.applied matches Some(a) ==> a.len() > 0
    &&& forall|i: int| 0 <= i < m.strikes.len() ==> (#[trigger] m.strikes[i]).count <= DT_VERIFY_STRIKES
}

/// Time since an instant.
pub open spec fn since(now: u64, then: u64) -> int {
    if now >= then {
        now - then
    } else {
        0
    }
}

/// Whether a failed write is still too fresh to be tried again.
pub open spec fn backing_off(m: Memory, now: u64) -> bool {
    m.failed_at matches Some(t) && since(now, t) < DT_RETRY
}

/// What to do about a request.
pub enum Step {
    /// Nothing.
    Idle,
    /// The case cannot be reached.
    Unreachable,
    /// These writes, in order.
    Write(Vec<ZoneWrite>),
}

/// What to do about a request, as plain values.
#[verifier::ext_equal]
pub enum Choice {
    Idle,
    Unreachable,
    Write(Seq<ZoneWrite>),
}

impl View for Step {
    type V = Choice;

    open spec fn view(&self) -> Choice {
        match *self {
            Step::Idle => Choice::Idle,
            Step::Unreachable => Choice::Unreachable,
            Step::Write(w) => Choice::Write(w@),
        }
    }
}

/// What the scheduler does with a request, or with none.
pub open spec fn choose_step(m: Memory, want: Option<Seq<ZoneWrite>>, reachable: bool, now: u64) -> (
    Memory,
    Choice,
) {
    match want {
        // The case is left alone: forget what was applied, so that the next
        // request is written in full, and give every area another chance.
        None => (
            Memory {
                verify_broken: m.verify_broken,
                verify_rewrite: m.verify_rewrite,
                ..blank()
            },
            Choice::Idle,
        ),
        Some(next) => if m.seen != Some(next) {
            // The request moved: wait for it to settle.
            (
                Memory {
                    seen: Some(next),
                    changed_at: Some(now),
                    verify_rewrite: false,
                    ..m
                },
                Choice::Idle,
            )
        } else if m.applied == Some(next) {
            (m, Choice::Idle)
        } else if m.changed_at matches Some(t) && since(now, t) < DT_SETTLE {
            (m, Choice::Idle)
        } else if backing_off(m, now) {
            (m, Choice::Idle)
        } else if !reachable {
            // Nothing can happen until the request moves.
            (Memory { applied: m.seen, ..m }, Choice::Unreachable)
        } else {
            (m, Choice::Write(plan(m.applied, next)))
        },
    }
}

/// What is applied once a write has landed on its own area.
pub open spec fn patched(applied: Seq<ZoneWrite>, next: Seq<ZoneWrite>, z: ZoneWrite) -> Seq<ZoneWrite> {
    if !covers(next.skip(1), z.area) {
        applied.filter(|q: ZoneWrite| q.area != z.area)
    } else if covers(applied, z.area) {
        applied.update(first_for(applied, z.area), z)
    } else {
        applied.push(z)
    }
}

/// Where the first write for an area stands.
pub open spec fn first_for(writes: Seq<ZoneWrite>, area: u16) -> int {
    choose|i: int| is_first_for(writes, area, i)
}

pub open spec fn is_first_for(writes: Seq<ZoneWrite>, area: u16, i: int) -> bool {
    &&& 0 <= i < writes.len()
    &&& writes[i].area == area
    &&& forall|j: int| 0 <= j < i ==> (#[trigger] writes[j]).area != area
}

/// What is applied once a run of writes has landed, area by area.
pub open spec fn patched_all(
    applied: Seq<ZoneWrite>,
    next: Seq<ZoneWrite>,
    landed: Seq<ZoneWrite>,
) -> Seq<ZoneWrite>
    decreases landed.len(),
{
    if landed.len() == 0 {
        applied
    } else {
        patched(patched_all(applied, next, landed.drop_last()), next, landed.last())
    }
}

/// What is applied once the first `done` writes of a plan have landed.
pub open spec fn applied_after(
    applied: Option<Seq<ZoneWrite>>,
    next: Seq<ZoneWrite>,
    writes: Seq<ZoneWrite>,
    done: int,
) -> Option<Seq<ZoneWrite>> {
    let landed = writes.take(done);
    if done == 0 {
        applied
    } else if landed[0].area == area::ALL {
        // A broadcast repainted every area: only what followed it is left.
        Some(landed)
    } else {
        match applied {
            Some(a) => Some(patched_all(a, next, landed)),
            None => None,
        }
    }
}

/// What the scheduler remembers once a plan was written in full.
pub open spec fn after_success(m: Memory, next: Seq<ZoneWrite>, now: u64) -> Memory {
    Memory {
        applied: Some(next),
        failed_at: None,
        last_verify: Some(now),
        strikes: if m.verify_rewrite {
            m.strikes
        } else {
            Seq::empty()
        },
        verify_rewrite: false,
        ..m
    }
}

/// What the scheduler remembers once a plan failed after `done` writes.
pub open spec fn after_failure(
    m: Memory,
    next: Seq<ZoneWrite>,
    writes: Seq<ZoneWrite>,
    done: int,
    now: u64,
) -> Memory {
    Memory { applied: applied_after(m.applied, next, writes, done), failed_at: Some(now), ..m }
}

/// The time since an instant, zero for one that is still to come.
pub fn elapsed(now: u64, then: u64) -> (r: u64)
    ensures
        r == since(now, then),
{
    if now >= then {
        now - then
    } else {
        0
    }
}

fn copy_request(v: &Option<Vec<ZoneWrite>>) -> (r: Option<Vec<ZoneWrite>>)
    ensures
        content(r) == content(*v),
{
    match v {
        Some(x) => Some(copy_writes(x)),
        None => None,
    }
}

fn without_area(writes: &Vec<ZoneWrite>, area: u16) -> (r: Vec<ZoneWrite>)
    ensures
        r@ == writes@.filter(|q: ZoneWrite| q.area != area),
{
    let ghost keep = |q: ZoneWrite| q.area != area;
    let mut out: Vec<ZoneWrite> = Vec::new();
    let mut i: usize = 0;
    proof {
        reveal(Seq::filter);
        assert(writes@.take(0) =~= Seq::<ZoneWrite>::empty());
    }
    while i < writes.len()
        invariant
            i <= writes@.len(),
            keep == (|q: ZoneWrite| q.area != area),
            out@ == writes@.take(i as int).filter(keep),
        decreases writes@.len() - i,
    {
        proof {
            reveal(Seq::filter);
            let next = writes@.take(i + 1);
            assert(next.drop_last() =~= writes@.take(i as int));
            assert(next.last() == writes@[i as int]);
        }
        if writes[i].area != area {
            out.push(writes[i]);
        }
        i += 1;
    }
    assert(writes@.take(i as int) =~= writes@);
    out
}

/// There is one first write for an area.
proof fn first_for_is_unique(writes: Seq<ZoneWrite>, area: u16, i: int)
    requires
        is_first_for(writes, area, i),
    ensures
        first_for(writes, area) == i,
        covers(writes, area),
{
    let k = first_for(writes, area);
    assert(is_first_for(writes, area, k));
    if k < i {
        assert(writes[k].area != area);
    }
    if i < k {
        assert(writes[i].area != area);
    }
}

fn patch(applied: &mut Vec<ZoneWrite>, next: &Vec<ZoneWrite>, z: ZoneWrite)
    requires
        next@.len() > 0,
    ensures
        final(applied)@ == patched(old(applied)@, next@, z),
{
    if !overrides(next, z.area) {
        let kept = without_area(applied, z.area);
        *applied = kept;
        return;
    }
    let mut i: usize = 0;
    while i < applied.len()
        invariant
            i <= applied@.len(),
            applied@ == old(applied)@,
            covers(next@.skip(1), z.area),
            forall|j: int| 0 <= j < i ==> (#[trigger] applied@[j]).area != z.area,
        decreases applied@.len() - i,
    {
        if applied[i].area == z.area {
            proof {
                assert(is_first_for(applied@, z.area, i as int));
                first_for_is_unique(applied@, z.area, i as int);
            }
            applied.set(i, z);
            return;
        }
        i += 1;
    }
    applied.push(z);
}

impl DtTracker {
    /// A scheduler that has seen nothing.
    pub fn new() -> (r: Self)
        ensures
            r@ == blank(),
            sound(r@),
    {
        DtTracker {
            applied: None,
            seen: None,
            changed_at: None,
            failed_at: None,
            last_verify: None,
            strikes: Vec::new(),
            unreadable: Vec::new(),
            verify_broken: false,
            verify_rewrite: false,
        }
    }

    /// Whether the scheduler's memory is well-formed.
    pub fn is_sound(&self) -> (r: bool)
        ensures
            r == sound(self@),
    {
        if let Some(a) = &self.applied {
            if a.len() == 0 {
                return false;
            }
        }
        let mut i: usize = 0;
        while i < self.strikes.len()
            invariant
                i <= self.strikes@.len(),
                self.applied matches Some(a) ==> a@.len() > 0,
                forall|j: int|
                    0 <= j < i ==> (#[trigger] self.strikes@[j]).count <= DT_VERIFY_STRIKES,
            decreases self.strikes@.len() - i,
        {
            if self.strikes[i].count > DT_VERIFY_STRIKES {
                assert(self@.strikes[i as int].count > DT_VERIFY_STRIKES);
                return false;
            }
            i += 1;
        }
        true
    }

    fn is_backing_off(&self, now: u64) -> (r: bool)
        ensures
            r == backing_off(self@, now),
    {
        match self.failed_at {
            Some(t) => elapsed(now, t) < DT_RETRY,
            None => false,
        }
    }

    /// Takes in the current request and says what to do about it. The colors of
    /// the request are those that the hardware should show.
    pub fn decide(&mut self, want: Option<&DtState>, reachable: bool, now: u64) -> (r: Step)
        requires
            sound(old(self)@),
        ensures
            (final(self)@, r@) == choose_step(
                old(self)@,
                match want {
                    Some(w) => Some(resolved(*w)),
                    None => None,
                },
                reachable,
                now,
            ),
            sound(final(self)@),
    {
        let want = match want {
            None => {
                self.applied = None;
                self.seen = None;
                self.changed_at = None;
                self.failed_at = None;
                self.last_verify = None;
                self.strikes.clear();
                self.unreadable.clear();
                return Step::Idle;
            },
            Some(w) => w,
        };
        let next = resolve_dt(want);
        let request = Some(next);
        if !same_request(&self.seen, &request) {
            self.seen = request;
            self.changed_at = Some(now);
            self.verify_rewrite = false;
            return Step::Idle;
        }
        if same_request(&self.applied, &request) {
            return Step::Idle;
        }
        if let Some(t) = self.changed_at {
            if elapsed(now, t) < DT_SETTLE {
                return Step::Idle;
            }
        }
        if self.is_backing_off(now) {
            return Step::Idle;
        }
        if !reachable {
            self.applied = copy_request(&self.seen);
            return Step::Unreachable;
        }
        match &request {
            Some(next) => Step::Write(plan_writes(&self.applied, next)),
            None => Step::Idle,
        }
    }

    /// Takes in that a plan was written in full.
    pub fn succeed(&mut self, want: &DtState, now: u64)
        requires
            sound(old(self)@),
        ensures
            final(self)@ == after_success(old(self)@, resolved(*want), now),
            sound(final(self)@),
    {
        self.applied = Some(resolve_dt(want));
        self.failed_at = None;
        self.last_verify = Some(now);
        if self.verify_rewrite {
            self.verify_rewrite = false;
        } else {
            self.strikes.clear();
        }
    }

    /// Takes in that a plan failed after its first `done` writes had landed.
    pub fn fail(&mut self, want: &DtState, writes: &Vec<ZoneWrite>, done: usize, now: u64)
        requires
            done <= writes@.len(),
        ensures
            final(self)@ == after_failure(old(self)@, resolved(*want), writes@, done as int, now),
    {
        self.failed_at = Some(now);
        if done == 0 {
            return;
        }
        let ghost landed = writes@.take(done as int);
        let next = resolve_dt(want);
        if writes[0].area == area::ALL {
            let mut kept: Vec<ZoneWrite> = Vec::new();
            let mut i: usize = 0;
            while i < done
                invariant
                    i <= done <= writes@.len(),
                    kept@ == writes@.take(i as int),
                decreases done - i,
            {
                kept.push(writes[i]);
                assert(kept@ =~= writes@.take(i + 1));
                i += 1;
            }
            self.applied = Some(kept);
            return;
        }
        let mut held: Option<Vec<ZoneWrite>> = None;
        std::mem::swap(&mut held, &mut self.applied);
        match held {
            None => {},
            Some(list) => {
                let mut list = list;
                let ghost before = list@;
                let mut i: usize = 0;
                assert(writes@.take(0).len() == 0);
                while i < done
                    invariant
                        i <= done <= writes@.len(),
                        next@.len() > 0,
                        list@ == patched_all(before, next@, writes@.take(i as int)),
                    decreases done - i,
                {
                    patch(&mut list, &next, writes[i]);
                    proof {
                        let more = writes@.take(i + 1);
                        assert(more.drop_last() =~= writes@.take(i as int));
                        assert(more.last() == writes@[i as int]);
                    }
                    i += 1;
                }
                self.applied = Some(list);
            },
        }
    }
}

// ---------------------------------------------------------------- waking up

/// How long the loop may sleep before a pending write needs it.
pub open spec fn wake_after(m: Memory, now: u64) -> Option<u64> {
    if m.seen is None || m.seen == m.applied || backing_off(m, now) {
        None
    } else {
        let rest = match m.changed_at {
            Some(t) => DT_SETTLE - since(now, t),
            None => 0,
        };
        Some(
            if rest > MIN_WAKE {
                rest as u64
            } else {
                MIN_WAKE
            },
        )
    }
}

impl DtTracker {
    /// How long the loop may sleep before a pending write needs flushing. Nothing
    /// when none is waiting, or while a failed one backs off.
    pub fn wake_in(&self, now: u64) -> (r: Option<u64>)
        ensures
            r == wake_after(self@, now),
    {
        if self.seen.is_none() || same_request(&self.seen, &self.applied) || self.is_backing_off(
            now,
        ) {
            return None;
        }
        let rest: u64 = match self.changed_at {
            Some(t) => {
                let gone: u64 = elapsed(now, t);
                if gone < DT_SETTLE {
                    DT_SETTLE - gone
                } else {
                    0
                }
            },
            None => 0,
        };
        Some(
            if rest > MIN_WAKE {
                rest
            } else {
                MIN_WAKE
            },
        )
    }
}

// ------------------------------------------------------------ verification

/// How often an area has struck in a row.
pub open spec fn strike_count(strikes: Seq<Strike>, area: u16) -> int {
    if has_strike(strikes, area) {
        strikes[first_strike(strikes, area)].count as int
    } else {
        0
    }
}

pub open spec fn has_strike(strikes: Seq<Strike>, area: u16) -> bool {
    exists|i: int| 0 <= i < strikes.len() && (#[trigger] strikes[i]).area == area
}

pub open spec fn is_first_strike(strikes: Seq<Strike>, area: u16, i: int) -> bool {
    &&& 0 <= i < strikes.len()
    &&& strikes[i].area == area
    &&& forall|j: int| 0 <= j < i ==> (#[trigger] strikes[j]).area != area
}

pub open spec fn first_strike(strikes: Seq<Strike>, area: u16) -> int {
    choose|i: int| is_first_strike(strikes, area, i)
}

/// The strikes with one more against an area.
pub open spec fn struck(strikes: Seq<Strike>, area: u16) -> Seq<Strike> {
    if has_strike(strikes, area) {
        let i = first_strike(strikes, area);
        strikes.update(i, Strike { area, count: (strikes[i].count + 1) as u8 })
    } else {
        strikes.push(Strike { area, count: 1 })
    }
}

/// The strikes with none against an area.
pub open spec fn cleared(strikes: Seq<Strike>, area: u16) -> Seq<Strike> {
    strikes.filter(|s: Strike| s.area != area)
}

/// Whether the registers are to be read back now.
pub open spec fn verify_due(m: Memory, hold: bool, reachable: bool, now: u64) -> bool {
    &&& reachable
    &&& hold
    &&& !m.verify_broken
    &&& m.applied is Some
    &&& m.seen == m.applied
    &&& !backing_off(m, now)
    &&& m.last_verify matches Some(t) ==> since(now, t) >= DT_VERIFY_PERIOD
}

/// What reading one register showed.
#[derive(Clone, Copy, Debug, PartialEq, Eq, Structural)]
pub enum Finding {
    /// The hardware shows what was applied.
    Agreed,
    /// The hardware shows something else, and will be written again.
    Diverged,
    /// Rewriting did not change the echo; the area is left alone from now on.
    GaveUp,
    /// The register cannot be read; verification is off.
    Broken,
}

/// Whether a register echo is what a write leaves behind.
pub open spec fn agrees(z: ZoneWrite, echo: (Rgb, u8)) -> bool {
    echo.0 == z.color && echo.1 == flag_of(z.on)
}

/// A write as its register shows it: the echoed color, and the other way of on
/// or off where the flags are not those of the write.
pub open spec fn as_echoed(z: ZoneWrite, echo: (Rgb, u8)) -> ZoneWrite {
    ZoneWrite {
        color: echo.0,
        on: if echo.1 == flag_of(z.on) {
            z.on
        } else {
            !z.on
        },
        ..z
    }
}

/// What the scheduler makes of the register of its `i`-th applied write. A
/// diverged area is remembered as the hardware shows it, so that the next plan
/// brings it back.
pub open spec fn judged(m: Memory, i: int, echo: Option<(Rgb, u8)>) -> (Memory, Finding) {
    let list = m.applied.unwrap();
    let z = list[i];
    match echo {
        None => (Memory { verify_broken: true, ..m }, Finding::Broken),
        Some(e) => if agrees(z, e) {
            (Memory { strikes: cleared(m.strikes, z.area), ..m }, Finding::Agreed)
        } else if strike_count(m.strikes, z.area) >= DT_VERIFY_STRIKES {
            (
                Memory {
                    unreadable: m.unreadable.push(z.area),
                    strikes: cleared(m.strikes, z.area),
                    ..m
                },
                Finding::GaveUp,
            )
        } else {
            (
                Memory {
                    applied: Some(list.update(i, as_echoed(z, e))),
                    strikes: struck(m.strikes, z.area),
                    verify_rewrite: true,
                    ..m
                },
                Finding::Diverged,
            )
        },
    }
}

/// There is one first strike of an area.
proof fn first_strike_is_unique(strikes: Seq<Strike>, area: u16, i: int)
    requires
        is_first_strike(strikes, area, i),
    ensures
        first_strike(strikes, area) == i,
        has_strike(strikes, area),
{
    let k = first_strike(strikes, area);
    assert(is_first_strike(strikes, area, k));
    if k < i {
        assert(strikes[k].area != area);
    }
    if i < k {
        assert(strikes[i].area != area);
    }
}

fn clear_strikes(strikes: &Vec<Strike>, area: u16) -> (r: Vec<Strike>)
    ensures
        r@ == cleared(strikes@, area),
{
    let ghost keep = |s: Strike| s.area != area;
    let mut out: Vec<Strike> = Vec::new();
    let mut i: usize = 0;
    proof {
        reveal(Seq::filter);
        assert(strikes@.take(0) =~= Seq::<Strike>::empty());
    }
    while i < strikes.len()
        invariant
            i <= strikes@.len(),
            keep == (|s: Strike| s.area != area),
            out@ == strikes@.take(i as int).filter(keep),
        decreases strikes@.len() - i,
    {
        proof {
            reveal(Seq::filter);
            let next = strikes@.take(i + 1);
            assert(next.drop_last() =~= strikes@.take(i as int));
            assert(next.last() == strikes@[i as int]);
        }
        if strikes[i].area != area {
            out.push(strikes[i]);
        }
        i += 1;
    }
    assert(strikes@.take(i as int) =~= strikes@);
    out
}

/// Where the first strike of an area stands.
fn find_strike(strikes: &Vec<Strike>, area: u16) -> (r: Option<usize>)
    ensures
        match r {
            Some(i) => is_first_strike(strikes@, area, i as int) && first_strike(strikes@, area)
                == i && has_strike(strikes@, area),
            None => !has_strike(strikes@, area),
        },
{
    let mut i: usize = 0;
    while i < strikes.len()
        invariant
            i <= strikes@.len(),
            forall|j: int| 0 <= j < i ==> (#[trigger] strikes@[j]).area != area,
        decreases strikes@.len() - i,
    {
        if strikes[i].area == area {
            proof {
                assert(is_first_strike(strikes@, area, i as int));
                first_strike_is_unique(strikes@, area, i as int);
            }
            return Some(i);
        }
        i += 1;
    }
    None
}

/// Filtering strikes keeps their bound.
proof fn cleared_stays_bounded(strikes: Seq<Strike>, area: u16)
    requires
        forall|i: int| 0 <= i < strikes.len() ==> (#[trigger] strikes[i]).count <= DT_VERIFY_STRIKES,
    ensures
        forall|i: int|
            0 <= i < cleared(strikes, area).len() ==> (#[trigger] cleared(strikes, area)[i]).count
                <= DT_VERIFY_STRIKES && cleared(strikes, area)[i].area != area,
    decreases strikes.len(),
{
    reveal(Seq::filter);
    if strikes.len() > 0 {
        let init = strikes.drop_last();
        assert forall|i: int| 0 <= i < init.len() implies (#[trigger] init[i]).count
            <= DT_VERIFY_STRIKES by {
            assert(init[i] == strikes[i]);
        }
        cleared_stays_bounded(init, area);
        let before = cleared(init, area);
        let after = cleared(strikes, area);
        assert(after == if strikes.last().area != area {
            before.push(strikes.last())
        } else {
            before
        });
        assert forall|i: int| 0 <= i < after.len() implies (#[trigger] after[i]).count
            <= DT_VERIFY_STRIKES && after[i].area != area by {
            if i < before.len() {
                assert(after[i] == before[i]);
            } else {
                assert(after[i] == strikes[strikes.len() - 1]);
            }
        }
    }
}

impl DtTracker {
    /// Starts a read-back pass where one is due.
    pub fn begin_verify(&mut self, hold: bool, reachable: bool, now: u64) -> (r: bool)
        ensures
            r == verify_due(old(self)@, hold, reachable, now),
            !r ==> final(self)@ == old(self)@,
            r ==> final(self)@ == (Memory { last_verify: Some(now), ..old(self)@ }),
    {
        if !reachable || !hold || self.verify_broken || self.applied.is_none() {
            return false;
        }
        if !same_request(&self.seen, &self.applied) || self.is_backing_off(now) {
            return false;
        }
        if let Some(t) = self.last_verify {
            if elapsed(now, t) < DT_VERIFY_PERIOD {
                return false;
            }
        }
        self.last_verify = Some(now);
        true
    }

    /// How many applied writes a read-back pass goes through.
    pub fn applied_len(&self) -> (r: usize)
        ensures
            r == match self@.applied {
                Some(a) => a.len(),
                None => 0,
            },
    {
        match &self.applied {
            Some(a) => a.len(),
            None => 0,
        }
    }

    /// The area whose register a read-back pass reads for the `i`-th applied
    /// write: none where the area is unreadable.
    pub fn verify_area(&self, i: usize) -> (r: Option<u16>)
        ensures
            r == match self@.applied {
                Some(a) if i < a.len() && !self@.unreadable.contains(a[i as int].area) => Some(
                    a[i as int].area,
                ),
                _ => None,
            },
    {
        match &self.applied {
            Some(a) => {
                if i >= a.len() || self.is_unreadable(a[i].area) {
                    None
                } else {
                    Some(a[i].area)
                }
            },
            None => None,
        }
    }

    fn is_unreadable(&self, area: u16) -> (r: bool)
        ensures
            r == self@.unreadable.contains(area),
    {
        let mut k: usize = 0;
        while k < self.unreadable.len()
            invariant
                k <= self.unreadable@.len(),
                forall|j: int| 0 <= j < k ==> self.unreadable@[j] != area,
            decreases self.unreadable@.len() - k,
        {
            if self.unreadable[k] == area {
                return true;
            }
            k += 1;
        }
        false
    }

    /// Takes in the register of the `i`-th applied write, or that it could not
    /// be read.
    pub fn judge(&mut self, i: usize, echo: Option<(Rgb, u8)>) -> (r: Finding)
        requires
            sound(old(self)@),
            old(self)@.applied matches Some(a) && i < a.len(),
        ensures
            (final(self)@, r) == judged(old(self)@, i as int, echo),
            sound(final(self)@),
    {
        let (color, fl) = match echo {
            None => {
                self.verify_broken = true;
                return Finding::Broken;
            },
            Some(e) => e,
        };
        let mut held: Option<Vec<ZoneWrite>> = None;
        std::mem::swap(&mut held, &mut self.applied);
        let mut list = match held {
            Some(list) => list,
            None => Vec::new(),
        };
        let z = list[i];
        proof {
            assert(self.strikes@ == old(self)@.strikes);
            cleared_stays_bounded(self.strikes@, z.area);
        }
        let expected: u8 = if z.on {
            flags::ON
        } else {
            flags::OFF
        };
        if color == z.color && fl == expected {
            self.applied = Some(list);
            self.strikes = clear_strikes(&self.strikes, z.area);
            return Finding::Agreed;
        }
        match find_strike(&self.strikes, z.area) {
            Some(k) => {
                let n: u8 = self.strikes[k].count;
                assert(n == old(self)@.strikes[k as int].count);
                if n >= DT_VERIFY_STRIKES {
                    self.applied = Some(list);
                    self.unreadable.push(z.area);
                    self.strikes = clear_strikes(&self.strikes, z.area);
                    return Finding::GaveUp;
                }
                self.strikes.set(k, Strike { area: z.area, count: n + 1 });
            },
            None => {
                self.strikes.push(Strike { area: z.area, count: 1 });
            },
        }
        list.set(
            i,
            ZoneWrite {
                area: z.area,
                color,
                on: if fl == expected {
                    z.on
                } else {
                    !z.on
                },
                effect: z.effect,
                speed: z.speed,
            },
        );
        self.applied = Some(list);
        self.verify_rewrite = true;
        assert(self@ =~= judged(old(self)@, i as int, echo).0);
        Finding::Diverged
    }
}

// ------------------------------------------------------------------ status

/// A case selector's name in messages.
pub open spec fn area_text(area: u16) -> Seq<char> {
    if area == area::ALL {
        "the whole case"@
    } else if area == area::FRONT {
        "the front"@
    } else if area == area::TOP {
        "the top"@
    } else if area == area::REAR {
        "the rear"@
    } else if area == area::AUX {
        "the aux area"@
    } else {
        "an area"@
    }
}

/// A case selector's name in messages.
pub fn area_name(area: u16) -> (r: &'static str)
    ensures
        r@ == area_text(area),
{
    if area == area::ALL {
        "the whole case"
    } else if area == area::FRONT {
        "the front"
    } else if area == area::TOP {
        "the top"
    } else if area == area::REAR {
        "the rear"
    } else if area == area::AUX {
        "the aux area"
    } else {
        "an area"
    }
}

/// Area names with commas between them.
pub open spec fn area_list(areas: Seq<u16>) -> Seq<char>
    decreases areas.len(),
{
    if areas.len() == 0 {
        Seq::empty()
    } else if areas.len() == 1 {
        area_text(areas[0])
    } else {
        area_list(areas.drop_last()) + ", "@ + area_text(areas.last())
    }
}

/// The standing note on what verification does not cover.
pub open spec fn note(broken: bool, unreadable: Seq<u16>) -> Option<Seq<char>> {
    if broken {
        Some("case read-back unavailable — hold won't re-assert the case"@)
    } else if unreadable.len() == 0 {
        None
    } else {
        Some(area_list(unreadable) + " doesn't echo our writes — hold isn't re-asserting it"@)
    }
}

/// An optional text by content.
pub open spec fn text_of(s: Option<String>) -> Option<Seq<char>> {
    match s {
        Some(x) => Some(x@),
        None => None,
    }
}

/// The standing note on what verification does not cover.
pub fn verify_note(broken: bool, unreadable: &[u16]) -> (r: Option<String>)
    ensures
        text_of(r) == note(broken, unreadable@),
{
    if broken {
        return Some("case read-back unavailable — hold won't re-assert the case".to_string());
    }
    if unreadable.len() == 0 {
        return None;
    }
    let mut out = String::new();
    let mut i: usize = 0;
    assert(out@ =~= area_list(unreadable@.take(0)));
    while i < unreadable.len()
        invariant
            i <= unreadable@.len(),
            out@ == area_list(unreadable@.take(i as int)),
        decreases unreadable@.len() - i,
    {
        if i > 0 {
            out.append(", ");
        }
        out.append(area_name(unreadable[i]));
        proof {
            let next = unreadable@.take(i + 1);
            assert(next.drop_last() =~= unreadable@.take(i as int));
            assert(out@ =~= area_list(next));
        }
        i += 1;
    }
    assert(unreadable@.take(i as int) =~= unreadable@);
    out.append(" doesn't echo our writes — hold isn't re-asserting it");
    Some(out)
}

impl DtTracker {
    /// The standing note on what verification does not cover.
    pub fn verify_note(&self) -> (r: Option<String>)
        ensures
            text_of(r) == note(self@.verify_broken, self@.unreadable),
    {
        verify_note(self.verify_broken, self.unreadable.as_slice())
    }
}

/// The status that a failed register read leaves.
pub fn read_failure(error: &str) -> (r: String)
    ensures
        r@ == "case read-back unavailable ("@ + error@ + ") — hold won't re-assert the case"@,
{
    let mut out = String::new();
    out.append("case read-back unavailable (");
    out.append(error);
    out.append(") — hold won't re-assert the case");
    assert(out@ =~= "case read-back unavailable ("@ + error@
        + ") — hold won't re-assert the case"@);
    out
}

/// The status of a case that cannot be reached.
pub fn unreachable_status() -> (r: String)
    ensures
        r@ == "case unavailable: not elevated"@,
{
    "case unavailable: not elevated".to_string()
}

/// Keeps the case status, and reports it only when its text changes.
pub fn set_dt_error(dt_error: &mut Option<String>, next: Option<String>) -> (r: Option<EngineEvent>)
    ensures
        text_of(*final(dt_error)) == text_of(next),
        match r {
            None => text_of(*old(dt_error)) == text_of(next),
            Some(EngineEvent::DtStatus { available, error }) => text_of(*old(dt_error)) != text_of(
                next,
            ) && available && text_of(error) == text_of(next),
            Some(_) => false,
        },
{
    let same = match (&*dt_error, &next) {
        (None, None) => true,
        (Some(a), Some(b)) => *a == *b,
        _ => false,
    };
    if same {
        return None;
    }
    let report = match &next {
        Some(t) => Some(t.clone()),
        None => None,
    };
    *dt_error = next;
    Some(EngineEvent::DtStatus { available: true, error: report })
}

// ----------------------------------------------------------------- writing

/// The message that refuses an effect.
pub open spec fn refusal(fx: DtEffect) -> Seq<char> {
    "effect '"@ + fx.name() + "' has no Frida capture yet — static only"@
}

/// The transaction of one write. An effect that no capture backs on that area
/// is refused: guessed bytes stall the controller.
pub fn zone_transaction(z: &ZoneWrite) -> (r: Result<Transaction, String>)
    ensures
        match r {
            Ok(t) => {
                &&& z.effect.captured_for(z.area)
                &&& t.behavior@ == behavior(z.area, z.effect, z.speed)
                &&& t.word == color_word(
                    z.area,
                    sent_color(z.color, z.effect),
                    flag_of(z.on),
                    z.effect.captured().trailer,
                )
            },
            Err(e) => !z.effect.captured_for(z.area) && e@ == refusal(z.effect),
        },
{
    if !z.effect.is_supported_for(z.area) {
        let mut out = String::new();
        out.append("effect '");
        out.append(z.effect.label());
        out.append("' has no Frida capture yet — static only");
        assert(out@ =~= refusal(z.effect));
        return Err(out);
    }
    Ok(effect_transaction(z.area, z.color, z.on, z.effect, z.speed))
}

/// The transaction of the write that follows the first `done` writes of a plan,
/// or why it is refused: none where the plan is done.
pub fn next_write(writes: &Vec<ZoneWrite>, done: usize) -> (r: Option<Result<Transaction, String>>)
    ensures
        r is None <==> done >= writes@.len(),
        match r {
            Some(Ok(t)) => {
                let z = writes@[done as int];
                &&& z.effect.captured_for(z.area)
                &&& t.behavior@ == behavior(z.area, z.effect, z.speed)
                &&& t.word == color_word(
                    z.area,
                    sent_color(z.color, z.effect),
                    flag_of(z.on),
                    z.effect.captured().trailer,
                )
            },
            Some(Err(e)) => {
                let z = writes@[done as int];
                !z.effect.captured_for(z.area) && e@ == refusal(z.effect)
            },
            None => true,
        },
{
    if done < writes.len() {
        Some(zone_transaction(&writes[done]))
    } else {
        None
    }
}

/// The five selectors go by five names, and no other selector by one of them.
pub proof fn areas_go_by_their_own_names(a: u16, b: u16)
    ensures
        (a == 1 || a == 2 || a == 4 || a == 8 || a == 16) ==> (area_text(a) == area_text(b) <==> a
            == b),
        contains_text(area_text(1), "case"@),
        contains_text(area_text(2), "top"@),
        contains_text(area_text(4), "front"@),
        contains_text(area_text(8), "aux"@),
        contains_text(area_text(16), "rear"@),
{
    reveal_strlit("the whole case");
    reveal_strlit("the front");
    reveal_strlit("the top");
    reveal_strlit("the rear");
    reveal_strlit("the aux area");
    reveal_strlit("an area");
    reveal_strlit("case");
    reveal_strlit("top");
    reveal_strlit("front");
    reveal_strlit("aux");
    reveal_strlit("rear");
    let x = area_text(a);
    let y = area_text(b);
    if x == y {
        assert(x.len() == y.len() && x[4] == y[4] && x[5] == y[5]);
    }
    assert("the whole case"@.subrange(10, 14) =~= "case"@);
    assert(occurs_at(area_text(1), "case"@, 10));
    assert("the top"@.subrange(4, 7) =~= "top"@);
    assert(occurs_at(area_text(2), "top"@, 4));
    assert("the front"@.subrange(4, 9) =~= "front"@);
    assert(occurs_at(area_text(4), "front"@, 4));
    assert("the aux area"@.subrange(4, 7) =~= "aux"@);
    assert(occurs_at(area_text(8), "aux"@, 4));
    assert("the rear"@.subrange(4, 8) =~= "rear"@);
    assert(occurs_at(area_text(16), "rear"@, 4));
}

proof fn lists_name_each_area(areas: Seq<u16>, i: int)
    requires
        0 <= i < areas.len(),
    ensures
        contains_text(area_list(areas), area_text(areas[i])),
    decreases areas.len(),
{
    let none = Seq::<char>::empty();
    let text = area_text(areas[i]);
    if areas.len() == 1 {
        joined_texts_contain_their_parts(none, text, none);
        assert(none + text + none =~= text);
    } else if i == areas.len() - 1 {
        let front = area_list(areas.drop_last()) + ", "@;
        joined_texts_contain_their_parts(front, text, none);
        assert(front + text + none =~= front + text);
    } else {
        let rest = areas.drop_last();
        lists_name_each_area(rest, i);
        assert(rest[i] == areas[i]);
        contained_in_a_longer_text(area_list(rest), text, ", "@);
        contained_in_a_longer_text(area_list(rest) + ", "@, text, area_text(areas.last()));
    }
}

/// There is a note exactly where reading back does not work or some area does not
/// echo; and it names every area that does not.
pub proof fn notes_name_what_is_not_covered(broken: bool, unreadable: Seq<u16>, i: int)
    ensures
        note(broken, unreadable) is None <==> !broken && unreadable.len() == 0,
        !broken && 0 <= i < unreadable.len() ==> (note(broken, unreadable) matches Some(t)
            && contains_text(t, area_text(unreadable[i]))),
        note(true, unreadable) == note(true, Seq::empty()),
{
    if !broken && 0 <= i < unreadable.len() {
        let end = " doesn't echo our writes — hold isn't re-asserting it"@;
        lists_name_each_area(unreadable, i);
        contained_in_a_longer_text(area_list(unreadable), area_text(unreadable[i]), end);
    }
}

/// A refusal names the effect that it refuses.
pub proof fn refusals_name_the_effect(fx: DtEffect)
    ensures
        contains_text(refusal(fx), fx.name()),
{
    joined_texts_contain_their_parts(
        "effect '"@,
        fx.name(),
        "' has no Frida capture yet — static only"@,
    );
}

/// A write is sent where its effect is captured for its area, and refused
/// otherwise; what is sent names the area in both its parts and carries the
/// flags of on or off.
pub proof fn transactions_carry_the_write(z: &ZoneWrite, r: Result<Transaction, String>)
    requires
        call_ensures(zone_transaction, (z,), r),
    ensures
        r is Ok <==> z.area == 1 || z.effect == DtEffect::Static,
        r matches Ok(t) ==> {
            &&& t.behavior@[0] + 256 * t.behavior@[1] == z.area
            &&& t.word as int % 0x1_0000 == z.area
            &&& (t.word as int / 0x100_0000_0000) % 256 == (if z.on {
                0x09
            } else {
                0x01int
            })
        },
{
    behavior_bytes(z.area, z.effect, z.speed, 8);
    color_word_bytes(
        z.area,
        sent_color(z.color, z.effect),
        flag_of(z.on),
        z.effect.captured().trailer,
    );
    flags_and_trailers_are_the_captured_ones(z.on, z.effect);
}

} // verus!
