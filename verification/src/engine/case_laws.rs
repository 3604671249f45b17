//! What the case write scheduler guarantees, over a model of the case: every
//! area shows a look, a broadcast repaints all of them, any other write repaints
//! its own.

pub mod requests;
pub mod retries;

use vstd::prelude::*;

use crate::dt::{area, behavior, sent_color, tidy_areas, DtEffect, DtState};
use crate::engine::tracker::{
    after_success, applied_after, as_echoed, backing_off, changed, choose_step, covers, dropped,
    first_for, first_strike, global_on, has_strike, is_first_for, is_first_strike, judged,
    override_write, patched_all, plan, resolved, since, stranded, strike_count, struck, wake_after,
    Choice, Finding, Memory, Strike, ZoneWrite, DT_SETTLE, DT_VERIFY_STRIKES,
};
use crate::rgb::Rgb;

verus! {

// --------------------------------------------------------------- the model

/// What an area shows.
pub struct Look {
    pub color: Rgb,
    pub on: bool,
    pub effect: DtEffect,
    pub speed: u8,
}

/// The look that a write gives.
pub open spec fn look(z: ZoneWrite) -> Look {
    Look { color: z.color, on: z.on, effect: z.effect, speed: z.speed }
}

/// The case once a write has landed.
pub open spec fn painted(case: spec_fn(u16) -> Look, z: ZoneWrite) -> spec_fn(u16) -> Look {
    |a: u16|
        if z.area == area::ALL || z.area == a {
            look(z)
        } else {
            case(a)
        }
}

/// The case once a run of writes has landed, in order.
pub open spec fn painted_all(case: spec_fn(u16) -> Look, writes: Seq<ZoneWrite>) -> spec_fn(
    u16,
) -> Look
    decreases writes.len(),
{
    if writes.len() == 0 {
        case
    } else {
        painted(painted_all(case, writes.drop_last()), writes.last())
    }
}

/// Whether no two writes are for one area.
pub open spec fn distinct(writes: Seq<ZoneWrite>) -> bool {
    forall|i: int, j: int|
        0 <= i < j < writes.len() ==> (#[trigger] writes[i]).area != (#[trigger] writes[j]).area
}

/// Whether no write is a broadcast.
pub open spec fn local(writes: Seq<ZoneWrite>) -> bool {
    forall|i: int| 0 <= i < writes.len() ==> (#[trigger] writes[i]).area != area::ALL
}

/// A list of writes as a request implies it: a broadcast, then at most one
/// override an area.
pub open spec fn well_shaped(writes: Seq<ZoneWrite>) -> bool {
    &&& writes.len() > 0
    &&& writes[0].area == area::ALL
    &&& local(writes.skip(1))
    &&& distinct(writes)
}

/// Where the override of an area stands.
pub open spec fn override_at(writes: Seq<ZoneWrite>, a: u16) -> int {
    choose|i: int| 1 <= i < writes.len() && (#[trigger] writes[i]).area == a
}

pub open spec fn overridden(writes: Seq<ZoneWrite>, a: u16) -> bool {
    exists|i: int| 1 <= i < writes.len() && (#[trigger] writes[i]).area == a
}

/// What an area shows under a list of writes: its override, or the global look.
pub open spec fn shown(writes: Seq<ZoneWrite>, a: u16) -> Look {
    if overridden(writes, a) {
        look(writes[override_at(writes, a)])
    } else {
        look(writes[0])
    }
}

// ----------------------------------------------------------------- helpers

/// A tidy request implies a well-shaped list of writes.
pub proof fn tidy_requests_are_well_shaped(want: DtState)
    requires
        tidy_areas(want.areas@),
    ensures
        well_shaped(resolved(want)),
{
    let r = resolved(want);
    assert forall|i: int| 1 <= i < r.len() implies (#[trigger] r[i]).area == want.areas@[i
        - 1].area by {}
    assert forall|i: int| 0 <= i < r.skip(1).len() implies (#[trigger] r.skip(1)[i]).area
        != area::ALL by {
        assert(r.skip(1)[i] == r[i + 1]);
        assert(want.areas@[i].area != area::ALL);
    }
    assert forall|i: int, j: int| 0 <= i < j < r.len() implies (#[trigger] r[i]).area != (
    #[trigger] r[j]).area by {
        assert(want.areas@[j - 1].area != area::ALL);
        if i > 0 {
            assert(want.areas@[i - 1].area != want.areas@[j - 1].area);
        }
    }
}

proof fn override_is(writes: Seq<ZoneWrite>, i: int)
    requires
        distinct(writes),
        1 <= i < writes.len(),
    ensures
        overridden(writes, writes[i].area),
        override_at(writes, writes[i].area) == i,
        shown(writes, writes[i].area) == look(writes[i]),
{
    let a = writes[i].area;
    let k = override_at(writes, a);
    assert(1 <= k < writes.len() && writes[k].area == a);
    if k < i {
        assert(writes[k].area != writes[i].area);
    }
    if i < k {
        assert(writes[i].area != writes[k].area);
    }
}

proof fn covers_is_overridden(writes: Seq<ZoneWrite>, a: u16)
    ensures
        writes.len() > 0 ==> covers(writes.skip(1), a) == overridden(writes, a),
{
    if writes.len() > 0 {
        if covers(writes.skip(1), a) {
            let i = choose|i: int| 0 <= i < writes.skip(1).len() && (#[trigger] writes.skip(1)[i]).area == a;
            assert(writes[i + 1].area == a);
        }
        if overridden(writes, a) {
            let i = override_at(writes, a);
            assert(writes.skip(1)[i - 1].area == a);
        }
    }
}

/// Painting areas one by one leaves each with its own write.
proof fn painting_areas(case: spec_fn(u16) -> Look, writes: Seq<ZoneWrite>, a: u16)
    requires
        local(writes),
        distinct(writes),
        a != area::ALL,
    ensures
        forall|i: int|
            0 <= i < writes.len() && (#[trigger] writes[i]).area == a ==> painted_all(
                case,
                writes,
            )(a) == look(writes[i]),
        !covers(writes, a) ==> painted_all(case, writes)(a) == case(a),
    decreases writes.len(),
{
    if writes.len() > 0 {
        let init = writes.drop_last();
        assert forall|i: int, j: int| 0 <= i < j < init.len() implies (#[trigger] init[i]).area != (
        #[trigger] init[j]).area by {
            assert(writes[i].area != writes[j].area);
        }
        assert forall|i: int| 0 <= i < init.len() implies (#[trigger] init[i]).area
            != area::ALL by {
            assert(writes[i].area != area::ALL);
        }
        painting_areas(case, init, a);
        let last = writes.last();
        assert(last == writes[writes.len() - 1]);
        assert forall|i: int| 0 <= i < writes.len() && (#[trigger] writes[i]).area
            == a implies painted_all(case, writes)(a) == look(writes[i]) by {
            if i < init.len() {
                assert(init[i].area == a);
                assert(writes[i].area != last.area);
            }
        }
        if !covers(writes, a) {
            assert(last.area != a);
            assert(!covers(init, a)) by {
                if covers(init, a) {
                    let i = choose|i: int| 0 <= i < init.len() && (#[trigger] init[i]).area == a;
                    assert(writes[i].area == a);
                }
            }
        }
    }
}

proof fn prefix_is_well_shaped(writes: Seq<ZoneWrite>, n: int)
    requires
        well_shaped(writes),
        1 <= n <= writes.len(),
    ensures
        well_shaped(writes.take(n)),
{
    let t = writes.take(n);
    assert forall|i: int| 0 <= i < t.skip(1).len() implies (#[trigger] t.skip(1)[i]).area
        != area::ALL by {
        assert(writes.skip(1)[i].area != area::ALL);
    }
    assert forall|i: int, j: int| 0 <= i < j < t.len() implies (#[trigger] t[i]).area != (
    #[trigger] t[j]).area by {
        assert(writes[i].area != writes[j].area);
    }
}

/// Painting a broadcast and what follows it leaves exactly that list showing,
/// whatever the case showed before.
proof fn painting_from_a_broadcast(case: spec_fn(u16) -> Look, writes: Seq<ZoneWrite>, a: u16)
    requires
        well_shaped(writes),
        a != area::ALL,
    ensures
        painted_all(case, writes)(a) == shown(writes, a),
    decreases writes.len(),
{
    let init = writes.drop_last();
    let last = writes.last();
    if writes.len() == 1 {
        assert(painted_all(case, writes) == painted(painted_all(case, init), last));
        assert(!overridden(writes, a));
    } else {
        prefix_is_well_shaped(writes, writes.len() - 1);
        assert(init =~= writes.take(writes.len() - 1));
        painting_from_a_broadcast(case, init, a);
        assert(writes.skip(1)[writes.len() - 2] == last);
        assert(last.area != area::ALL);
        if last.area == a {
            override_is(writes, writes.len() - 1);
        } else {
            shown_without_last(writes, a);
        }
    }
}

proof fn shown_without_last(writes: Seq<ZoneWrite>, a: u16)
    requires
        well_shaped(writes),
        writes.len() > 1,
        writes.last().area != a,
    ensures
        shown(writes, a) == shown(writes.drop_last(), a),
{
    let init = writes.drop_last();
    prefix_is_well_shaped(writes, writes.len() - 1);
    assert(init =~= writes.take(writes.len() - 1));
    if overridden(writes, a) {
        let i = override_at(writes, a);
        assert(i < writes.len() - 1);
        assert(init[i].area == a);
        override_is(init, i);
    } else {
        assert(!overridden(init, a)) by {
            if overridden(init, a) {
                let i = override_at(init, a);
                assert(writes[i].area == a);
            }
        }
    }
}

/// Filtering keeps order, keeps areas apart, and keeps exactly what it is asked
/// to keep.
proof fn filtering(writes: Seq<ZoneWrite>, keep: spec_fn(ZoneWrite) -> bool)
    ensures
        forall|i: int|
            0 <= i < writes.filter(keep).len() ==> keep(#[trigger] writes.filter(keep)[i])
                && writes.contains(writes.filter(keep)[i]),
        forall|i: int|
            0 <= i < writes.len() && keep(#[trigger] writes[i]) ==> writes.filter(keep).contains(
                writes[i],
            ),
        distinct(writes) ==> distinct(writes.filter(keep)),
        writes.len() > 0 && keep(writes[0]) ==> writes.filter(keep).len() > 0 && writes.filter(
            keep,
        )[0] == writes[0],
    decreases writes.len(),
{
    reveal(Seq::filter);
    if writes.len() > 0 {
        let init = writes.drop_last();
        let last = writes.last();
        filtering(init, keep);
        let before = init.filter(keep);
        let after = writes.filter(keep);
        assert(after == if keep(last) {
            before.push(last)
        } else {
            before
        });
        assert forall|i: int| 0 <= i < after.len() implies keep(#[trigger] after[i])
            && writes.contains(after[i]) by {
            if i < before.len() {
                assert(after[i] == before[i]);
                assert(init.contains(before[i]));
                let k = choose|k: int| 0 <= k < init.len() && init[k] == before[i];
                assert(writes[k] == before[i]);
            } else {
                assert(after[i] == last);
                assert(writes[writes.len() - 1] == last);
            }
        }
        assert forall|i: int| 0 <= i < writes.len() && keep(
            #[trigger] writes[i],
        ) implies after.contains(writes[i]) by {
            if i < init.len() {
                assert(keep(init[i]));
                assert(before.contains(init[i]));
                let k = choose|k: int| 0 <= k < before.len() && before[k] == init[i];
                assert(after[k] == writes[i]);
            } else {
                assert(after[after.len() - 1] == writes[i]);
            }
        }
        if distinct(writes) {
            assert(distinct(init)) by {
                assert forall|i: int, j: int| 0 <= i < j < init.len() implies (
                #[trigger] init[i]).area != (#[trigger] init[j]).area by {
                    assert(writes[i].area != writes[j].area);
                }
            }
            assert forall|i: int, j: int| 0 <= i < j < after.len() implies (
            #[trigger] after[i]).area != (#[trigger] after[j]).area by {
                if j < before.len() {
                    assert(before[i].area != before[j].area);
                } else {
                    assert(after[j] == last);
                    assert(after[i] == before[i]);
                    assert(init.contains(before[i]));
                    let k = choose|k: int| 0 <= k < init.len() && init[k] == before[i];
                    assert(writes[k].area != writes[writes.len() - 1].area);
                }
            }
        }
    }
}

proof fn skipped(writes: Seq<ZoneWrite>)
    requires
        writes.len() > 0,
        distinct(writes),
    ensures
        distinct(writes.skip(1)),
{
    let s = writes.skip(1);
    assert forall|i: int, j: int| 0 <= i < j < s.len() implies (#[trigger] s[i]).area != (
    #[trigger] s[j]).area by {
        assert(writes[i + 1].area != writes[j + 1].area);
    }
}

/// What a plan without a broadcast holds: areas apart, none of them the
/// broadcast selector, and of every write whether it is a changed override or
/// the global look on an area that lost its override.
proof fn area_plans(prev: Seq<ZoneWrite>, next: Seq<ZoneWrite>)
    requires
        well_shaped(prev),
        well_shaped(next),
        next[0] == prev[0],
        !stranded(prev, next),
    ensures
        ({
            let p = plan(Some(prev), next);
            &&& local(p)
            &&& distinct(p)
            &&& forall|i: int|
                0 <= i < p.len() ==> {
                    ||| next.skip(1).contains(#[trigger] p[i]) && !prev.skip(1).contains(p[i])
                    ||| !covers(next.skip(1), p[i].area) && p[i] == global_on(next[0], p[i].area)
                }
            &&& forall|i: int|
                1 <= i < next.len() && !prev.skip(1).contains(#[trigger] next[i]) ==> p.contains(
                    next[i],
                )
            &&& forall|i: int|
                1 <= i < prev.len() && !covers(next.skip(1), (#[trigger] prev[i]).area)
                    ==> p.contains(global_on(next[0], prev[i].area))
        }),
{
    let p = plan(Some(prev), next);
    let news = changed(prev, next);
    let gone = dropped(prev, next);
    let is_changed = |z: ZoneWrite| !prev.skip(1).contains(z);
    let is_dropped = |q: ZoneWrite| !covers(next.skip(1), q.area);
    let recover = |q: ZoneWrite| global_on(next[0], q.area);
    skipped(next);
    skipped(prev);
    filtering(next.skip(1), is_changed);
    filtering(prev.skip(1), is_dropped);
    let back = gone.map_values(recover);
    assert(p == news + back);
    assert forall|i: int| 0 <= i < p.len() implies {
        ||| next.skip(1).contains(#[trigger] p[i]) && !prev.skip(1).contains(p[i])
        ||| !covers(next.skip(1), p[i].area) && p[i] == global_on(next[0], p[i].area)
    } by {
        if i < news.len() {
            assert(p[i] == news[i]);
            assert(is_changed(news[i]));
        } else {
            let k = i - news.len();
            assert(p[i] == recover(gone[k]));
            assert(is_dropped(gone[k]));
        }
    }
    assert(local(p)) by {
        assert forall|i: int| 0 <= i < p.len() implies (#[trigger] p[i]).area != area::ALL by {
            if i < news.len() {
                assert(next.skip(1).contains(news[i]));
                let k = choose|k: int| 0 <= k < next.skip(1).len() && next.skip(1)[k] == news[i];
                assert(next.skip(1)[k].area != area::ALL);
            } else {
                let m = i - news.len();
                assert(p[i] == recover(gone[m]));
                assert(prev.skip(1).contains(gone[m]));
                let k = choose|k: int| 0 <= k < prev.skip(1).len() && prev.skip(1)[k] == gone[m];
                assert(prev.skip(1)[k].area != area::ALL);
            }
        }
    }
    assert(distinct(p)) by {
        assert forall|i: int, j: int| 0 <= i < j < p.len() implies (#[trigger] p[i]).area != (
        #[trigger] p[j]).area by {
            if j < news.len() {
                assert(news[i].area != news[j].area);
            } else if i >= news.len() {
                assert(gone[i - news.len()].area != gone[j - news.len()].area);
            } else {
                assert(next.skip(1).contains(news[i]));
                let k = choose|k: int| 0 <= k < next.skip(1).len() && next.skip(1)[k] == news[i];
                assert(covers(next.skip(1), p[i].area));
                assert(p[j] == recover(gone[j - news.len()]));
                assert(is_dropped(gone[j - news.len()]));
            }
        }
    }
    assert forall|i: int| 1 <= i < next.len() && !prev.skip(1).contains(
        #[trigger] next[i],
    ) implies p.contains(next[i]) by {
        assert(next.skip(1)[i - 1] == next[i]);
        assert(is_changed(next.skip(1)[i - 1]));
        assert(news.contains(next[i]));
        let k = choose|k: int| 0 <= k < news.len() && news[k] == next[i];
        assert(p[k] == next[i]);
    }
    assert forall|i: int| 1 <= i < prev.len() && !covers(
        next.skip(1),
        (#[trigger] prev[i]).area,
    ) implies p.contains(global_on(next[0], prev[i].area)) by {
        assert(prev.skip(1)[i - 1] == prev[i]);
        assert(is_dropped(prev.skip(1)[i - 1]));
        assert(gone.contains(prev[i]));
        let k = choose|k: int| 0 <= k < gone.len() && gone[k] == prev[i];
        assert(p[news.len() + k] == recover(gone[k]));
    }
}

// -------------------------------------------------------- the plan reaches

/// A plan reaches the request: once its writes have landed on a case that shows
/// what is applied, every area shows what the request asks for. In particular a
/// removed override leaves its area with the global look, as a broadcast would.
pub proof fn plans_reach_the_request(
    case: spec_fn(u16) -> Look,
    applied: Option<Seq<ZoneWrite>>,
    next: Seq<ZoneWrite>,
    a: u16,
)
    requires
        well_shaped(next),
        applied matches Some(prev) ==> well_shaped(prev) && forall|x: u16|
            x != area::ALL ==> #[trigger] case(x) == shown(prev, x),
        a != area::ALL,
    ensures
        painted_all(case, plan(applied, next))(a) == shown(next, a),
{
    match applied {
        None => painting_from_a_broadcast(case, next, a),
        Some(prev) => if next[0] != prev[0] || stranded(prev, next) {
            painting_from_a_broadcast(case, next, a);
        } else {
            let p = plan(applied, next);
            area_plans(prev, next);
            painting_areas(case, p, a);
            assert(case(a) == shown(prev, a));
            covers_is_overridden(next, a);
            covers_is_overridden(prev, a);
            if overridden(next, a) {
                let n = override_at(next, a);
                override_is(next, n);
                let z = next[n];
                if prev.skip(1).contains(z) {
                    let k = choose|k: int| 0 <= k < prev.skip(1).len() && prev.skip(1)[k] == z;
                    assert(prev[k + 1] == z);
                    override_is(prev, k + 1);
                    assert(!covers(p, a)) by {
                        if covers(p, a) {
                            let i = choose|i: int| 0 <= i < p.len() && (#[trigger] p[i]).area == a;
                            assert(next.skip(1).contains(p[i]));
                            let m = choose|m: int|
                                0 <= m < next.skip(1).len() && next.skip(1)[m] == p[i];
                            assert(next[m + 1] == p[i]);
                            override_is(next, m + 1);
                            assert(m + 1 == n);
                        }
                    }
                } else {
                    assert(p.contains(z));
                    let i = choose|i: int| 0 <= i < p.len() && p[i] == z;
                    assert(p[i].area == a);
                }
            } else if overridden(prev, a) {
                let m = override_at(prev, a);
                assert(prev[m].area == a);
                assert(p.contains(global_on(next[0], a)));
                let i = choose|i: int| 0 <= i < p.len() && p[i] == global_on(next[0], a);
                assert(p[i].area == a);
            } else {
                assert(!covers(p, a)) by {
                    if covers(p, a) {
                        let i = choose|i: int| 0 <= i < p.len() && (#[trigger] p[i]).area == a;
                        if next.skip(1).contains(p[i]) {
                            let m = choose|m: int|
                                0 <= m < next.skip(1).len() && next.skip(1)[m] == p[i];
                            assert(next[m + 1].area == a);
                        } else {
                            recovered_was_overridden(prev, next, i);
                        }
                    }
                }
            }
        },
    }
}

/// An area that a plan gives the global look had an override.
proof fn recovered_was_overridden(prev: Seq<ZoneWrite>, next: Seq<ZoneWrite>, i: int)
    requires
        well_shaped(prev),
        well_shaped(next),
        next[0] == prev[0],
        !stranded(prev, next),
        0 <= i < plan(Some(prev), next).len(),
        !next.skip(1).contains(plan(Some(prev), next)[i]),
    ensures
        overridden(prev, plan(Some(prev), next)[i].area),
{
    let p = plan(Some(prev), next);
    let news = changed(prev, next);
    let gone = dropped(prev, next);
    let is_changed = |z: ZoneWrite| !prev.skip(1).contains(z);
    let is_dropped = |q: ZoneWrite| !covers(next.skip(1), q.area);
    filtering(next.skip(1), is_changed);
    filtering(prev.skip(1), is_dropped);
    if i < news.len() {
        assert(p[i] == news[i]);
        assert(next.skip(1).contains(news[i]));
    } else {
        let g = gone[i - news.len()];
        assert(p[i].area == g.area);
        assert(prev.skip(1).contains(g));
        let k = choose|k: int| 0 <= k < prev.skip(1).len() && prev.skip(1)[k] == g;
        assert(prev[k + 1].area == g.area);
    }
}

/// A plan can be sent: where every write of the request has a capture behind it,
/// so has every write of the plan. So a request that can be shown is not refused
/// on the way there, whatever is applied.
pub proof fn plans_can_be_sent(applied: Option<Seq<ZoneWrite>>, next: Seq<ZoneWrite>, i: int)
    requires
        well_shaped(next),
        applied matches Some(p) ==> well_shaped(p),
        forall|k: int|
            0 <= k < next.len() ==> (#[trigger] next[k]).effect.captured_for(next[k].area),
        0 <= i < plan(applied, next).len(),
    ensures
        plan(applied, next)[i].effect.captured_for(plan(applied, next)[i].area),
{
    if let Some(prev) = applied {
        if next[0] == prev[0] && !stranded(prev, next) {
            let p = plan(applied, next);
            area_plans(prev, next);
            if next.skip(1).contains(p[i]) {
                let k = choose|k: int| 0 <= k < next.skip(1).len() && next.skip(1)[k] == p[i];
                assert(next[k + 1] == p[i]);
            } else {
                recovered_was_overridden(prev, next, i);
                let k = override_at(prev, p[i].area);
                assert(prev[k].area == p[i].area);
            }
        }
    }
}

// ------------------------------------------------- failures keep the record

/// The one place of an area in a list whose areas are apart.
proof fn first_for_is(writes: Seq<ZoneWrite>, i: int)
    requires
        distinct(writes),
        0 <= i < writes.len(),
    ensures
        first_for(writes, writes[i].area) == i,
        covers(writes, writes[i].area),
{
    assert(is_first_for(writes, writes[i].area, i)) by {
        assert forall|j: int| 0 <= j < i implies (#[trigger] writes[j]).area
            != writes[i].area by {}
    }
    let k = first_for(writes, writes[i].area);
    assert(is_first_for(writes, writes[i].area, k));
    if k < i {
        assert(writes[k].area != writes[i].area);
    }
    if i < k {
        assert(writes[i].area != writes[k].area);
    }
}

/// Dropping an override leaves its area with the global look and every other
/// area as it was.
proof fn dropping_an_override(list: Seq<ZoneWrite>, x: u16, a: u16)
    requires
        well_shaped(list),
        x != area::ALL,
        a != area::ALL,
    ensures
        ({
            let kept = list.filter(|q: ZoneWrite| q.area != x);
            &&& well_shaped(kept)
            &&& kept[0] == list[0]
            &&& shown(kept, a) == if a == x {
                look(list[0])
            } else {
                shown(list, a)
            }
        }),
{
    let keep = |q: ZoneWrite| q.area != x;
    let kept = list.filter(keep);
    filtering(list, keep);
    assert(keep(list[0]));
    assert(local(kept.skip(1))) by {
        assert forall|i: int| 0 <= i < kept.skip(1).len() implies (#[trigger] kept.skip(1)[i]).area
            != area::ALL by {
            assert(kept[0].area != kept[i + 1].area);
        }
    }
    if overridden(kept, a) {
        let i = override_at(kept, a);
        assert(kept[i].area == a);
        assert(keep(kept[i]));
        assert(list.contains(kept[i]));
        let k = choose|k: int| 0 <= k < list.len() && list[k] == kept[i];
        assert(k > 0);
        override_is(list, k);
        override_is(kept, i);
    } else if a != x && overridden(list, a) {
        let k = override_at(list, a);
        assert(keep(list[k]));
        assert(kept.contains(list[k]));
        let i = choose|i: int| 0 <= i < kept.len() && kept[i] == list[k];
        assert(i > 0);
        assert(kept[i].area == a);
    }
}

/// Replacing the override of an area changes what that area shows and nothing
/// else.
proof fn replacing_an_override(list: Seq<ZoneWrite>, z: ZoneWrite, k: int, a: u16)
    requires
        well_shaped(list),
        1 <= k < list.len(),
        list[k].area == z.area,
        a != area::ALL,
    ensures
        well_shaped(list.update(k, z)),
        list.update(k, z)[0] == list[0],
        shown(list.update(k, z), a) == if a == z.area {
            look(z)
        } else {
            shown(list, a)
        },
{
    let after = list.update(k, z);
    assert forall|i: int| 0 <= i < after.len() implies (#[trigger] after[i]).area
        == list[i].area by {}
    assert(local(after.skip(1))) by {
        assert forall|i: int| 0 <= i < after.skip(1).len() implies (
        #[trigger] after.skip(1)[i]).area != area::ALL by {
            assert(after.skip(1)[i] == after[i + 1]);
            assert(list.skip(1)[i].area != area::ALL);
        }
    }
    assert(distinct(after)) by {
        assert forall|i: int, j: int| 0 <= i < j < after.len() implies (#[trigger] after[i]).area
            != (#[trigger] after[j]).area by {
            assert(list[i].area != list[j].area);
        }
    }
    override_is(after, k);
    if a != z.area {
        if overridden(list, a) {
            let m = override_at(list, a);
            override_is(list, m);
            override_is(after, m);
        } else {
            assert(!overridden(after, a)) by {
                if overridden(after, a) {
                    let m = override_at(after, a);
                    assert(list[m].area == a);
                }
            }
        }
    }
}

/// Adding an override for an area that has none changes what that area shows
/// and nothing else.
proof fn adding_an_override(list: Seq<ZoneWrite>, z: ZoneWrite, a: u16)
    requires
        well_shaped(list),
        z.area != area::ALL,
        !covers(list, z.area),
        a != area::ALL,
    ensures
        well_shaped(list.push(z)),
        list.push(z)[0] == list[0],
        shown(list.push(z), a) == if a == z.area {
            look(z)
        } else {
            shown(list, a)
        },
{
    let after = list.push(z);
    assert(local(after.skip(1))) by {
        assert forall|i: int| 0 <= i < after.skip(1).len() implies (
        #[trigger] after.skip(1)[i]).area != area::ALL by {
            assert(after.skip(1)[i] == after[i + 1]);
            if i + 1 < list.len() {
                assert(list.skip(1)[i].area != area::ALL);
            }
        }
    }
    assert(distinct(after)) by {
        assert forall|i: int, j: int| 0 <= i < j < after.len() implies (#[trigger] after[i]).area
            != (#[trigger] after[j]).area by {
            if j < list.len() {
                assert(list[i].area != list[j].area);
            } else {
                assert(list[i].area != z.area);
            }
        }
    }
    override_is(after, list.len() as int);
    if a != z.area {
        shown_without_last(after, a);
        assert(after.drop_last() =~= list);
    }
}

/// Recording the landed writes of an area plan one by one keeps the record in
/// step with the case.
proof fn patching_tracks_the_case(
    case: spec_fn(u16) -> Look,
    prev: Seq<ZoneWrite>,
    next: Seq<ZoneWrite>,
    done: int,
    a: u16,
)
    requires
        well_shaped(prev),
        well_shaped(next),
        next[0] == prev[0],
        !stranded(prev, next),
        forall|x: u16| x != area::ALL ==> #[trigger] case(x) == shown(prev, x),
        0 <= done <= plan(Some(prev), next).len(),
        a != area::ALL,
    ensures
        ({
            let landed = plan(Some(prev), next).take(done);
            let record = patched_all(prev, next, landed);
            &&& well_shaped(record)
            &&& record[0] == prev[0]
            &&& shown(record, a) == painted_all(case, landed)(a)
        }),
    decreases done,
{
    let p = plan(Some(prev), next);
    let landed = p.take(done);
    if done == 0 {
        assert(case(a) == shown(prev, a));
    } else {
        let fewer = p.take(done - 1);
        assert(landed.drop_last() =~= fewer);
        let z = p[done - 1];
        assert(landed.last() == z);
        let before = patched_all(prev, next, fewer);
        patching_tracks_the_case(case, prev, next, done - 1, a);
        area_plans(prev, next);
        assert(z.area != area::ALL);
        if !covers(next.skip(1), z.area) {
            assert(!next.skip(1).contains(z)) by {
                if next.skip(1).contains(z) {
                    let k = choose|k: int| 0 <= k < next.skip(1).len() && next.skip(1)[k] == z;
                    assert(next.skip(1)[k].area == z.area);
                }
            }
            assert(z == global_on(next[0], z.area));
            dropping_an_override(before, z.area, a);
        } else if covers(before, z.area) {
            let k = choose|k: int| 0 <= k < before.len() && (#[trigger] before[k]).area == z.area;
            assert(k > 0);
            first_for_is(before, k);
            replacing_an_override(before, z, k, a);
        } else {
            adding_an_override(before, z, a);
        }
    }
}

/// A failed plan keeps the record in step with the case: after any number of
/// writes have landed, what the scheduler holds for applied is what the case
/// shows. So the next plan again reaches the request.
pub proof fn failures_keep_the_record(
    case: spec_fn(u16) -> Look,
    applied: Option<Seq<ZoneWrite>>,
    next: Seq<ZoneWrite>,
    done: int,
    a: u16,
)
    requires
        well_shaped(next),
        applied matches Some(prev) ==> well_shaped(prev) && forall|x: u16|
            x != area::ALL ==> #[trigger] case(x) == shown(prev, x),
        0 <= done <= plan(applied, next).len(),
        a != area::ALL,
    ensures
        match applied_after(applied, next, plan(applied, next), done) {
            Some(record) => {
                &&& well_shaped(record)
                &&& shown(record, a) == painted_all(case, plan(applied, next).take(done))(a)
            },
            None => applied is None && done == 0,
        },
{
    let p = plan(applied, next);
    let landed = p.take(done);
    if done == 0 {
        if let Some(prev) = applied {
            assert(case(a) == shown(prev, a));
        }
    } else if p == next {
        prefix_is_well_shaped(next, done);
        painting_from_a_broadcast(case, landed, a);
        assert(landed[0].area == area::ALL);
    } else {
        let prev = applied.unwrap();
        area_plans(prev, next);
        assert(landed[0] == p[0]);
        patching_tracks_the_case(case, prev, next, done, a);
    }
}

/// The scheduler stays well-formed under tidy requests: a record that starts
/// with a global look still does after a failure.
pub proof fn failures_keep_the_shape(
    applied: Option<Seq<ZoneWrite>>,
    next: Seq<ZoneWrite>,
    done: int,
)
    requires
        well_shaped(next),
        applied matches Some(prev) ==> well_shaped(prev),
        0 <= done <= plan(applied, next).len(),
    ensures
        applied_after(applied, next, plan(applied, next), done) matches Some(record)
            ==> well_shaped(record),
{
    let case = |x: u16|
        match applied {
            Some(prev) => shown(prev, x),
            None => look(next[0]),
        };
    failures_keep_the_record(case, applied, next, done, area::FRONT);
}

// ------------------------------------------------------------ when it writes

/// What is diffed is what is sent: the color and the speed of every write that a
/// request implies go on the wire as they stand.
pub proof fn diffs_follow_the_wire(want: DtState, i: int)
    requires
        0 <= i < resolved(want).len(),
    ensures
        ({
            let z = resolved(want)[i];
            &&& z.effect.sent_speed(z.speed) == z.speed
            &&& behavior(z.area, z.effect, z.speed)[5] == z.speed
            &&& sent_color(z.color, z.effect) == z.color
        }),
{
    let z = resolved(want)[i];
    if i > 0 {
        assert(z == override_write(want.areas@[i - 1]));
    }
}

/// A still case ignores the speed: requests for a static case that differ in
/// nothing else imply the same writes.
pub proof fn a_still_case_ignores_the_speed(want: DtState, other: DtState)
    requires
        want.effect == DtEffect::Static,
        want.same_as(DtState { speed: want.speed, ..other }),
    ensures
        resolved(want) == resolved(other),
{
    assert(resolved(want) =~= resolved(other));
}

/// A case that shows an effect's own palette ignores the picked color: requests
/// for it that differ in nothing else imply the same writes.
pub proof fn a_palette_case_ignores_the_color(want: DtState, other: DtState)
    requires
        !want.effect.captured().takes_color,
        want.same_as(DtState { color: want.color, ..other }),
    ensures
        resolved(want) == resolved(other),
{
    assert(resolved(want) =~= resolved(other));
}

/// A write waits for the request to settle: it comes only where the case can be
/// reached, the request has stood still long enough, no failure is fresh, and
/// the request differs from what is applied.
pub proof fn writes_wait_for_the_request_to_settle(
    m: Memory,
    want: Option<Seq<ZoneWrite>>,
    reachable: bool,
    now: u64,
)
    requires
        choose_step(m, want, reachable, now).1 is Write,
    ensures
        reachable,
        want is Some,
        m.seen == want,
        m.applied != want,
        m.changed_at matches Some(t) ==> since(now, t) >= DT_SETTLE,
        !backing_off(m, now),
{
}

/// A request that moves is not written, and restarts the wait: a drag through
/// many values collapses into one write.
pub proof fn a_moving_request_waits_again(
    m: Memory,
    next: Seq<ZoneWrite>,
    reachable: bool,
    now: u64,
    later: u64,
)
    requires
        m.seen != Some(next),
        now <= later < now + DT_SETTLE,
    ensures
        ({
            let (moved, first) = choose_step(m, Some(next), reachable, now);
            let (_, second) = choose_step(moved, Some(next), reachable, later);
            first == Choice::Idle && second == Choice::Idle
        }),
{
}

/// What is applied is never written again: once a plan has landed, the same
/// request asks for nothing, however long it stands.
pub proof fn applied_requests_ask_for_nothing(
    m: Memory,
    next: Seq<ZoneWrite>,
    reachable: bool,
    now: u64,
    later: u64,
)
    requires
        m.seen == Some(next),
    ensures
        ({
            let done = after_success(m, next, now);
            choose_step(done, Some(next), reachable, later) == (done, Choice::Idle)
        }),
{
}

/// Disabling the case writes nothing, and enabling it again replays the request
/// in full.
pub proof fn re_enabling_replays_in_full(
    m: Memory,
    next: Seq<ZoneWrite>,
    off: u64,
    on: u64,
    later: u64,
)
    requires
        off <= on,
        on + DT_SETTLE <= later,
    ensures
        ({
            let (idle, first) = choose_step(m, None, true, off);
            let (seen, second) = choose_step(idle, Some(next), true, on);
            let (_, third) = choose_step(seen, Some(next), true, later);
            first == Choice::Idle && second == Choice::Idle && third == Choice::Write(next)
        }),
{
}

/// The loop wakes in time: sleeping for as long as the scheduler allows brings
/// the loop to where the pending write goes out.
pub proof fn waking_brings_the_write(m: Memory, next: Seq<ZoneWrite>, now: u64, later: u64)
    requires
        m.seen == Some(next),
        m.changed_at matches Some(t) ==> t <= now,
        m.failed_at matches Some(t) ==> t <= now,
        wake_after(m, now) matches Some(d) && later == now + d,
    ensures
        choose_step(m, Some(next), true, later).1 == Choice::Write(plan(m.applied, next)),
{
}

// ------------------------------------------------------------- verification

/// Nothing diverged, nothing written: an area that agrees leaves what is applied
/// as it was.
pub proof fn agreement_changes_nothing_applied(m: Memory, i: int, echo: Option<(Rgb, u8)>)
    requires
        judged(m, i, echo).1 == Finding::Agreed,
    ensures
        judged(m, i, echo).0.applied == m.applied,
        judged(m, i, echo).0.verify_rewrite == m.verify_rewrite,
{
}

/// A diverged area is brought back: the next plan writes it again, alone where
/// it is an override, with everything else where it is the global look.
pub proof fn diverged_areas_are_rewritten(m: Memory, r: Seq<ZoneWrite>, i: int, echo: (Rgb, u8))
    requires
        well_shaped(r),
        m.applied == Some(r),
        0 <= i < r.len(),
        judged(m, i, Some(echo)).1 == Finding::Diverged,
    ensures
        i == 0 ==> plan(judged(m, i, Some(echo)).0.applied, r) == r,
        i > 0 ==> plan(judged(m, i, Some(echo)).0.applied, r) == seq![r[i]],
{
    let z = as_echoed(r[i], echo);
    let seen = r.update(i, z);
    if i > 0 {
        replacing_an_override(r, z, i, area::FRONT);
        assert(!stranded(seen, r)) by {
            assert forall|k: int| 1 <= k < seen.len() implies covers(
                r.skip(1),
                (#[trigger] seen[k]).area,
            ) by {
                assert(r.skip(1)[k - 1].area == seen[k].area);
            }
        }
        let p = plan(Some(seen), r);
        area_plans(seen, r);
        let is_changed = |x: ZoneWrite| !seen.skip(1).contains(x);
        assert(!seen.skip(1).contains(r[i])) by {
            if seen.skip(1).contains(r[i]) {
                let k = choose|k: int| 0 <= k < seen.skip(1).len() && seen.skip(1)[k] == r[i];
                assert(seen[k + 1] == r[i]);
                assert(seen[k + 1].area == r[k + 1].area);
                if k + 1 < i {
                    assert(r[k + 1].area != r[i].area);
                }
                if i < k + 1 {
                    assert(r[i].area != r[k + 1].area);
                }
            }
        }
        assert(p.contains(r[i]));
        let at = choose|at: int| 0 <= at < p.len() && p[at] == r[i];
        assert forall|j: int| 0 <= j < p.len() implies #[trigger] p[j] == r[i] by {
            if r.skip(1).contains(p[j]) && !seen.skip(1).contains(p[j]) {
                let k = choose|k: int| 0 <= k < r.skip(1).len() && r.skip(1)[k] == p[j];
                assert(r[k + 1] == p[j]);
                if k + 1 != i {
                    assert(seen.skip(1)[k] == p[j]);
                }
            } else {
                recovered_was_overridden(seen, r, j);
                let k = override_at(seen, p[j].area);
                assert(r[k].area == p[j].area);
                covers_is_overridden(r, p[j].area);
            }
        }
        if p.len() > 1 {
            let other = if at == 0 {
                1
            } else {
                0int
            };
            assert(p[other] == p[at]);
            if other < at {
                assert(p[other].area != p[at].area);
            } else {
                assert(p[at].area != p[other].area);
            }
        }
        assert(p =~= seq![r[i]]);
    }
}

proof fn one_more_strike(strikes: Seq<Strike>, a: u16)
    requires
        strike_count(strikes, a) < DT_VERIFY_STRIKES,
    ensures
        strike_count(struck(strikes, a), a) == strike_count(strikes, a) + 1,
{
    let after = struck(strikes, a);
    if has_strike(strikes, a) {
        let w = choose|w: int| 0 <= w < strikes.len() && (#[trigger] strikes[w]).area == a;
        has_first_strike(strikes, a, w);
        let i = first_strike(strikes, a);
        assert(is_first_strike(strikes, a, i));
        assert(is_first_strike(after, a, i)) by {
            assert forall|j: int| 0 <= j < i implies (#[trigger] after[j]).area != a by {
                assert(strikes[j].area != a);
            }
        }
        same_first_strike(after, a, i);
    } else {
        let i = strikes.len() as int;
        assert(is_first_strike(after, a, i)) by {
            assert forall|j: int| 0 <= j < i implies (#[trigger] after[j]).area != a by {
                assert(strikes[j].area != a);
            }
        }
        same_first_strike(after, a, i);
    }
}

proof fn has_first_strike(strikes: Seq<Strike>, a: u16, i: int)
    requires
        0 <= i < strikes.len(),
        strikes[i].area == a,
    ensures
        exists|k: int| is_first_strike(strikes, a, k),
    decreases i,
{
    if exists|j: int| 0 <= j < i && (#[trigger] strikes[j]).area == a {
        let j = choose|j: int| 0 <= j < i && (#[trigger] strikes[j]).area == a;
        has_first_strike(strikes, a, j);
    } else {
        assert(is_first_strike(strikes, a, i));
    }
}

proof fn same_first_strike(strikes: Seq<Strike>, a: u16, i: int)
    requires
        is_first_strike(strikes, a, i),
    ensures
        has_strike(strikes, a),
        strike_count(strikes, a) == strikes[i].count,
{
    let k = first_strike(strikes, a);
    assert(is_first_strike(strikes, a, k));
    if k < i {
        assert(strikes[k].area != a);
    }
    if i < k {
        assert(strikes[i].area != a);
    }
}

/// An area is rewritten at most twice: where its echo keeps disagreeing, two
/// rewrites follow, and the third disagreement leaves the area alone for good.
pub proof fn an_area_is_rewritten_at_most_twice(
    m: Memory,
    r: Seq<ZoneWrite>,
    i: int,
    echoes: (Option<(Rgb, u8)>, Option<(Rgb, u8)>, Option<(Rgb, u8)>),
    times: (u64, u64),
)
    requires
        m.applied == Some(r),
        0 <= i < r.len(),
        strike_count(m.strikes, r[i].area) == 0,
        judged(m, i, echoes.0).1 == Finding::Diverged,
        ({
            let first = after_success(judged(m, i, echoes.0).0, r, times.0);
            let second = after_success(judged(first, i, echoes.1).0, r, times.1);
            &&& judged(first, i, echoes.1).1 == Finding::Diverged
            &&& judged(second, i, echoes.2).1 != Finding::Agreed
            &&& judged(second, i, echoes.2).1 != Finding::Broken
        }),
    ensures
        ({
            let first = after_success(judged(m, i, echoes.0).0, r, times.0);
            let second = after_success(judged(first, i, echoes.1).0, r, times.1);
            &&& judged(second, i, echoes.2).1 == Finding::GaveUp
            &&& judged(second, i, echoes.2).0.unreadable.contains(r[i].area)
        }),
{
    let a = r[i].area;
    let first = after_success(judged(m, i, echoes.0).0, r, times.0);
    one_more_strike(m.strikes, a);
    assert(first.strikes == struck(m.strikes, a));
    let second = after_success(judged(first, i, echoes.1).0, r, times.1);
    one_more_strike(first.strikes, a);
    assert(second.strikes == struck(first.strikes, a));
    let third = judged(second, i, echoes.2).0;
    assert(third.unreadable.last() == a);
}

} // verus!
