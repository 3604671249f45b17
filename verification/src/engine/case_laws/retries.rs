//! What is left to write once a plan has failed part of the way.

use vstd::prelude::*;

use crate::dt::area;
use crate::engine::case_laws::{
    adding_an_override, area_plans, distinct, dropping_an_override, first_for_is,
    replacing_an_override, well_shaped,
};
use crate::engine::tracker::{
    applied_after, changed, covers, dropped, global_on, patched, patched_all, plan, stranded,
    ZoneWrite,
};

verus! {

// ------------------------------------------------------------------- filters

/// Filters that agree on every element of a list leave the same of it.
proof fn filters_agree(
    s: Seq<ZoneWrite>,
    p: spec_fn(ZoneWrite) -> bool,
    q: spec_fn(ZoneWrite) -> bool,
)
    requires
        forall|i: int| 0 <= i < s.len() ==> p(#[trigger] s[i]) == q(s[i]),
    ensures
        s.filter(p) == s.filter(q),
    decreases s.len(),
{
    reveal(Seq::filter);
    if s.len() > 0 {
        assert(p(s[s.len() - 1]) == q(s[s.len() - 1]));
        assert forall|i: int| 0 <= i < s.drop_last().len() implies p(
            #[trigger] s.drop_last()[i],
        ) == q(s.drop_last()[i]) by {
            assert(s.drop_last()[i] == s[i]);
        }
        filters_agree(s.drop_last(), p, q);
    }
}

/// Filtering twice is filtering by both.
proof fn filters_compose(
    s: Seq<ZoneWrite>,
    p: spec_fn(ZoneWrite) -> bool,
    q: spec_fn(ZoneWrite) -> bool,
    both: spec_fn(ZoneWrite) -> bool,
)
    requires
        forall|i: int| 0 <= i < s.len() ==> both(#[trigger] s[i]) == (p(s[i]) && q(s[i])),
    ensures
        s.filter(p).filter(q) == s.filter(both),
    decreases s.len(),
{
    if s.len() == 0 {
        assert(s.filter(p) == s && s.filter(both) == s && s.filter(q) == s) by {
            reveal(Seq::filter);
        }
    } else {
        let init = s.drop_last();
        let last = s[s.len() - 1];
        assert forall|i: int| 0 <= i < init.len() implies both(#[trigger] init[i]) == (p(init[i])
            && q(init[i])) by {
            assert(init[i] == s[i]);
        }
        filters_compose(init, p, q, both);
        assert(s =~= init.push(last));
        init.lemma_filter_push(last, p);
        init.lemma_filter_push(last, both);
        init.filter(p).lemma_filter_push(last, q);
        assert(both(last) == (p(last) && q(last)));
    }
}

/// A filter that drops the first elements of a list and keeps all the others
/// leaves exactly the others.
proof fn filtering_out_a_head(s: Seq<ZoneWrite>, p: spec_fn(ZoneWrite) -> bool, n: int)
    requires
        0 <= n <= s.len(),
        forall|i: int| 0 <= i < s.len() ==> p(#[trigger] s[i]) == (n <= i),
    ensures
        s.filter(p) == s.skip(n),
    decreases s.len(),
{
    reveal(Seq::filter);
    if s.len() > 0 {
        let init = s.drop_last();
        let last = s[s.len() - 1];
        assert forall|i: int| 0 <= i < init.len() implies p(#[trigger] init[i]) == (if n
            == s.len() {
            n - 1
        } else {
            n
        } <= i) by {
            assert(init[i] == s[i]);
        }
        if n == s.len() {
            assert(!p(last));
            filtering_out_a_head(init, p, n - 1);
            assert(s.skip(n) =~= init.skip(n - 1));
        } else {
            assert(p(last));
            filtering_out_a_head(init, p, n);
            assert(s.skip(n) =~= init.skip(n).push(last));
        }
    }
}

/// What a filter leaves starts with the first element that it keeps.
proof fn first_kept(s: Seq<ZoneWrite>, p: spec_fn(ZoneWrite) -> bool) -> (n: int)
    requires
        s.filter(p).len() > 0,
    ensures
        0 <= n < s.len(),
        p(s[n]),
        forall|i: int| 0 <= i < n ==> !p(#[trigger] s[i]),
        s.filter(p)[0] == s[n],
    decreases s.len(),
{
    if s.len() == 0 {
        assert(s.filter(p) == s) by {
            reveal(Seq::filter);
        }
        0
    } else {
        let init = s.drop_last();
        let last = s[s.len() - 1];
        assert(s =~= init.push(last));
        init.lemma_filter_push(last, p);
        if init.filter(p).len() > 0 {
            let n = first_kept(init, p);
            assert(s[n] == init[n]);
            assert forall|i: int| 0 <= i < n implies !p(#[trigger] s[i]) by {
                assert(s[i] == init[i]);
            }
            n
        } else {
            assert forall|i: int| 0 <= i < s.len() - 1 implies !p(#[trigger] s[i]) by {
                if p(s[i]) {
                    assert(init[i] == s[i]);
                    init.lemma_filter_contains(p, i);
                }
            }
            s.len() - 1
        }
    }
}

/// Leaving out the first element that a filter keeps leaves out nothing else.
proof fn filtering_out_the_first(
    s: Seq<ZoneWrite>,
    p: spec_fn(ZoneWrite) -> bool,
    q: spec_fn(ZoneWrite) -> bool,
    n: int,
)
    requires
        0 <= n < s.len(),
        p(s[n]),
        forall|i: int| 0 <= i < n ==> !p(#[trigger] s[i]),
        forall|i: int| 0 <= i < s.len() ==> q(#[trigger] s[i]) == (p(s[i]) && i != n),
    ensures
        s.filter(p).len() > 0,
        s.filter(q) == s.filter(p).skip(1),
    decreases s.len(),
{
    let init = s.drop_last();
    let last = s[s.len() - 1];
    assert(s =~= init.push(last));
    init.lemma_filter_push(last, p);
    init.lemma_filter_push(last, q);
    if n == init.len() {
        assert forall|i: int| 0 <= i < init.len() implies p(#[trigger] init[i]) == (init.len()
            <= i) by {
            assert(init[i] == s[i]);
        }
        assert forall|i: int| 0 <= i < init.len() implies q(#[trigger] init[i]) == (init.len()
            <= i) by {
            assert(init[i] == s[i]);
        }
        filtering_out_a_head(init, p, init.len() as int);
        filtering_out_a_head(init, q, init.len() as int);
        assert(s.filter(q) =~= s.filter(p).skip(1));
    } else {
        assert(init[n] == s[n]);
        assert forall|i: int| 0 <= i < n implies !p(#[trigger] init[i]) by {
            assert(init[i] == s[i]);
        }
        assert forall|i: int| 0 <= i < init.len() implies q(#[trigger] init[i]) == (p(init[i]) && i
            != n) by {
            assert(init[i] == s[i]);
        }
        filtering_out_the_first(init, p, q, n);
        assert(q(last) == p(last));
        assert(s.filter(q) =~= s.filter(p).skip(1));
    }
}

/// An element that a filter drops can be replaced by another such element.
proof fn filtering_past_an_update(
    s: Seq<ZoneWrite>,
    k: int,
    z: ZoneWrite,
    p: spec_fn(ZoneWrite) -> bool,
)
    requires
        0 <= k < s.len(),
        !p(s[k]),
        !p(z),
    ensures
        s.update(k, z).filter(p) == s.filter(p),
    decreases s.len(),
{
    reveal(Seq::filter);
    let after = s.update(k, z);
    if k == s.len() - 1 {
        assert(after.drop_last() =~= s.drop_last());
    } else {
        assert(after.drop_last() =~= s.drop_last().update(k, z));
        filtering_past_an_update(s.drop_last(), k, z, p);
    }
}

/// A filter that keeps the first element filters the rest by itself.
proof fn filtering_after_the_first(s: Seq<ZoneWrite>, p: spec_fn(ZoneWrite) -> bool)
    requires
        s.len() > 0,
        p(s[0]),
    ensures
        s.filter(p).skip(1) == s.skip(1).filter(p),
{
    s.skip(1).lemma_filter_prepend(s[0], p);
    assert(seq![s[0]] + s.skip(1) =~= s);
    assert(s.filter(p).skip(1) =~= s.skip(1).filter(p));
}

proof fn contains_after_a_filter(
    s: Seq<ZoneWrite>,
    p: spec_fn(ZoneWrite) -> bool,
    y: ZoneWrite,
)
    ensures
        s.filter(p).contains(y) == (p(y) && s.contains(y)),
{
    if s.filter(p).contains(y) {
        let k = choose|k: int| 0 <= k < s.filter(p).len() && s.filter(p)[k] == y;
        s.lemma_filter_pred(p, k);
        s.lemma_filter_contains_rev(p, y);
    }
    if p(y) && s.contains(y) {
        let i = choose|i: int| 0 <= i < s.len() && s[i] == y;
        s.lemma_filter_contains(p, i);
    }
}

// --------------------------------------------------------- after a broadcast

proof fn nothing_is_dropped(next: Seq<ZoneWrite>, k: int)
    requires
        0 < k <= next.len(),
    ensures
        dropped(next.take(k), next) == Seq::<ZoneWrite>::empty(),
        !stranded(next.take(k), next),
{
    let head = next.take(k);
    let list = next.skip(1);
    assert forall|i: int| 1 <= i < k implies covers(list, (#[trigger] head[i]).area) by {
        assert(list[i - 1].area == head[i].area);
    }
    let p = |q: ZoneWrite| !covers(next.skip(1), q.area);
    assert forall|i: int| 0 <= i < head.skip(1).len() implies p(#[trigger] head.skip(1)[i]) == (
    head.skip(1).len() <= i) by {
        assert(head.skip(1)[i] == head[i + 1]);
    }
    filtering_out_a_head(head.skip(1), p, head.skip(1).len() as int);
}

proof fn the_tail_is_changed(next: Seq<ZoneWrite>, k: int)
    requires
        distinct(next),
        0 < k <= next.len(),
    ensures
        changed(next.take(k), next) == next.skip(k),
{
    let landed = next.take(k).skip(1);
    let list = next.skip(1);
    let p = |z: ZoneWrite| !next.take(k).skip(1).contains(z);
    assert forall|i: int| 0 <= i < list.len() implies p(#[trigger] list[i]) == (k - 1 <= i) by {
        if i < k - 1 {
            assert(landed[i] == list[i]);
        } else {
            assert forall|m: int| 0 <= m < landed.len() implies landed[m] != list[i] by {
                assert(landed[m] == next[m + 1]);
                assert(next[m + 1].area != next[i + 1].area);
            }
        }
    }
    filtering_out_a_head(list, p, k - 1);
    assert(list.skip(k - 1) =~= next.skip(k));
}

/// Once the broadcast and some of what follows it have landed, what is left to
/// write is the rest.
pub proof fn a_landed_head_leaves_the_tail(next: Seq<ZoneWrite>, k: int)
    requires
        well_shaped(next),
        0 < k <= next.len(),
    ensures
        plan(Some(next.take(k)), next) == next.skip(k),
{
    nothing_is_dropped(next, k);
    the_tail_is_changed(next, k);
    let head = next.take(k);
    assert(head[0] == next[0]);
    let recover = |q: ZoneWrite| global_on(next[0], q.area);
    assert(dropped(head, next).map_values(recover) =~= Seq::<ZoneWrite>::empty());
    assert(changed(head, next) + dropped(head, next).map_values(recover) =~= next.skip(k));
}

// --------------------------------------------------------- after an override

/// What a list holds past its first element, once an override was replaced.
proof fn replaced_contents(prev: Seq<ZoneWrite>, k: int, z: ZoneWrite, y: ZoneWrite)
    requires
        1 <= k < prev.len(),
        prev[k].area == z.area,
        y.area != z.area,
    ensures
        prev.update(k, z).skip(1).contains(y) == prev.skip(1).contains(y),
{
    let before = prev.skip(1);
    let after = prev.update(k, z).skip(1);
    if before.contains(y) {
        let m = choose|m: int| 0 <= m < before.len() && before[m] == y;
        assert(after[m] == y);
    }
    if after.contains(y) {
        let m = choose|m: int| 0 <= m < after.len() && after[m] == y;
        assert(before[m] == y);
    }
}

/// What a list holds past its first element, once an override was added.
proof fn added_contents(prev: Seq<ZoneWrite>, z: ZoneWrite, y: ZoneWrite)
    requires
        prev.len() > 0,
        y.area != z.area,
    ensures
        prev.push(z).skip(1).contains(y) == prev.skip(1).contains(y),
{
    let before = prev.skip(1);
    let after = prev.push(z).skip(1);
    if before.contains(y) {
        let m = choose|m: int| 0 <= m < before.len() && before[m] == y;
        assert(after[m] == y);
    }
    if after.contains(y) {
        let m = choose|m: int| 0 <= m < after.len() && after[m] == y;
        assert(before[m] == y);
    }
}

/// Recording a landed override: the list stays well-shaped, holds that write,
/// and holds of the other areas what it held.
proof fn recorded_override(prev: Seq<ZoneWrite>, next: Seq<ZoneWrite>, z: ZoneWrite)
    requires
        well_shaped(prev),
        z.area != area::ALL,
        covers(next.skip(1), z.area),
    ensures
        ({
            let record = patched(prev, next, z);
            &&& well_shaped(record)
            &&& record[0] == prev[0]
            &&& record.skip(1).contains(z)
            &&& forall|y: ZoneWrite|
                y.area != z.area ==> #[trigger] record.skip(1).contains(y) == prev.skip(
                    1,
                ).contains(y)
        }),
{
    let record = patched(prev, next, z);
    if covers(prev, z.area) {
        let k = choose|k: int| 0 <= k < prev.len() && (#[trigger] prev[k]).area == z.area;
        assert(k > 0);
        first_for_is(prev, k);
        replacing_an_override(prev, z, k, area::FRONT);
        assert(record == prev.update(k, z));
        assert(record.skip(1)[k - 1] == z);
        assert forall|y: ZoneWrite| y.area != z.area implies #[trigger] record.skip(1).contains(y)
            == prev.skip(1).contains(y) by {
            replaced_contents(prev, k, z, y);
        }
    } else {
        adding_an_override(prev, z, area::FRONT);
        assert(record == prev.push(z));
        assert(record.skip(1)[prev.len() - 1] == z);
        assert forall|y: ZoneWrite| y.area != z.area implies #[trigger] record.skip(1).contains(y)
            == prev.skip(1).contains(y) by {
            added_contents(prev, z, y);
        }
    }
}

/// Recording a landed override leaves the same overrides dropped.
proof fn recorded_override_drops_nothing(prev: Seq<ZoneWrite>, next: Seq<ZoneWrite>, z: ZoneWrite)
    requires
        well_shaped(prev),
        z.area != area::ALL,
        covers(next.skip(1), z.area),
    ensures
        dropped(patched(prev, next, z), next) == dropped(prev, next),
        stranded(patched(prev, next, z), next) ==> stranded(prev, next),
{
    let record = patched(prev, next, z);
    let d = |p: ZoneWrite| !covers(next.skip(1), p.area);
    if covers(prev, z.area) {
        let k = choose|k: int| 0 <= k < prev.len() && (#[trigger] prev[k]).area == z.area;
        assert(k > 0);
        first_for_is(prev, k);
        assert(record == prev.update(k, z));
        assert(record.skip(1) =~= prev.skip(1).update(k - 1, z));
        assert(!d(prev.skip(1)[k - 1]));
        filtering_past_an_update(prev.skip(1), k - 1, z, d);
    } else {
        assert(record == prev.push(z));
        assert(record.skip(1) =~= prev.skip(1).push(z));
        prev.skip(1).lemma_filter_push(z, d);
    }
    if stranded(record, next) {
        let i = choose|i: int|
            1 <= i < record.len() && !covers(next.skip(1), (#[trigger] record[i]).area)
                && !next[0].effect.captured_for(record[i].area);
        assert(i < prev.len());
        assert(prev[i] == record[i]);
    }
}

/// Once the first changed override has landed, the others are left.
proof fn a_landed_override_leaves_the_rest(prev: Seq<ZoneWrite>, next: Seq<ZoneWrite>)
    requires
        well_shaped(prev),
        well_shaped(next),
        changed(prev, next).len() > 0,
    ensures
        ({
            let z = changed(prev, next)[0];
            let record = patched(prev, next, z);
            &&& covers(next.skip(1), z.area)
            &&& z.area != area::ALL
            &&& changed(record, next) == changed(prev, next).skip(1)
        }),
{
    let list = next.skip(1);
    let was = |z: ZoneWrite| !prev.skip(1).contains(z);
    let n = first_kept(list, was);
    let z = list[n];
    assert(z == changed(prev, next)[0]);
    assert(list[n].area == z.area);
    let record = patched(prev, next, z);
    recorded_override(prev, next, z);
    let is = |z: ZoneWrite| !record.skip(1).contains(z);
    assert forall|i: int| 0 <= i < list.len() implies is(#[trigger] list[i]) == (was(list[i]) && i
        != n) by {
        if i != n {
            assert(list[i].area != z.area) by {
                assert(list[i] == next[i + 1]);
                assert(list[n] == next[n + 1]);
                if i < n {
                    assert(next[i + 1].area != next[n + 1].area);
                } else {
                    assert(next[n + 1].area != next[i + 1].area);
                }
            }
        }
    }
    filtering_out_the_first(list, was, is, n);
}

// ---------------------------------------------------------- after a recovery

/// Once an area has got the global look back, no override is new, and none is
/// stranded that was not.
proof fn recorded_recovery(prev: Seq<ZoneWrite>, next: Seq<ZoneWrite>, x: u16)
    requires
        well_shaped(prev),
        x != area::ALL,
        !covers(next.skip(1), x),
    ensures
        ({
            let record = prev.filter(|q: ZoneWrite| q.area != x);
            &&& well_shaped(record)
            &&& record[0] == prev[0]
            &&& record.skip(1) == prev.skip(1).filter(|q: ZoneWrite| q.area != x)
            &&& changed(record, next) == changed(prev, next)
        }),
{
    let keep = |q: ZoneWrite| q.area != x;
    let record = prev.filter(keep);
    dropping_an_override(prev, x, area::FRONT);
    assert(keep(prev[0]));
    filtering_after_the_first(prev, keep);
    let list = next.skip(1);
    let was = |z: ZoneWrite| !prev.skip(1).contains(z);
    let is = |z: ZoneWrite| !record.skip(1).contains(z);
    assert forall|i: int| 0 <= i < list.len() implies is(#[trigger] list[i]) == was(list[i]) by {
        assert(list[i].area != x);
        contains_after_a_filter(prev.skip(1), keep, list[i]);
    }
    filters_agree(list, is, was);
}

proof fn recovery_strands_nothing(prev: Seq<ZoneWrite>, next: Seq<ZoneWrite>, x: u16)
    requires
        well_shaped(prev),
        x != area::ALL,
        stranded(prev.filter(|q: ZoneWrite| q.area != x), next),
    ensures
        stranded(prev, next),
{
    let keep = |q: ZoneWrite| q.area != x;
    let record = prev.filter(keep);
    let i = choose|i: int|
        1 <= i < record.len() && !covers(next.skip(1), (#[trigger] record[i]).area)
            && !next[0].effect.captured_for(record[i].area);
    dropping_an_override(prev, x, area::FRONT);
    assert(record[0].area != record[i].area);
    assert(record.contains(record[i]));
    contains_after_a_filter(prev, keep, record[i]);
    let m = choose|m: int| 0 <= m < prev.len() && prev[m] == record[i];
    assert(m > 0);
    assert(prev[m].area == record[i].area);
}

/// Once the first area has got the global look back, the others are left.
proof fn a_landed_recovery_leaves_the_rest(prev: Seq<ZoneWrite>, next: Seq<ZoneWrite>)
    requires
        well_shaped(prev),
        dropped(prev, next).len() > 0,
    ensures
        ({
            let x = dropped(prev, next)[0].area;
            let record = prev.filter(|q: ZoneWrite| q.area != x);
            &&& x != area::ALL
            &&& !covers(next.skip(1), x)
            &&& dropped(record, next) == dropped(prev, next).skip(1)
        }),
{
    let list = prev.skip(1);
    let d = |p: ZoneWrite| !covers(next.skip(1), p.area);
    let n = first_kept(list, d);
    let x = list[n].area;
    assert(dropped(prev, next)[0] == list[n]);
    assert(x != area::ALL);
    let keep = |q: ZoneWrite| q.area != x;
    let record = prev.filter(keep);
    recorded_recovery(prev, next, x);
    let left = |q: ZoneWrite| q.area != x && !covers(next.skip(1), q.area);
    assert forall|i: int| 0 <= i < list.len() implies left(#[trigger] list[i]) == (d(list[i]) && i
        != n) by {
        if i != n {
            assert(list[i] == prev[i + 1]);
            assert(list[n] == prev[n + 1]);
            if i < n {
                assert(prev[i + 1].area != prev[n + 1].area);
            } else {
                assert(prev[n + 1].area != prev[i + 1].area);
            }
        }
    }
    filtering_out_the_first(list, d, left, n);
    filters_compose(list, keep, d, left);
}

// ------------------------------------------------------------------- the law

/// Once the first write of an area plan has landed, what is left to write is the
/// rest of the plan.
proof fn the_rest_is_left(prev: Seq<ZoneWrite>, next: Seq<ZoneWrite>)
    requires
        well_shaped(prev),
        well_shaped(next),
        next[0] == prev[0],
        !stranded(prev, next),
        plan(Some(prev), next).len() > 0,
    ensures
        ({
            let p = plan(Some(prev), next);
            let record = patched(prev, next, p[0]);
            &&& well_shaped(record)
            &&& record[0] == next[0]
            &&& !stranded(record, next)
            &&& plan(Some(record), next) == p.skip(1)
        }),
{
    let p = plan(Some(prev), next);
    let z = p[0];
    let record = patched(prev, next, z);
    let news = changed(prev, next);
    let gone = dropped(prev, next);
    let recover = |q: ZoneWrite| global_on(next[0], q.area);
    if news.len() > 0 {
        assert(z == news[0]);
        a_landed_override_leaves_the_rest(prev, next);
        recorded_override(prev, next, z);
        recorded_override_drops_nothing(prev, next, z);
        assert(news.skip(1) + gone.map_values(recover) =~= p.skip(1));
    } else {
        assert(z == recover(gone[0]));
        a_landed_recovery_leaves_the_rest(prev, next);
        recorded_recovery(prev, next, z.area);
        if stranded(record, next) {
            recovery_strands_nothing(prev, next, z.area);
        }
        assert(news + gone.skip(1).map_values(recover) =~= p.skip(1));
    }
}

proof fn area_retries(prev: Seq<ZoneWrite>, next: Seq<ZoneWrite>, done: int)
    requires
        well_shaped(prev),
        well_shaped(next),
        next[0] == prev[0],
        !stranded(prev, next),
        0 <= done <= plan(Some(prev), next).len(),
    ensures
        ({
            let p = plan(Some(prev), next);
            let record = patched_all(prev, next, p.take(done));
            &&& well_shaped(record)
            &&& record[0] == next[0]
            &&& !stranded(record, next)
            &&& plan(Some(record), next) == p.skip(done)
        }),
    decreases done,
{
    let p = plan(Some(prev), next);
    if done == 0 {
        assert(p.skip(0) =~= p);
    } else {
        area_retries(prev, next, done - 1);
        let fewer = patched_all(prev, next, p.take(done - 1));
        assert(p.take(done).drop_last() =~= p.take(done - 1));
        assert(p.skip(done - 1)[0] == p[done - 1]);
        assert(p.take(done).last() == p[done - 1]);
        the_rest_is_left(fewer, next);
        assert(p.skip(done - 1).skip(1) =~= p.skip(done));
    }
}

/// A retry repeats nothing that landed: after a plan failed, the next plan for
/// the same request is the rest of it.
pub proof fn retries_send_only_the_rest(
    applied: Option<Seq<ZoneWrite>>,
    next: Seq<ZoneWrite>,
    done: int,
)
    requires
        well_shaped(next),
        applied matches Some(prev) ==> well_shaped(prev),
        0 <= done <= plan(applied, next).len(),
    ensures
        plan(applied_after(applied, next, plan(applied, next), done), next) == plan(
            applied,
            next,
        ).skip(done),
{
    let p = plan(applied, next);
    if done == 0 {
        assert(p.skip(0) =~= p);
    } else {
        assert(p.take(done)[0] == p[0]);
        match applied {
            None => a_landed_head_leaves_the_tail(next, done),
            Some(prev) => if next[0] != prev[0] || stranded(prev, next) {
                a_landed_head_leaves_the_tail(next, done);
            } else {
                area_plans(prev, next);
                area_retries(prev, next, done);
            },
        }
    }
}

} // verus!
