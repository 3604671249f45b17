//! What a request for the case comes to: which writes it implies, when they go
//! out, and how their echoes are judged.

use vstd::prelude::*;

use crate::dt::{
    area, color_word, color_word_bytes, flag_of, flags_and_trailers_are_the_captured_ones,
    picked_colors_are_sent, sent_color, speeds_are_sent_as_asked, DtEffect, DtState,
};
use crate::engine::case_laws::{
    area_plans, covers_is_overridden, has_first_strike, override_at, recovered_was_overridden,
    same_first_strike, well_shaped,
};
use crate::engine::tracker::{
    after_failure, after_success, blank, choose_step, cleared, has_strike, is_first_strike, judged,
    override_write, plan, resolved, since, stranded, strike_count, struck, verify_due, wake_after,
    Choice, Finding, Memory, Strike, ZoneWrite,
};
use crate::rgb::Rgb;

verus! {

// -------------------------------------------------------- the writes implied

/// A request implies its broadcast first, then one write an override, in order.
/// Each has its own on/off state and effect, its own color where the effect
/// takes one, and its own area. The broadcast has the speed asked for, moved
/// between one and ten; an override has the default speed of three.
pub proof fn writes_follow_the_request(want: DtState, k: int)
    ensures
        ({
            let w = resolved(want);
            &&& w.len() == want.areas@.len() + 1
            &&& w[0].area == 1
            &&& w[0].on == want.on
            &&& w[0].effect == want.effect
            &&& want.effect == DtEffect::Static ==> w[0].color == want.color
            &&& w[0].color == sent_color(want.color, want.effect)
            &&& want.effect != DtEffect::Static && 1 <= want.speed <= 10 ==> w[0].speed == want.speed
            &&& want.effect != DtEffect::Static ==> 1 <= w[0].speed <= 10
            &&& 0 <= k < want.areas@.len() ==> {
                &&& w[k + 1].area == want.areas@[k].area
                &&& w[k + 1].on == want.areas@[k].on
                &&& w[k + 1].effect == want.areas@[k].effect
                &&& want.areas@[k].effect == DtEffect::Static ==> w[k + 1].color
                    == want.areas@[k].color
                &&& w[k + 1].color == sent_color(want.areas@[k].color, want.areas@[k].effect)
                &&& w[k + 1].speed == 3
            }
        }),
{
    picked_colors_are_sent(want.color, want.effect);
    speeds_are_sent_as_asked(want.effect, want.speed);
    if 0 <= k < want.areas@.len() {
        let a = want.areas@[k];
        assert(resolved(want)[k + 1] == override_write(a));
        picked_colors_are_sent(a.color, a.effect);
        speeds_are_sent_as_asked(a.effect, 3);
    }
}

/// The word that goes out for an override: its selector is the override's own
/// area, its flags are the off flags exactly where the override is off, and a
/// static override sends its own three color bytes.
pub proof fn overrides_are_sent_as_set(want: DtState, k: int)
    requires
        0 <= k < want.areas@.len(),
    ensures
        ({
            let z = resolved(want)[k + 1];
            let a = want.areas@[k];
            let word = color_word(
                z.area,
                sent_color(z.color, z.effect),
                flag_of(z.on),
                z.effect.captured().trailer,
            );
            &&& word % 0x1_0000 == a.area
            &&& (word / 0x100_0000_0000) % 256 == (if a.on {
                0x09int
            } else {
                0x01
            })
            &&& a.effect == DtEffect::Static ==> {
                &&& (word / 0x1_0000) % 256 == a.color.0
                &&& (word / 0x100_0000) % 256 == a.color.1
                &&& (word / 0x1_0000_0000) % 256 == a.color.2
            }
        }),
{
    let z = resolved(want)[k + 1];
    writes_follow_the_request(want, k);
    color_word_bytes(
        z.area,
        sent_color(z.color, z.effect),
        flag_of(z.on),
        z.effect.captured().trailer,
    );
    flags_and_trailers_are_the_captured_ones(z.on, z.effect);
    picked_colors_are_sent(z.color, z.effect);
}

/// The word that goes out for the whole case: the broadcast selector, the off
/// flags exactly where the case is off, and for a static case its own three
/// color bytes.
pub proof fn the_whole_case_is_sent_as_set(want: DtState)
    ensures
        ({
            let z = resolved(want)[0];
            let word = color_word(
                z.area,
                sent_color(z.color, z.effect),
                flag_of(z.on),
                z.effect.captured().trailer,
            );
            &&& word % 0x1_0000 == 1
            &&& (word / 0x100_0000_0000) % 256 == (if want.on {
                0x09int
            } else {
                0x01
            })
            &&& want.effect == DtEffect::Static ==> {
                &&& (word / 0x1_0000) % 256 == want.color.0
                &&& (word / 0x100_0000) % 256 == want.color.1
                &&& (word / 0x1_0000_0000) % 256 == want.color.2
            }
        }),
{
    let z = resolved(want)[0];
    writes_follow_the_request(want, -1);
    color_word_bytes(
        z.area,
        sent_color(z.color, z.effect),
        flag_of(z.on),
        z.effect.captured().trailer,
    );
    flags_and_trailers_are_the_captured_ones(z.on, z.effect);
    picked_colors_are_sent(z.color, z.effect);
}

// ------------------------------------------------------------ what is planned

/// With nothing applied, or another whole-case look, the whole request is
/// written.
pub proof fn changed_looks_are_written_in_full(prev: Seq<ZoneWrite>, next: Seq<ZoneWrite>)
    ensures
        plan(None, next) == next,
        next[0] != prev[0] ==> plan(Some(prev), next) == next,
{
}

/// An edit touches its own areas alone: under an unchanged whole-case look, where
/// every dropped override can be covered by itself, a plan holds no broadcast,
/// and every write of it is either an override that was not applied as it is
/// now, or the whole-case look on an area that had an override and has none.
pub proof fn edits_touch_their_areas_alone(prev: Seq<ZoneWrite>, next: Seq<ZoneWrite>, i: int)
    requires
        well_shaped(prev),
        well_shaped(next),
        next[0] == prev[0],
        next[0].effect == DtEffect::Static || forall|m: int|
            1 <= m < prev.len() ==> overrides_area(next, (#[trigger] prev[m]).area),
        0 <= i < plan(Some(prev), next).len(),
    ensures
        ({
            let z = plan(Some(prev), next)[i];
            &&& z.area != 1
            &&& {
                ||| next.skip(1).contains(z) && forall|m: int|
                    1 <= m < prev.len() ==> #[trigger] prev[m] != z
                ||| {
                    &&& !overrides_area(next, z.area)
                    &&& overrides_area(prev, z.area)
                    &&& z.color == next[0].color && z.on == next[0].on && z.effect
                        == next[0].effect && z.speed == next[0].speed
                }
            }
        }),
{
    assert(!stranded(prev, next)) by {
        assert forall|m: int| 1 <= m < prev.len() implies crate::engine::tracker::covers(
            next.skip(1),
            (#[trigger] prev[m]).area,
        ) || next[0].effect.captured_for(prev[m].area) by {
            if next[0].effect != DtEffect::Static {
                let k = choose|k: int|
                    1 <= k < next.len() && (#[trigger] next[k]).area == prev[m].area;
                assert(next.skip(1)[k - 1].area == prev[m].area);
            }
        }
    }
    let p = plan(Some(prev), next);
    area_plans(prev, next);
    let z = p[i];
    assert(z.area != area::ALL);
    if next.skip(1).contains(z) && !prev.skip(1).contains(z) {
        assert forall|m: int| 1 <= m < prev.len() implies #[trigger] prev[m] != z by {
            assert(prev.skip(1)[m - 1] == prev[m]);
        }
    } else {
        assert(!next.skip(1).contains(z)) by {
            if next.skip(1).contains(z) {
                let k = choose|k: int| 0 <= k < next.skip(1).len() && next.skip(1)[k] == z;
                assert(next.skip(1)[k].area == z.area);
            }
        }
        recovered_was_overridden(prev, next, i);
        let k = override_at(prev, z.area);
        assert(prev[k].area == z.area);
        covers_is_overridden(next, z.area);
    }
}

/// Whether a list of writes has an override for an area.
pub open spec fn overrides_area(writes: Seq<ZoneWrite>, a: u16) -> bool {
    exists|k: int| 1 <= k < writes.len() && (#[trigger] writes[k]).area == a
}

// ----------------------------------------------------------- when it is written

/// A settled request is written: where it has stood for 220 milliseconds, is not
/// what is applied, no write failed in the last two seconds and the case can be
/// reached, its plan goes out; where the case cannot be reached, that is said
/// once and nothing more until the request moves.
pub proof fn settled_requests_are_written(m: Memory, next: Seq<ZoneWrite>, t: u64, now: u64, later: u64)
    requires
        m.seen == Some(next),
        m.applied != Some(next),
        m.changed_at == Some(t),
        t + 220_000_000 <= now,
        m.failed_at matches Some(f) ==> f + 2_000_000_000 <= now,
    ensures
        choose_step(m, Some(next), true, now) == (m, Choice::Write(plan(m.applied, next))),
        choose_step(m, Some(next), false, now).1 == Choice::Unreachable,
        choose_step(choose_step(m, Some(next), false, now).0, Some(next), false, later).1
            == Choice::Idle,
{
}

/// A request that has not stood for 220 milliseconds is not written.
pub proof fn fresh_requests_are_not_written(m: Memory, next: Seq<ZoneWrite>, t: u64, now: u64)
    requires
        m.seen == Some(next),
        m.changed_at == Some(t),
        t <= now < t + 220_000_000,
    ensures
        choose_step(m, Some(next), true, now) == (m, Choice::Idle),
{
}

/// A failed write waits two seconds: until then nothing goes out, and then what
/// is left does.
pub proof fn failed_writes_wait_two_seconds(
    m: Memory,
    next: Seq<ZoneWrite>,
    writes: Seq<ZoneWrite>,
    done: int,
    t: u64,
    now: u64,
    later: u64,
)
    requires
        m.seen == Some(next),
        m.changed_at == Some(t),
        t + 220_000_000 <= now <= later,
        after_failure(m, next, writes, done, now).applied != Some(next),
    ensures
        ({
            let failed = after_failure(m, next, writes, done, now);
            &&& later < now + 2_000_000_000 ==> choose_step(failed, Some(next), true, later)
                == (failed, Choice::Idle)
            &&& later >= now + 2_000_000_000 ==> choose_step(failed, Some(next), true, later)
                == (failed, Choice::Write(plan(failed.applied, next)))
        }),
{
}

/// Once a plan has landed, the request is what is applied and no failure stands;
/// a write of the user's clears the strikes, a rewrite keeps them; and the next
/// read-back waits a full period from the write.
pub proof fn landed_plans_are_applied(m: Memory, next: Seq<ZoneWrite>, now: u64)
    ensures
        after_success(m, next, now).applied == Some(next),
        after_success(m, next, now).failed_at is None,
        after_success(m, next, now).last_verify == Some(now),
        !after_success(m, next, now).verify_rewrite,
        !m.verify_rewrite ==> after_success(m, next, now).strikes.len() == 0,
        m.verify_rewrite ==> after_success(m, next, now).strikes == m.strikes,
        after_success(m, next, now).unreadable == m.unreadable,
        after_success(m, next, now).seen == m.seen,
{
}

/// The loop sleeps no longer than a pending write allows: what is left of the 220
/// milliseconds, and at least five. It need not wake where nothing is pending.
pub proof fn sleeps_end_when_the_request_settles(m: Memory, next: Seq<ZoneWrite>, t: u64, now: u64)
    requires
        m.seen == Some(next),
        m.changed_at == Some(t),
        t <= now,
        m.failed_at is None,
    ensures
        m.applied == Some(next) ==> wake_after(m, now) is None,
        m.applied != Some(next) && now - t <= 215_000_000 ==> wake_after(m, now) == Some(
            (220_000_000 - (now - t)) as u64,
        ),
        m.applied != Some(next) && now - t > 215_000_000 ==> wake_after(m, now) == Some(
            5_000_000u64,
        ),
{
}

// ---------------------------------------------------------------- the echoes

/// Under hold the registers are read back every four seconds, as long as they can
/// be read and what is applied is what is asked for; never without hold.
pub proof fn read_backs_recur(m: Memory, next: Seq<ZoneWrite>, t: u64, now: u64)
    requires
        m.seen == Some(next),
        m.failed_at is None,
        m.last_verify == Some(t),
        t <= now,
    ensures
        m.applied == Some(next) && !m.verify_broken ==> (verify_due(m, true, true, now) <==> now - t
            >= 4_000_000_000),
        m.applied != Some(next) ==> !verify_due(m, true, true, now),
        m.verify_broken ==> !verify_due(m, true, true, now),
        !verify_due(m, false, true, now),
        !verify_due(m, true, false, now),
{
}

/// A register agrees exactly where it echoes the write's color and the flags of
/// its on/off state; a register that cannot be read ends verification; and an
/// area is given up only after two strikes.
pub proof fn echoes_are_judged_exactly(m: Memory, r: Seq<ZoneWrite>, i: int, echo: (Rgb, u8))
    requires
        m.applied == Some(r),
        0 <= i < r.len(),
    ensures
        judged(m, i, Some(echo)).1 == Finding::Agreed <==> echo.0 == r[i].color && echo.1 == (if r[i].on {
            0x09u8
        } else {
            0x01
        }),
        judged(m, i, None).1 == Finding::Broken,
        judged(m, i, None).0.verify_broken,
        judged(m, i, Some(echo)).1 == Finding::GaveUp ==> strike_count(m.strikes, r[i].area) >= 2
            && judged(m, i, Some(echo)).0.unreadable == m.unreadable.push(r[i].area)
            && judged(m, i, Some(echo)).0.applied == m.applied,
        judged(m, i, Some(echo)).1 == Finding::Diverged ==> strike_count(m.strikes, r[i].area) < 2,
        judged(m, i, Some(echo)).1 != Finding::GaveUp ==> judged(m, i, Some(echo)).0.unreadable
            == m.unreadable,
        judged(m, i, Some(echo)).0.seen == m.seen,
        judged(m, i, Some(echo)).1 == Finding::Agreed || judged(m, i, Some(echo)).1
            == Finding::GaveUp ==> strike_count(judged(m, i, Some(echo)).0.strikes, r[i].area) == 0,
        judged(m, i, Some(echo)).1 == Finding::Agreed ==> judged(m, i, Some(echo)).0.applied
            == m.applied && judged(m, i, Some(echo)).0.verify_rewrite == m.verify_rewrite,
        judged(m, i, Some(echo)).1 == Finding::Diverged ==> judged(m, i, Some(echo)).0.verify_rewrite,
{
    cleared_areas(m.strikes, r[i].area);
}

proof fn cleared_areas(strikes: Seq<Strike>, a: u16)
    ensures
        forall|i: int|
            0 <= i < cleared(strikes, a).len() ==> (#[trigger] cleared(strikes, a)[i]).area != a,
    decreases strikes.len(),
{
    reveal(Seq::filter);
    if strikes.len() > 0 {
        let init = strikes.drop_last();
        cleared_areas(init, a);
        let before = cleared(init, a);
        let after = cleared(strikes, a);
        assert(after == if strikes.last().area != a {
            before.push(strikes.last())
        } else {
            before
        });
        assert forall|i: int| 0 <= i < after.len() implies (#[trigger] after[i]).area != a by {
            if i < before.len() {
                assert(after[i] == before[i]);
            }
        }
    }
}

/// Strikes are counted area by area: one more strike counts one more against its
/// own area and nothing against another, and clearing an area leaves none.
pub proof fn strikes_are_counted_by_area(strikes: Seq<Strike>, a: u16, b: u16)
    requires
        strike_count(strikes, a) < 255,
    ensures
        strike_count(struck(strikes, a), a) == strike_count(strikes, a) + 1,
        a != b ==> strike_count(struck(strikes, a), b) == strike_count(strikes, b),
        strike_count(cleared(strikes, a), a) == 0,
{
    let after = struck(strikes, a);
    cleared_areas(strikes, a);
    if has_strike(strikes, a) {
        let w = choose|w: int| 0 <= w < strikes.len() && (#[trigger] strikes[w]).area == a;
        has_first_strike(strikes, a, w);
        let i = choose|i: int| is_first_strike(strikes, a, i);
        assert(is_first_strike(strikes, a, i));
        same_first_strike(strikes, a, i);
        assert(is_first_strike(after, a, i)) by {
            assert forall|j: int| 0 <= j < i implies (#[trigger] after[j]).area != a by {
                assert(strikes[j].area != a);
            }
        }
        same_first_strike(after, a, i);
    } else {
        let i = strikes.len() as int;
        assert(is_first_strike(after, a, i)) by {
            assert forall|j: int| 0 <= j < i implies (#[trigger] after[j]).area != a by {
                assert(strikes[j].area != a);
            }
        }
        same_first_strike(after, a, i);
    }
    if a != b {
        if has_strike(strikes, b) {
            let w = choose|w: int| 0 <= w < strikes.len() && (#[trigger] strikes[w]).area == b;
            has_first_strike(strikes, b, w);
            let k = choose|k: int| is_first_strike(strikes, b, k);
            assert(is_first_strike(strikes, b, k));
            same_first_strike(strikes, b, k);
            assert(after[k] == strikes[k]);
            assert(is_first_strike(after, b, k)) by {
                assert forall|j: int| 0 <= j < k implies (#[trigger] after[j]).area != b by {
                    assert(strikes[j].area != b);
                }
            }
            same_first_strike(after, b, k);
        } else {
            assert(!has_strike(after, b)) by {
                assert forall|j: int| 0 <= j < after.len() implies (#[trigger] after[j]).area
                    != b by {
                    if j < strikes.len() {
                        assert(strikes[j].area != b);
                    }
                }
            }
        }
    }
}

/// A case that is left alone is forgotten, but for what reading it back showed:
/// that it cannot be read, and that a write made up for a divergence.
pub proof fn a_case_left_alone_is_forgotten(m: Memory, reachable: bool, now: u64)
    ensures
        ({
            let (after, choice) = choose_step(m, None, reachable, now);
            &&& choice == Choice::Idle
            &&& after.seen is None
            &&& after.applied is None
            &&& after.changed_at is None
            &&& after.failed_at is None
            &&& after.unreadable.len() == 0
            &&& after.strikes.len() == 0
            &&& after.verify_broken == m.verify_broken
            &&& after.verify_rewrite == m.verify_rewrite
        }),
{
}

/// A request that moved is remembered with its time and is no rewrite any more;
/// what is applied and what reading back showed stays.
pub proof fn a_moved_request_starts_over(m: Memory, next: Seq<ZoneWrite>, reachable: bool, now: u64)
    requires
        m.seen != Some(next),
    ensures
        ({
            let (after, choice) = choose_step(m, Some(next), reachable, now);
            &&& choice == Choice::Idle
            &&& after.seen == Some(next)
            &&& after.changed_at == Some(now)
            &&& !after.verify_rewrite
            &&& after.applied == m.applied
            &&& after.failed_at == m.failed_at
            &&& after.last_verify == m.last_verify
            &&& after.strikes == m.strikes
            &&& after.unreadable == m.unreadable
            &&& after.verify_broken == m.verify_broken
        }),
{
}

/// Time never runs backwards: an instant that is still to come is no time ago.
pub proof fn instants_to_come_are_no_time_ago(now: u64, then: u64)
    ensures
        then > now ==> since(now, then) == 0,
        then <= now ==> since(now, then) + then == now,
{
}

/// A scheduler that has seen nothing waits for nothing: the first request is
/// written in full once it has settled, and nothing is known against any area.
pub proof fn a_new_scheduler_knows_nothing(next: Seq<ZoneWrite>, now: u64, area: u16)
    ensures
        blank().applied is None,
        blank().seen is None,
        blank().failed_at is None,
        blank().last_verify is None,
        !blank().verify_broken,
        !blank().verify_rewrite,
        blank().unreadable.len() == 0,
        strike_count(blank().strikes, area) == 0,
        wake_after(blank(), now) is None,
        plan(blank().applied, next) == next,
{
}

} // verus!
