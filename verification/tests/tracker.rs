use colormemuch::dt::{area, flags, AreaCmd, DtEffect, DtState};
use colormemuch::engine::tracker::{
    area_name, elapsed, next_write, plan_writes, read_failure, resolve_dt, set_dt_error, unreachable_status,
    verify_note, zone_transaction, DtTracker, Finding, Step, ZoneWrite, DT_RETRY, DT_SETTLE,
    DT_VERIFY_PERIOD, DT_VERIFY_STRIKES, MIN_WAKE,
};
use colormemuch::engine::EngineEvent;
use colormemuch::rgb::Rgb;

const MS: u64 = 1_000_000;

fn request(color: Rgb, areas: &[(u16, Rgb)]) -> DtState {
    DtState {
        color,
        on: true,
        effect: DtEffect::Static,
        speed: 3,
        areas: areas
            .iter()
            .map(|&(area, color)| AreaCmd { area, color, on: true, effect: DtEffect::Static })
            .collect(),
    }
}

fn write(area: u16, color: Rgb) -> ZoneWrite {
    let s = resolve_dt(&request(color, &[]));
    ZoneWrite { area, ..s[0] }
}

fn writes(step: Step) -> Vec<ZoneWrite> {
    match step {
        Step::Write(w) => w,
        Step::Idle => panic!("idle"),
        Step::Unreachable => panic!("unreachable"),
    }
}

fn idle(step: Step) -> bool {
    matches!(step, Step::Idle)
}

/// A tracker that has applied a request at time `t`.
fn settled(want: &DtState, t: u64) -> DtTracker {
    let mut tr = DtTracker::new();
    assert!(idle(tr.decide(Some(want), true, t)));
    let later = t + DT_SETTLE;
    assert!(!writes(tr.decide(Some(want), true, later)).is_empty());
    tr.succeed(want, later);
    tr
}

const RED: Rgb = Rgb(255, 0, 0);
const BLUE: Rgb = Rgb(0, 0, 255);
const GREEN: Rgb = Rgb(0, 255, 0);

#[test]
fn requests_flatten_to_the_broadcast_and_the_overrides() {
    let r = resolve_dt(&request(RED, &[(area::FRONT, BLUE)]));
    assert_eq!(r.len(), 2);
    assert_eq!((r[0].area, r[0].color, r[0].on), (area::ALL, RED, true));
    assert_eq!((r[1].area, r[1].color), (area::FRONT, BLUE));
}

#[test]
fn a_drag_lands_as_one_write() {
    let mut tr = DtTracker::new();
    assert!(tr.is_sound());
    for k in 0..10u64 {
        let want = request(Rgb(k as u8, 0, 0), &[]);
        assert!(idle(tr.decide(Some(&want), true, k * 50 * MS)));
    }
    let want = request(Rgb(9, 0, 0), &[]);
    let moved = 450 * MS;
    assert!(idle(tr.decide(Some(&want), true, moved + DT_SETTLE - 1)));
    assert_eq!(tr.wake_in(moved + DT_SETTLE - 20 * MS), Some(20 * MS));
    assert_eq!(tr.wake_in(moved + DT_SETTLE), Some(MIN_WAKE));
    let plan = writes(tr.decide(Some(&want), true, moved + DT_SETTLE));
    assert_eq!(plan, resolve_dt(&want));
    tr.succeed(&want, moved + DT_SETTLE);
    assert!(idle(tr.decide(Some(&want), true, moved + 10 * DT_SETTLE)));
    assert_eq!(tr.wake_in(moved + 10 * DT_SETTLE), None);
}

#[test]
fn an_area_edit_touches_that_area_alone() {
    let before = resolve_dt(&request(RED, &[(area::FRONT, BLUE), (area::TOP, GREEN)]));
    let next = resolve_dt(&request(RED, &[(area::FRONT, RED), (area::TOP, GREEN)]));
    assert_eq!(plan_writes(&Some(before), &next), vec![write(area::FRONT, RED)]);
}

#[test]
fn a_global_edit_reapplies_every_override() {
    let before = resolve_dt(&request(RED, &[(area::FRONT, BLUE)]));
    let next = resolve_dt(&request(GREEN, &[(area::FRONT, BLUE)]));
    assert_eq!(plan_writes(&Some(before), &next), next);
    let fresh = resolve_dt(&request(GREEN, &[]));
    assert_eq!(plan_writes(&None, &fresh), fresh);
}

#[test]
fn a_removed_override_is_covered_without_a_broadcast() {
    let before = resolve_dt(&request(RED, &[(area::FRONT, BLUE), (area::TOP, GREEN)]));
    let next = resolve_dt(&request(RED, &[(area::TOP, GREEN)]));
    assert_eq!(plan_writes(&Some(before), &next), vec![write(area::FRONT, RED)]);
}

#[test]
fn plans_can_be_sent() {
    let mut looks = request(RED, &[(area::FRONT, BLUE), (area::TOP, GREEN)]);
    looks.effect = DtEffect::Wave;
    let before = resolve_dt(&looks);
    looks.areas.remove(0);
    let next = resolve_dt(&looks);
    // The wave is not captured on the front alone: the broadcast brings it.
    let plan = plan_writes(&Some(before), &next);
    assert_eq!(plan, next);
    assert!(plan.iter().all(|z| zone_transaction(z).is_ok()));
    assert!(zone_transaction(&ZoneWrite { area: area::FRONT, ..next[0] }).is_err());
    // With nothing dropped, an edit still touches its own area alone.
    looks.areas[0].color = BLUE;
    let edited = resolve_dt(&looks);
    assert_eq!(plan_writes(&Some(next), &edited), vec![write(area::TOP, BLUE)]);
}

#[test]
fn failures_retry_only_the_tail() {
    let first = request(RED, &[]);
    let mut tr = settled(&first, 0);
    let t0 = 1_000 * MS;
    let want = request(RED, &[(area::FRONT, BLUE), (area::TOP, GREEN)]);
    assert!(idle(tr.decide(Some(&want), true, t0)));
    let t1 = t0 + DT_SETTLE;
    let plan = writes(tr.decide(Some(&want), true, t1));
    assert_eq!(plan.len(), 2);
    tr.fail(&want, &plan, 1, t1);
    assert!(idle(tr.decide(Some(&want), true, t1 + DT_RETRY - 1)));
    assert_eq!(tr.wake_in(t1 + 1), None);
    let again = writes(tr.decide(Some(&want), true, t1 + DT_RETRY));
    assert_eq!(again, vec![write(area::TOP, GREEN)]);
}

#[test]
fn retries_send_only_the_rest() {
    let first = request(RED, &[(area::FRONT, BLUE), (area::TOP, GREEN)]);
    // A broadcast and its overrides, of which two landed; then two recoveries,
    // of which one landed.
    let edited = request(GREEN, &[(area::FRONT, BLUE), (area::TOP, GREEN)]);
    let bare = request(RED, &[]);
    for (want, done) in [(edited, 2), (bare, 1)] {
        let mut tr = settled(&first, 0);
        let t0 = 1_000 * MS;
        assert!(idle(tr.decide(Some(&want), true, t0)));
        let t1 = t0 + DT_SETTLE;
        let plan = writes(tr.decide(Some(&want), true, t1));
        tr.fail(&want, &plan, done, t1);
        let again = writes(tr.decide(Some(&want), true, t1 + DT_RETRY));
        assert_eq!(again, plan[done..].to_vec());
        assert_eq!(again.len(), 1);
    }
}

#[test]
fn a_failure_before_anything_landed_replays_everything() {
    let want = request(RED, &[(area::FRONT, BLUE)]);
    let mut tr = DtTracker::new();
    assert!(idle(tr.decide(Some(&want), true, 0)));
    let plan = writes(tr.decide(Some(&want), true, DT_SETTLE));
    tr.fail(&want, &plan, 0, DT_SETTLE);
    let again = writes(tr.decide(Some(&want), true, DT_SETTLE + DT_RETRY));
    assert_eq!(again, resolve_dt(&want));
}

#[test]
fn a_landed_broadcast_leaves_only_what_followed_it() {
    let first = request(RED, &[(area::FRONT, BLUE)]);
    let mut tr = settled(&first, 0);
    let t0 = 1_000 * MS;
    let want = request(GREEN, &[(area::FRONT, BLUE)]);
    assert!(idle(tr.decide(Some(&want), true, t0)));
    let t1 = t0 + DT_SETTLE;
    let plan = writes(tr.decide(Some(&want), true, t1));
    assert_eq!(plan.len(), 2);
    tr.fail(&want, &plan, 1, t1);
    let again = writes(tr.decide(Some(&want), true, t1 + DT_RETRY));
    assert_eq!(again, vec![write(area::FRONT, BLUE)]);
}

#[test]
fn an_unreachable_case_is_reported_once() {
    let want = request(RED, &[]);
    let mut tr = DtTracker::new();
    assert!(idle(tr.decide(Some(&want), false, 0)));
    assert!(matches!(tr.decide(Some(&want), false, DT_SETTLE), Step::Unreachable));
    assert!(idle(tr.decide(Some(&want), false, 2 * DT_SETTLE)));
    assert_eq!(tr.wake_in(2 * DT_SETTLE), None);
    assert_eq!(unreachable_status(), "case unavailable: not elevated");
}

#[test]
fn turning_the_case_off_and_on_replays_in_full() {
    let want = request(RED, &[(area::FRONT, BLUE)]);
    let mut tr = settled(&want, 0);
    assert!(idle(tr.decide(None, true, 1_000 * MS)));
    assert_eq!(tr.applied_len(), 0);
    assert!(idle(tr.decide(Some(&want), true, 2_000 * MS)));
    assert_eq!(
        writes(tr.decide(Some(&want), true, 2_000 * MS + DT_SETTLE)),
        resolve_dt(&want)
    );
}

#[test]
fn an_untouched_case_is_never_rewritten() {
    let want = request(RED, &[]);
    let mut tr = settled(&want, 0);
    let t = DT_SETTLE + DT_VERIFY_PERIOD;
    assert!(!tr.begin_verify(true, true, t - 1));
    assert!(!tr.begin_verify(false, true, t));
    assert!(!tr.begin_verify(true, false, t));
    assert!(tr.begin_verify(true, true, t));
    assert_eq!(tr.applied_len(), 1);
    assert_eq!(tr.verify_area(0), Some(area::ALL));
    assert_eq!(tr.judge(0, Some((RED, flags::ON))), Finding::Agreed);
    assert!(idle(tr.decide(Some(&want), true, t)));
    assert!(!tr.begin_verify(true, true, t + 1));
}

#[test]
fn a_repainted_area_is_rewritten_and_given_up_after_two_rewrites() {
    let want = request(RED, &[(area::FRONT, BLUE)]);
    let mut tr = settled(&want, 0);
    let mut t = DT_SETTLE;
    for _ in 0..DT_VERIFY_STRIKES {
        t += DT_VERIFY_PERIOD;
        assert!(tr.begin_verify(true, true, t));
        assert_eq!(tr.judge(0, Some((RED, flags::ON))), Finding::Agreed);
        assert_eq!(tr.judge(1, Some((GREEN, flags::ON))), Finding::Diverged);
        assert_eq!(
            writes(tr.decide(Some(&want), true, t)),
            vec![write(area::FRONT, BLUE)]
        );
        tr.succeed(&want, t);
        assert_eq!(tr.verify_note(), None);
    }
    t += DT_VERIFY_PERIOD;
    assert!(tr.begin_verify(true, true, t));
    assert_eq!(tr.judge(1, Some((GREEN, flags::ON))), Finding::GaveUp);
    assert_eq!(
        tr.verify_note().unwrap(),
        "the front doesn't echo our writes — hold isn't re-asserting it"
    );
    assert!(idle(tr.decide(Some(&want), true, t)));
    assert_eq!(tr.verify_area(1), None);
}

#[test]
fn a_failing_getter_ends_verification() {
    let want = request(RED, &[]);
    let mut tr = settled(&want, 0);
    let t = DT_SETTLE + DT_VERIFY_PERIOD;
    assert!(tr.begin_verify(true, true, t));
    assert_eq!(tr.judge(0, None), Finding::Broken);
    assert!(!tr.begin_verify(true, true, t + 10 * DT_VERIFY_PERIOD));
    assert_eq!(
        tr.verify_note().unwrap(),
        "case read-back unavailable — hold won't re-assert the case"
    );
    assert_eq!(
        read_failure("boom"),
        "case read-back unavailable (boom) — hold won't re-assert the case"
    );
}

#[test]
fn notes_name_every_area_that_is_left_alone() {
    assert_eq!(verify_note(false, &[]), None);
    assert_eq!(
        verify_note(false, &[area::ALL, area::REAR]).unwrap(),
        "the whole case, the rear doesn't echo our writes — hold isn't re-asserting it"
    );
    assert_eq!(area_name(area::TOP), "the top");
    assert_eq!(area_name(area::AUX), "the aux area");
    assert_eq!(area_name(0x77), "an area");
}

#[test]
fn errors_are_reported_when_they_change() {
    let mut last = None;
    assert!(set_dt_error(&mut last, None).is_none());
    match set_dt_error(&mut last, Some("bad".to_string())) {
        Some(EngineEvent::DtStatus { available, error }) => {
            assert!(available);
            assert_eq!(error.unwrap(), "bad");
        }
        _ => panic!("no status"),
    }
    assert!(set_dt_error(&mut last, Some("bad".to_string())).is_none());
    assert!(set_dt_error(&mut last, None).is_some());
}

#[test]
fn uncaptured_effects_are_refused() {
    let mut z = write(area::FRONT, RED);
    let tx = zone_transaction(&z).unwrap();
    assert_eq!(tx.behavior[0], area::FRONT as u8);
    z.effect = DtEffect::Rainbow;
    let e = zone_transaction(&z).unwrap_err();
    assert!(e.contains("Rainbow"));
    z.area = area::ALL;
    assert_eq!(zone_transaction(&z).unwrap().behavior[3], 0x06);
}

#[test]
fn clocks_that_run_backwards_have_not_elapsed() {
    assert_eq!(elapsed(7, 5), 2);
    assert_eq!(elapsed(5, 7), 0);
}

#[test]
fn a_still_case_ignores_the_speed() {
    let slow = request(RED, &[]);
    let fast = DtState { speed: 9, ..request(RED, &[]) };
    assert_eq!(resolve_dt(&slow), resolve_dt(&fast));
    let moving = DtState { effect: DtEffect::Snake, speed: 200, ..request(RED, &[]) };
    let z = resolve_dt(&moving)[0];
    assert_eq!(z.speed, 10);
    assert_eq!(zone_transaction(&z).unwrap().behavior[5], 10);
}

#[test]
fn a_palette_case_ignores_the_color() {
    let a = DtState { effect: DtEffect::Rainbow, ..request(RED, &[]) };
    let b = DtState { effect: DtEffect::Rainbow, ..request(BLUE, &[]) };
    assert_eq!(resolve_dt(&a), resolve_dt(&b));
    assert_eq!(resolve_dt(&a)[0].color, Rgb(0, 0, 0));
}

#[test]
fn a_palette_case_that_still_echoes_the_color_is_rewritten() {
    let want = DtState { effect: DtEffect::Rainbow, ..request(RED, &[]) };
    let mut tr = settled(&want, 0);
    let mut t = DT_SETTLE;
    for _ in 0..DT_VERIFY_STRIKES {
        t += DT_VERIFY_PERIOD;
        assert!(tr.begin_verify(true, true, t));
        assert_eq!(tr.judge(0, Some((RED, flags::ON))), Finding::Diverged);
        assert_eq!(writes(tr.decide(Some(&want), true, t)), resolve_dt(&want));
        tr.succeed(&want, t);
    }
    t += DT_VERIFY_PERIOD;
    assert!(tr.begin_verify(true, true, t));
    assert_eq!(tr.judge(0, Some((Rgb(0, 0, 0), flags::ON))), Finding::Agreed);
}

#[test]
fn diverged_areas_are_rewritten() {
    // Flags that are neither on nor off count as neither.
    for on in [true, false] {
        let want = DtState { on, ..request(RED, &[]) };
        let mut tr = settled(&want, 0);
        let t = DT_SETTLE + DT_VERIFY_PERIOD;
        assert!(tr.begin_verify(true, true, t));
        assert_eq!(tr.judge(0, Some((RED, 0x05))), Finding::Diverged);
        assert_eq!(writes(tr.decide(Some(&want), true, t)), resolve_dt(&want));
    }
}

#[test]
fn plans_are_sent_write_by_write() {
    let mut plan = resolve_dt(&request(RED, &[(area::FRONT, BLUE)]));
    plan[1].effect = DtEffect::Wave;
    let first = next_write(&plan, 0).unwrap().unwrap();
    let whole = zone_transaction(&plan[0]).unwrap();
    assert_eq!((first.behavior, first.word), (whole.behavior, whole.word));
    assert!(next_write(&plan, 1).unwrap().unwrap_err().contains("Wave"));
    assert!(next_write(&plan, 2).is_none());
}
