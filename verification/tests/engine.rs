use colormemuch::effects::{Effect, Fx, Params, ZoneSource};
use colormemuch::engine::pass::{
    hidden_line, is_hidden, is_inert, list_controllers, plan_pass, Command, DeviceTrack,
};
use colormemuch::engine::session::{
    no_such_device, on_wait_over, on_wakeup, save_failed, sleep_time, Control, SaveResult, Session,
    Wakeup,
};
use colormemuch::engine::{
    active_hz, frame_rate, fx_hz, is_animating, DeviceMode, EngineState, HwSpec, HOLD_PERIOD,
    IDLE_TICK,
};
use colormemuch::library::{CustomEffect, Motion};
use colormemuch::openrgb::Controller;
use colormemuch::rgb::Rgb;

fn spec(mode: &str, speed: u32) -> HwSpec {
    HwSpec { mode: mode.to_string(), color: Rgb(1, 2, 3), speed, brightness: 80 }
}

fn moving(e: Effect) -> ZoneSource {
    ZoneSource::Function(Fx::Program(e), Params::default())
}

#[test]
fn signatures_spell_the_effect_out() {
    assert_eq!(spec("Wave", 5).signature(), "Wave|Rgb(1, 2, 3)|5|80");
    assert_ne!(spec("Wave", 5).signature(), spec("Wave", 6).signature());
}

#[test]
fn only_moving_zones_animate() {
    let mut s = EngineState::default();
    assert!(!is_animating(&s));
    assert_eq!(frame_rate(&s), None);
    s.devices.push(DeviceMode::Hardware(spec("Wave", 5)));
    s.devices.push(DeviceMode::PerZone(vec![ZoneSource::Solid(Rgb(0, 0, 0))]));
    assert!(!is_animating(&s));
    s.devices.push(DeviceMode::PerZone(vec![moving(Effect::Breathe), moving(Effect::Rainbow)]));
    assert!(is_animating(&s));
    assert_eq!(frame_rate(&s), Some(16));
    s.devices.push(DeviceMode::PerZone(vec![moving(Effect::Comet)]));
    assert_eq!(active_hz(&s), 24);
}

#[test]
fn rates_follow_what_moves() {
    assert_eq!(fx_hz(&Fx::Program(Effect::Police)), 24);
    assert_eq!(fx_hz(&Fx::Program(Effect::Gradient)), 16);
    assert_eq!(fx_hz(&Fx::Program(Effect::Breathe)), 10);
    let mut c = CustomEffect::new_default("x".to_string());
    let mut rate = |m: Motion| {
        c.motion = m;
        fx_hz(&Fx::Custom(c.clone()))
    };
    assert_eq!(rate(Motion::Twinkle), 22);
    assert_eq!(rate(Motion::Bounce), 18);
    assert_eq!(rate(Motion::Pulse), 10);
    assert_eq!(rate(Motion::Static), 0);
    let mut still = CustomEffect::new_default("y".to_string());
    still.motion = Motion::Static;
    let s = EngineState {
        devices: vec![DeviceMode::PerZone(vec![ZoneSource::Function(
            Fx::Custom(still),
            Params::default(),
        )])],
        ..EngineState::default()
    };
    assert_eq!(active_hz(&s), 8);
}

#[test]
fn a_repeated_pass_is_silent() {
    let mut tracks = vec![DeviceTrack::new(), DeviceTrack::new()];
    let devices = vec![
        DeviceMode::Hardware(spec("Wave", 5)),
        DeviceMode::PerZone(vec![ZoneSource::Solid(Rgb(9, 9, 9))]),
    ];
    let frames = vec![vec![], vec![Rgb(9, 9, 9)]];
    let plan = plan_pass(&mut tracks, &devices, &frames, false);
    assert_eq!(
        plan,
        vec![
            Command::Apply { device: 0 },
            Command::Frame { device: 1, enter: true },
        ]
    );
    tracks[0].applied(&spec("Wave", 5));
    tracks[1].pushed(vec![Rgb(9, 9, 9)], true);
    assert!(plan_pass(&mut tracks, &devices, &frames, false).is_empty());
    assert_eq!(
        plan_pass(&mut tracks, &devices, &frames, true),
        vec![
            Command::Apply { device: 0 },
            Command::Frame { device: 1, enter: false },
        ]
    );
    tracks[1].invalidate();
    assert_eq!(
        plan_pass(&mut tracks, &devices, &frames, false),
        vec![Command::Frame { device: 1, enter: true }]
    );
}

#[test]
fn a_changed_effect_is_applied_and_a_change_of_tier_starts_over() {
    let mut tracks = vec![DeviceTrack::new()];
    tracks[0].applied(&spec("Wave", 5));
    let faster = vec![DeviceMode::Hardware(spec("Wave", 6))];
    assert_eq!(
        plan_pass(&mut tracks, &faster, &vec![vec![]], false),
        vec![Command::Apply { device: 0 }]
    );
    let zones = vec![DeviceMode::PerZone(vec![ZoneSource::Solid(Rgb(1, 1, 1))])];
    let frames = vec![vec![Rgb(1, 1, 1)]];
    assert_eq!(
        plan_pass(&mut tracks, &zones, &frames, false),
        vec![Command::Frame { device: 0, enter: true }]
    );
    tracks[0].pushed(frames[0].clone(), true);
    let back = vec![DeviceMode::Hardware(spec("Wave", 5))];
    assert_eq!(
        plan_pass(&mut tracks, &back, &vec![vec![]], false),
        vec![Command::Apply { device: 0 }]
    );
}

#[test]
fn devices_without_a_state_are_left_alone() {
    let mut tracks = vec![DeviceTrack::new(), DeviceTrack::new()];
    assert!(plan_pass(&mut tracks, &vec![], &vec![], true).is_empty());
    let three = vec![
        DeviceMode::Hardware(spec("A", 1)),
        DeviceMode::Hardware(spec("B", 1)),
        DeviceMode::Hardware(spec("C", 1)),
    ];
    let plan = plan_pass(&mut tracks, &three, &vec![vec![], vec![], vec![]], false);
    assert_eq!(plan.len(), 2);
}

fn named(name: &str, vendor: &str) -> Controller {
    Controller {
        index: 0,
        name: name.to_string(),
        vendor: vendor.to_string(),
        description: String::new(),
        location: String::new(),
        serial: String::new(),
        dev_type: 0,
        modes: vec![],
        active_mode: 0,
        zones: vec![],
        leds: vec![],
        colors: vec![],
        led_count: 0,
    }
}

#[test]
fn inert_and_foreign_controllers_are_hidden() {
    assert!(is_inert(&named("acerdtGlobal", "Acer")));
    assert!(is_inert(&named("G502 HERO Gaming Mouse", "")));
    assert!(is_inert(&named("Mouse", "LogiTech")));
    assert!(is_inert(&named("g512 keys", "x")));
    assert!(!is_inert(&named("AcerHIDKeyboard Device", "Acer")));
    assert!(!is_inert(&named("My AcerDT", "Acer")));
    assert!(is_hidden("ACERDTAREA1 ACER"));
    assert!(!is_hidden("acerdtarea1"));
    let (live, dead) = list_controllers(vec![
        named("A", "x"),
        named("AcerDTArea1", "Acer"),
        named("B", "y"),
    ]);
    assert_eq!(live.iter().map(|c| c.name.as_str()).collect::<Vec<_>>(), vec!["A", "B"]);
    assert_eq!(dead.len(), 1);
    assert_eq!(
        hidden_line(&dead[0]),
        "engine: hiding inert OpenRGB controller 'AcerDTArea1' (WMI owns it)"
    );
}

#[test]
fn the_loop_sleeps_no_longer_than_it_may() {
    assert_eq!(sleep_time(None, None), IDLE_TICK);
    assert_eq!(sleep_time(Some(40), None), 40);
    assert_eq!(sleep_time(Some(40), Some(5)), 5);
    assert_eq!(sleep_time(None, Some(2 * IDLE_TICK)), IDLE_TICK);
}

#[test]
fn the_loop_ends_when_nobody_listens() {
    assert_eq!(on_wakeup(Wakeup::State), Control::Render);
    assert_eq!(on_wakeup(Wakeup::Timeout), Control::Render);
    assert_eq!(on_wakeup(Wakeup::Reconnect), Control::Reconnect);
    assert_eq!(on_wakeup(Wakeup::Closed), Control::Quit);
    assert_eq!(on_wait_over(Wakeup::Timeout), Control::Reconnect);
    assert_eq!(on_wait_over(Wakeup::State), Control::Reconnect);
    assert_eq!(on_wait_over(Wakeup::Closed), Control::Quit);
}

#[test]
fn held_profiles_are_pushed_again() {
    let mut s = Session::new(2);
    assert!(s.is_forced(true, 0));
    assert!(!s.is_forced(false, 0));
    s.forced(10);
    assert!(!s.is_forced(true, 10 + HOLD_PERIOD - 1));
    assert!(s.is_forced(true, 10 + HOLD_PERIOD));
    assert_eq!(s.battery(true, true), (true, true));
    assert_eq!(s.battery(true, true), (true, false));
    assert_eq!(s.battery(false, true), (false, true));
}

#[test]
fn a_failed_save_drops_the_connection() {
    let mut s = Session::new(1);
    s.tracks[0].applied(&spec("Wave", 5));
    assert!(s.has_device(0) && !s.has_device(1));
    assert_eq!(s.saved(0, &SaveResult::Done(false)), Control::Sleep);
    assert!(s.tracks[0].applied_hw.is_none());
    assert_eq!(s.saved(1, &SaveResult::Failed(no_such_device())), Control::Reconnect);
    assert_eq!(no_such_device(), "no such device");
    assert_eq!(save_failed(), "save failed");
}
