use colormemuch::dt::{area, AreaCmd, DtEffect};
use colormemuch::effects::{shared_clock_groups, Effect, Fx, Params, ZoneSource};
use colormemuch::engine::DeviceMode as EngDeviceMode;
use colormemuch::host::HostEvent;
use colormemuch::library::{seed, EffectLibrary};
use colormemuch::model::{DeviceDescriptor, DeviceKind, LedInfo, ZoneInfo, ZoneKind};
use colormemuch::number::{Single, ONE};
use colormemuch::rgb::Rgb;
use colormemuch::screen::case::{
    area_cards, area_look, case_subtitle, effect_choices, find_override, switch_area, switch_case,
};
use colormemuch::screen::editor::{edit_effect, new_effect};
use colormemuch::screen::labels::{
    closing_hint, device_caption, device_subtitle, friendly_name, group_caption, override_count,
    short_name, status_pill, zone_title, Link, Tone,
};
use colormemuch::screen::setup::{
    capture_devices, master_of, DeviceMode, DeviceSetup, HwEffect, Kind, LightingSetup, SavedDevice,
    ZoneUi,
};
use colormemuch::screen::zones::{
    group_of_zone, mode_tab, pick_mode, pick_source, set_spread, source_tab, without_repeats,
    ModeTab, SourceTab,
};
use colormemuch::screen::{describe_save, Conn, Notice, Rates, Screen};

fn setup() -> LightingSetup {
    LightingSetup {
        master: 80,
        spread: vec!["p:Fire".to_string(), "p:Fire".to_string()],
        hold: true,
        battery_saver: false,
        devices: vec![],
        dt: None,
    }
}

fn library() -> EffectLibrary {
    EffectLibrary { effects: seed() }
}

fn device(name: &str, leds: u16) -> DeviceDescriptor {
    DeviceDescriptor {
        index: 0,
        name: name.to_string(),
        vendor: String::new(),
        description: String::new(),
        location: String::new(),
        serial: String::new(),
        kind: DeviceKind::Keyboard,
        zones: vec![ZoneInfo {
            name: "z".to_string(),
            kind: ZoneKind::Linear,
            start: 0,
            leds_count: leds as u32,
            leds_min: 0,
            leds_max: 0,
            matrix: None,
        }],
        leds: (0..leds).map(|i| LedInfo { name: format!("L{i}") }).collect(),
        modes: vec![],
        active_mode: 0,
        colors: vec![],
        led_count: leds,
    }
}

fn screen() -> Screen {
    Screen::new(setup(), library())
}

fn connected(devices: Vec<DeviceDescriptor>) -> Screen {
    let mut s = screen();
    assert!(!s.on_event(HostEvent::Connected(devices), false, &setup()));
    s
}

// ------------------------------------------------------------------- screen

#[test]
fn the_screen_starts_from_what_was_kept() {
    let s = screen();
    assert!(matches!(s.conn, Conn::Connecting));
    assert_eq!((s.master, s.hold, s.selected, s.dirty), (80, true, 0, false));
    assert_eq!(s.spread, vec!["p:Fire".to_string()]);
    assert_eq!((master_of(0), master_of(100), master_of(101), master_of(1)), (100, 100, 100, 1));
    assert!(s.capture().is_none());
}

#[test]
fn connecting_sizes_the_settings_to_the_devices() {
    let mut s = connected(vec![device("A", 4), device("B", 1)]);
    assert_eq!((s.zones.len(), s.zones[0].len(), s.zones[1].len()), (2, 4, 1));
    assert!(matches!(s.zones[0][0].kind, Kind::Solid));
    assert_eq!(s.zones[0][0].color, [0x00, 0xE5, 0xFF]);
    assert!(s.take_update());
    assert!(!s.take_update());
}

#[test]
fn selections_always_show_something() {
    let mut s = screen();
    s.selected = 9;
    s.on_event(HostEvent::Connected(vec![device("A", 1), device("B", 1)]), false, &setup());
    assert_eq!((s.selected, s.case_offered(), s.case_selected()), (1, false, false));
    s.on_event(HostEvent::DtStatus { available: true, error: None }, false, &setup());
    assert!(s.case_offered());
    s.selected = s.case_index();
    assert!(s.case_selected());
    s.settle_selection();
    assert_eq!(s.selected, 2);
    s.on_event(HostEvent::DtStatus { available: false, error: Some("e".to_string()) }, false, &setup());
    s.settle_selection();
    assert_eq!((s.selected, s.case_selected()), (1, false));
    assert_eq!(s.dt_error.as_deref(), Some("e"));
    let tower = connected(vec![]);
    assert!(tower.case_offered() && tower.case_selected());
}

#[test]
fn a_dropped_service_fails_over() {
    let mut s = connected(vec![device("A", 1)]);
    s.dirty = false;
    assert!(s.on_event(HostEvent::Disconnected("x".to_string()), true, &setup()));
    assert!(matches!(s.conn, Conn::Connecting) && s.dirty);
    assert!(!s.take_update());
    assert!(!s.on_event(HostEvent::Disconnected("x".to_string()), false, &setup()));
    match &s.conn {
        Conn::Failed(e) => assert_eq!(e, "x"),
        _ => panic!("not failed"),
    }
    assert_eq!(s.conn.link(), Link::Failed);
    s.reconnect();
    assert_eq!(s.conn.link(), Link::Connecting);
}

#[test]
fn saves_are_reported() {
    let mut s = connected(vec![device("A", 1)]);
    assert!(s.request_save().is_none());
    s.dev_mode[0] = pick_mode(ModeTab::Hardware, &vec!["Wave".to_string()]);
    let (i, spec) = s.request_save().unwrap();
    assert_eq!((i, spec.mode.as_str(), spec.speed, spec.brightness), (0, "Wave", 5, 100));
    assert_eq!(s.notice.as_ref().unwrap().1, "Saving to device…");
    s.on_event(HostEvent::SaveResult(Ok(true)), false, &setup());
    let (kind, text) = s.notice.as_ref().unwrap();
    assert_eq!((*kind, text.as_str()), (Notice::Success, "Saved to device — survives reboot."));
    assert_eq!(
        describe_save(&Ok(false)),
        (Notice::Info, "This effect can't be saved to firmware.".to_string())
    );
    assert_eq!(
        describe_save(&Err("e".to_string())),
        (Notice::Error, "Save failed: e".to_string())
    );
    s.on_event(HostEvent::OnBattery(true), false, &setup());
    assert!(s.on_battery);
}

#[test]
fn the_engine_gets_resolved_sources() {
    let mut s = connected(vec![device("A", 3), device("B", 1)]);
    s.zones[0][0].kind = Kind::Program(Effect::Comet);
    s.zones[0][1].kind = Kind::Custom("Ocean".to_string());
    s.zones[0][2].kind = Kind::Custom("gone".to_string());
    s.dev_mode[1] = pick_mode(ModeTab::Hardware, &vec![]);
    s.dt = switch_case(true);
    let rate = Rates { speed: Single(1.25f32.to_bits()), brightness: Single(0.5f32.to_bits()) };
    let e = s.engine_state(&vec![vec![rate; 3], vec![rate]], Single(ONE));
    match &e.devices[0] {
        EngDeviceMode::PerZone(z) => {
            assert_eq!(z[0].fx().unwrap().key(), "p:Comet");
            assert_eq!(z[1].fx().unwrap().key(), "c:Ocean");
            assert!(matches!(z[2], ZoneSource::Solid(Rgb(0x00, 0xE5, 0xFF))));
            let p = z[0].params().unwrap();
            assert_eq!((p.speed, p.brightness, p.color_b), (rate.speed, rate.brightness, Rgb(0xFF, 0, 0x88)));
        }
        _ => panic!("not per zone"),
    }
    match &e.devices[1] {
        EngDeviceMode::Hardware(h) => assert_eq!(h.mode, "STATIC"),
        _ => panic!("not hardware"),
    }
    assert_eq!((e.hold, e.battery_saver, e.spread.len()), (true, false, 1));
    assert_eq!(e.dt.unwrap().color, Rgb(0x00, 0xE5, 0xFF));
    assert!(s.selected_animating());
    s.selected = 1;
    assert!(!s.selected_animating());
}

// -------------------------------------------------------------------- setup

#[test]
fn kept_settings_come_back() {
    let mut s = connected(vec![device("A", 2)]);
    s.zones[0][1].kind = Kind::Program(Effect::Wave);
    s.zones[0][1].speed = 9;
    let kept = s.capture().unwrap();
    assert_eq!(kept.devices.len(), 1);
    let (mode, zones) = kept.restore(&device("A", 2));
    assert!(matches!(mode, DeviceMode::PerZone));
    assert!(matches!(zones[1].kind, Kind::Program(Effect::Wave)));
    assert_eq!(zones[1].speed, 9);
    let (_, other) = kept.restore(&device("A", 3));
    assert_eq!(other.len(), 3);
    assert!(matches!(other[1].kind, Kind::Solid));
}

#[test]
fn settings_kept_by_name_are_found_too() {
    let hw = HwEffect { mode: "Neon".to_string(), color: [1, 2, 3], speed: 4, brightness: 5 };
    let kept = LightingSetup {
        devices: vec![SavedDevice {
            key: "A".to_string(),
            setup: DeviceSetup {
                mode: DeviceMode::Hardware(hw),
                zones: vec![ZoneUi::default(), ZoneUi::default()],
            },
        }],
        ..setup()
    };
    match kept.restore(&device("A", 2)).0 {
        DeviceMode::Hardware(h) => assert_eq!(h.mode, "Neon"),
        _ => panic!("not hardware"),
    }
    assert!(matches!(kept.restore(&device("A", 1)).0, DeviceMode::PerZone));
    assert!(matches!(kept.restore(&device("B", 2)).0, DeviceMode::PerZone));
}

#[test]
fn twins_keep_one_entry() {
    let twins = vec![device("A", 1), device("A", 1)];
    let modes = vec![DeviceMode::PerZone, DeviceMode::PerZone];
    let mut second = ZoneUi::default();
    second.speed = 7;
    let zones = vec![vec![ZoneUi::default()], vec![second]];
    let kept = capture_devices(&twins, &modes, &zones);
    assert_eq!(kept.len(), 1);
    assert_eq!(kept[0].key, twins[0].topology_sig());
    assert_eq!(kept[0].setup.zones[0].speed, 7);
}

// --------------------------------------------------------------------- case

#[test]
fn overrides_are_switched_one_by_one() {
    assert!(switch_case(false).is_none());
    let mut dt = switch_case(true).unwrap();
    assert_eq!((dt.color, dt.on, dt.effect, dt.speed), ([0x00, 0xE5, 0xFF], true, DtEffect::Static, 3));
    assert!(switch_area(&mut dt, area::FRONT, true));
    assert!(!switch_area(&mut dt, area::FRONT, true));
    assert!(switch_area(&mut dt, area::TOP, true));
    assert_eq!(find_override(&dt.areas, area::TOP), Some(1));
    assert_eq!(area_look(&dt, area::FRONT), (Rgb(0x00, 0xE5, 0xFF), true));
    assert!(switch_area(&mut dt, area::FRONT, false));
    assert!(!switch_area(&mut dt, area::FRONT, false));
    dt.color = [1, 2, 3];
    assert_eq!(area_look(&dt, area::FRONT), (Rgb(1, 2, 3), false));
    assert_eq!(
        dt.areas,
        vec![AreaCmd { area: area::TOP, color: Rgb(0x00, 0xE5, 0xFF), on: true, effect: DtEffect::Static }]
    );
}

#[test]
fn only_captured_effects_can_be_picked() {
    let cards = area_cards();
    assert_eq!(cards.iter().filter(|c| c.verified).count(), 1);
    assert_eq!((cards[0].area, cards[0].title), (area::FRONT, "Front"));
    let whole = effect_choices(area::ALL);
    assert_eq!(whole.len(), 12);
    assert!(whole.iter().all(|c| c.enabled));
    let front = effect_choices(area::FRONT);
    assert!(front.iter().all(|c| c.enabled == (c.effect == DtEffect::Static)));
    assert_eq!(case_subtitle(true), "Tower · WMI");
    assert_eq!(case_subtitle(false), "Tower · unavailable");
}

// -------------------------------------------------------------------- zones

#[test]
fn tabs_start_from_the_first_choice() {
    assert_eq!(mode_tab(&pick_mode(ModeTab::PerZone, &vec![])), ModeTab::PerZone);
    assert_eq!(mode_tab(&pick_mode(ModeTab::Hardware, &vec![])), ModeTab::Hardware);
    let mut z = ZoneUi::default();
    assert_eq!(source_tab(&z.kind), SourceTab::Solid);
    pick_source(&mut z, SourceTab::Program, None);
    assert!(matches!(z.kind, Kind::Program(Effect::Rainbow)));
    let first = "Sunset".to_string();
    pick_source(&mut z, SourceTab::Custom, Some(&first));
    assert_eq!(source_tab(&z.kind), SourceTab::Custom);
    pick_source(&mut z, SourceTab::Custom, None);
    assert_eq!(source_tab(&z.kind), SourceTab::Solid);
}

#[test]
fn effects_are_spread_and_linked() {
    let texts = |v: &[&str]| v.iter().map(|s| s.to_string()).collect::<Vec<String>>();
    let mut spread = texts(&["a", "b"]);
    set_spread(&mut spread, &"c".to_string(), true);
    set_spread(&mut spread, &"c".to_string(), true);
    assert_eq!(spread, texts(&["a", "b", "c"]));
    set_spread(&mut spread, &"a".to_string(), false);
    set_spread(&mut spread, &"z".to_string(), false);
    assert_eq!(spread, texts(&["b", "c"]));
    assert_eq!(without_repeats(&texts(&["x", "y", "x"])), texts(&["x", "y"]));
}

#[test]
fn zones_know_their_group() {
    let f = |e: Effect| ZoneSource::Function(Fx::Program(e), Params::default());
    let groups = shared_clock_groups(&[
        f(Effect::Fire),
        f(Effect::Wave),
        f(Effect::Fire),
        f(Effect::Wave),
        ZoneSource::Solid(Rgb(0, 0, 0)),
    ]);
    assert_eq!(group_of_zone(&groups, 2), Some(0));
    assert_eq!(group_of_zone(&groups, 3), Some(1));
    assert_eq!(group_of_zone(&groups, 4), None);
    assert_eq!(group_caption(&groups[1]), "Zones 2, 4");
}

// ------------------------------------------------------------------- editor

#[test]
fn renamed_drafts_replace_what_they_were() {
    let mut lib = library();
    assert!(edit_effect(&lib, "nope").is_none());
    let mut ed = edit_effect(&lib, "Ocean").unwrap();
    ed.draft.name = "  ".to_string();
    assert!(!ed.can_save());
    ed.draft.name = "Sea".to_string();
    assert!(ed.can_save());
    assert!(ed.save(&mut lib));
    assert!(lib.get("Ocean").is_none());
    assert!(lib.get("Sea").is_some());
    assert!(lib.get("Ember").is_some());
    let ed = edit_effect(&lib, "Sea").unwrap();
    assert!(ed.delete(&mut lib));
    assert!(lib.get("Sea").is_none());
}

#[test]
fn unnamed_drafts_are_not_saved() {
    let mut lib = library();
    let mut ed = new_effect(&lib);
    assert_eq!(ed.draft.name, "Custom 1");
    assert!(!ed.delete(&mut lib));
    ed.draft.name = "\u{2003}\t".to_string();
    assert!(!ed.save(&mut lib));
    assert_eq!(lib.effects.len(), seed().len());
}

#[test]
fn palettes_keep_their_last_stop() {
    let lib = library();
    let mut ed = new_effect(&lib);
    ed.add_stop();
    assert_eq!(ed.draft.palette.len(), 3);
    assert_eq!(ed.draft.palette[2].rgb, [0xFF, 0xFF, 0xFF]);
    assert_eq!(ed.draft.palette[2].pos, Single(ONE));
    assert!(!ed.remove_stop(3));
    assert!(ed.remove_stop(0));
    assert_eq!(ed.draft.palette[0].rgb, [0xFF, 0x00, 0x88]);
    assert!(ed.remove_stop(0));
    assert!(!ed.can_remove_stop() && !ed.remove_stop(0));
}

// ------------------------------------------------------------------- labels

#[test]
fn devices_go_by_short_names() {
    assert_eq!(short_name("AcerHIDKeyboard Device"), "AcerHIDKeyboard");
    assert_eq!(short_name("AcerHIDCoverLogoLED Device Device"), "AcerHIDCoverLogoLED");
    assert_eq!(short_name("AcerDTArea3"), "Area 3");
    assert_eq!(short_name("AcerDTGlobal Device"), "Global (all areas)");
    assert_eq!(short_name("  Mouse Device"), "Mouse");
    assert_eq!(short_name("\u{2003}Strip\u{3000}"), "Strip");
    assert_eq!(short_name("\u{200B}Strip"), "\u{200B}Strip");
    assert_eq!(friendly_name("AcerHIDModeKeyLED"), "AcerHIDModeKeyLED");
    assert_eq!(friendly_name("AcerDTDIMM"), "DIMM / RAM");
}

#[test]
fn captions_count_what_they_name() {
    let kb = DeviceKind::Keyboard.label();
    assert_eq!(device_subtitle(DeviceKind::Keyboard, 1), format!("{kb} · 1 zone"));
    assert_eq!(device_subtitle(DeviceKind::Keyboard, 4), format!("{kb} · 4 zones"));
    assert_eq!(
        device_caption(DeviceKind::Keyboard, 4, false, true),
        format!("{kb} · 4 zones · Composited by the service · kept after the window closes")
    );
    assert_eq!(override_count(0), None);
    assert_eq!(override_count(1).unwrap(), "1 override");
    assert_eq!(override_count(2).unwrap(), "2 overrides");
    assert_eq!(zone_title(0, ""), "Zone 1");
    assert_eq!(zone_title(0, "Esc"), "Esc");
}

#[test]
fn pills_are_honest() {
    assert_eq!(status_pill(Link::Ready, true, true).text, "Held · Service");
    assert_eq!(status_pill(Link::Ready, true, false).text, "Service");
    assert_eq!(status_pill(Link::Ready, false, true).text, "Holding");
    let live = status_pill(Link::Ready, false, false);
    assert_eq!((live.text, live.tone), ("Live", Tone::Caution));
    assert_eq!(status_pill(Link::Failed, true, true).tone, Tone::Bad);
    assert_eq!(status_pill(Link::Connecting, true, true).text, "Connecting…");
    assert!(closing_hint(true).contains("service"));
    assert!(closing_hint(false).contains("tray"));
}
