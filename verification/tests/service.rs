use colormemuch::daemon::{
    answer, capability_list, describe_device, led_names, listing_head, parse_verb, pipe_path,
    save_answer, wide, Snapshot, Task, Verb, DISPLAY_NAME, SERVICE_NAME,
};
use colormemuch::engine::{EngineEvent, EngineState, HwSpec};
use colormemuch::host::{from_engine, Client, HostEvent, POLL_INTERVAL};
use colormemuch::ipc::{frame, frame_len, ClientMsg, ServerMsg, PIPE_NAME};
use colormemuch::model::{DeviceDescriptor, DeviceKind, LedInfo, Matrix, ModeInfo, ZoneInfo, ZoneKind};
use colormemuch::openrgb::Controller;
use colormemuch::rgb::Rgb;
use colormemuch::tray::{poll, TrayAction};
use colormemuch::wmi::{packed_argument, reader_status, WmiError};

fn device(name: &str, leds: u32) -> DeviceDescriptor {
    DeviceDescriptor {
        index: 1,
        name: name.to_string(),
        vendor: "Acer".to_string(),
        description: "kb".to_string(),
        location: String::new(),
        serial: String::new(),
        kind: DeviceKind::Keyboard,
        zones: vec![
            ZoneInfo {
                name: "Main".to_string(),
                kind: ZoneKind::Matrix,
                start: 0,
                leds_count: leds,
                leds_min: 0,
                leds_max: leds,
                matrix: Some(Matrix { height: 2, width: 3, map: vec![None; 6] }),
            },
            ZoneInfo {
                name: "Logo".to_string(),
                kind: ZoneKind::Single,
                start: leds,
                leds_count: 1,
                leds_min: 1,
                leds_max: 1,
                matrix: None,
            },
        ],
        leds: vec![LedInfo { name: "A".to_string() }, LedInfo { name: "B".to_string() }],
        modes: vec![ModeInfo {
            name: "Wave".to_string(),
            flags: 0,
            has_speed: true,
            has_brightness: false,
            has_direction: true,
            takes_color: false,
            can_save: true,
            speed_range: (1, 9),
            brightness_range: (0, 0),
        }],
        active_mode: 0,
        colors: vec![],
        led_count: 2,
    }
}

fn controller(name: &str) -> Controller {
    Controller {
        index: 0,
        name: name.to_string(),
        vendor: String::new(),
        description: String::new(),
        location: String::new(),
        serial: String::new(),
        dev_type: 5,
        modes: vec![],
        active_mode: 0,
        zones: vec![],
        leds: vec![],
        colors: vec![],
        led_count: 0,
    }
}

// ---------------------------------------------------------------------- ipc

#[test]
fn frames_read_back() {
    let f = frame(b"{}");
    assert_eq!(f, vec![2, 0, 0, 0, b'{', b'}']);
    assert_eq!(frame_len(&[f[0], f[1], f[2], f[3]]), 2);
    assert_eq!(frame(&[]), vec![0, 0, 0, 0]);
    assert_eq!(frame_len(&[0x01, 0x02, 0x03, 0x04]), 0x0403_0201);
}

// ------------------------------------------------------------------- daemon

#[test]
fn polls_report_the_last_event() {
    let mut s = Snapshot::default();
    s.absorb(EngineEvent::Disconnected("gone".to_string()));
    match s.report() {
        ServerMsg::Status { connected, error, controllers, .. } => {
            assert!(!connected && controllers.is_none());
            assert_eq!(error.unwrap(), "gone");
        }
        _ => panic!("no status"),
    }
    s.absorb(EngineEvent::Connected(vec![controller("KB")]));
    s.absorb(EngineEvent::OnBattery(true));
    s.absorb(EngineEvent::DtStatus { available: true, error: Some("e".to_string()) });
    match s.report() {
        ServerMsg::Status { connected, error, on_battery, controllers, dt_available, dt_error } => {
            assert!(connected && error.is_none() && on_battery && dt_available);
            assert_eq!(controllers.unwrap()[0].name, "KB");
            assert_eq!(dt_error.unwrap(), "e");
        }
        _ => panic!("no status"),
    }
    s.absorb(EngineEvent::Disconnected("lost".to_string()));
    match s.report() {
        ServerMsg::Status { connected, controllers, .. } => {
            assert!(!connected && controllers.is_some());
        }
        _ => panic!("no status"),
    }
}

#[test]
fn requests_are_answered() {
    let s = Snapshot::default();
    assert!(matches!(answer(ClientMsg::Hello, &s), (Task::Nothing, Some(ServerMsg::Done))));
    assert!(matches!(
        answer(ClientMsg::Poll, &s),
        (Task::Nothing, Some(ServerMsg::Status { .. }))
    ));
    assert!(matches!(
        answer(ClientMsg::SetState(EngineState::default()), &s),
        (Task::Apply(_), Some(ServerMsg::Done))
    ));
    assert!(matches!(answer(ClientMsg::Reconnect, &s), (Task::Reconnect, Some(ServerMsg::Done))));
    let spec = HwSpec { mode: "W".to_string(), color: Rgb(0, 0, 0), speed: 1, brightness: 2 };
    match answer(ClientMsg::SaveFirmware { device: 4, spec }, &s) {
        (Task::Save { device, spec }, None) => {
            assert_eq!(device, 4);
            assert_eq!(spec.mode, "W");
        }
        _ => panic!("no save"),
    }
    assert!(matches!(save_answer(Some(Ok(true))), ServerMsg::SaveResult(Ok(true))));
    match save_answer(None) {
        ServerMsg::SaveResult(Err(e)) => assert_eq!(e, "engine unavailable"),
        _ => panic!("no result"),
    }
}

#[test]
fn pipes_and_wide_texts() {
    assert_eq!(pipe_path(), r"\\.\pipe\colormemuch-svc");
    assert_eq!(PIPE_NAME, SERVICE_NAME);
    assert_eq!(DISPLAY_NAME, "colormemuch lighting service");
    for s in ["", "abc", "häß", "\u{FFFF}", "a\u{1F600}b", "\u{10FFFF}\u{10000}"] {
        let expect: Vec<u16> = s.encode_utf16().chain(std::iter::once(0)).collect();
        assert_eq!(wide(s), expect);
    }
}

#[test]
fn devices_are_listed_in_full() {
    assert_eq!(listing_head(2, "127.0.0.1:6742"), "2 controller(s) on 127.0.0.1:6742\n");
    let d = device("KB", 4);
    let kind = d.kind.label();
    assert_eq!(
        describe_device(&d),
        format!(
            "\n[1] KB  ({kind})\n    Acer — kb\n    zones (2):\n\
             \x20     - Main [matrix] 4 LEDs matrix 2x3\n\
             \x20     - Logo [single] 1 LEDs\n\
             \x20   LEDs (2): A, B\n    modes (1):\n      - Wave [speed,direction,save]\n"
        )
    );
    assert_eq!(led_names(&d.leds), "A, B");
    assert_eq!(capability_list(&d.modes[0], " · "), "speed · direction · save");
    let mut quiet = device("KB", 4);
    quiet.vendor = String::new();
    quiet.description = String::new();
    assert!(!describe_device(&quiet).contains(" — "));
}

#[test]
fn verbs_are_the_ones_of_the_service() {
    assert_eq!(parse_verb("run"), Some(Verb::Run));
    assert_eq!(parse_verb("console"), Some(Verb::Console));
    assert_eq!(parse_verb("install"), Some(Verb::Install));
    assert_eq!(parse_verb("uninstall"), Some(Verb::Uninstall));
    assert_eq!(parse_verb("list"), Some(Verb::List));
    assert_eq!(parse_verb("Run"), None);
    assert_eq!(parse_verb(""), None);
}

// --------------------------------------------------------------------- host

#[test]
fn engine_events_reach_the_window() {
    match from_engine(EngineEvent::Connected(vec![controller("KB")])) {
        HostEvent::Connected(ds) => assert_eq!(ds[0].kind, DeviceKind::Keyboard),
        _ => panic!("not connected"),
    }
    assert!(matches!(from_engine(EngineEvent::OnBattery(true)), HostEvent::OnBattery(true)));
}

#[test]
fn the_service_is_asked_at_intervals() {
    let mut c = Client::new();
    assert!(c.begin_poll(0).1);
    assert!(!c.begin_poll(POLL_INTERVAL - 1).1);
    assert!(c.begin_poll(POLL_INTERVAL).1);
    c.on_save(Some(Err("x".to_string())));
    c.on_save(None);
    match c.begin_poll(POLL_INTERVAL + 1) {
        (Some(HostEvent::SaveResult(Err(e))), false) => assert_eq!(e, "x"),
        _ => panic!("no result"),
    }
    assert!(c.begin_poll(POLL_INTERVAL + 2).0.is_none());
}

#[test]
fn only_changed_topologies_are_reported() {
    let mut c = Client::new();
    let report = |c: &mut Client, leds: u32| {
        c.on_devices(true, None, Some(vec![device("KB", leds)])).is_some()
    };
    assert!(report(&mut c, 4));
    assert!(!report(&mut c, 4));
    assert!(report(&mut c, 5));
    assert!(c.on_devices(true, None, None).is_none());
    match c.on_devices(false, None, None) {
        Some(HostEvent::Disconnected(e)) => assert_eq!(e, "service: no device"),
        _ => panic!("not disconnected"),
    }
    match c.on_devices(false, Some("why".to_string()), None) {
        Some(HostEvent::Disconnected(e)) => assert_eq!(e, "why"),
        _ => panic!("not disconnected"),
    }
    assert!(report(&mut c, 5));
}

#[test]
fn power_and_case_are_reported_on_change() {
    let mut c = Client::new();
    assert!(c.on_power(false).is_some());
    assert!(c.on_power(false).is_none());
    assert!(c.on_power(true).is_some());
    assert!(c.on_case(true, None).is_some());
    assert!(c.on_case(true, None).is_none());
    assert!(c.on_case(true, Some("e".to_string())).is_some());
    assert!(c.on_case(true, Some("e".to_string())).is_none());
    assert!(c.on_case(false, Some("e".to_string())).is_some());
}

#[test]
fn a_lost_service_is_not_asked_again() {
    let mut c = Client::new();
    match c.lost("broken pipe") {
        HostEvent::Disconnected(e) => assert_eq!(e, "service connection lost: broken pipe"),
        _ => panic!("not disconnected"),
    }
    assert!(!c.begin_poll(10 * POLL_INTERVAL).1);
    let mut d = Client::new();
    d.sent(true);
    assert!(d.alive);
    d.sent(false);
    assert!(!d.alive);
}

// ------------------------------------------------------------- wmi and tray

#[test]
fn failures_read_as_what_they_mean() {
    assert!(matches!(WmiError::from_code(0x8007_0005, String::new()), WmiError::AccessDenied));
    assert!(matches!(WmiError::from_code(0x8004_1003, String::new()), WmiError::AccessDenied));
    assert!(matches!(WmiError::from_code(0x8004_1010, String::new()), WmiError::ClassNotFound));
    assert!(matches!(WmiError::from_code(0x8004_1002, String::new()), WmiError::ClassNotFound));
    assert_eq!(WmiError::from_code(1, "odd".to_string()).message(), "COM error: odd");
    assert_eq!(WmiError::Protocol("p".to_string()).message(), "WMI protocol error: p");
    assert_eq!(
        WmiError::AccessDenied.message(),
        "access denied talking to AcerGamingFunction — colormemuch must run elevated \
         (the manifest requests it; check the process is actually admin)"
    );
    assert_eq!(
        WmiError::ClassNotFound.message(),
        "AcerGamingFunction not found in root\\WMI — unsupported hardware, or the \
         Acer WMI provider is missing"
    );
}

#[test]
fn scalars_travel_as_decimal_text() {
    assert_eq!(packed_argument(0), "0");
    assert_eq!(packed_argument(u64::MAX), "18446744073709551615");
    assert_eq!(reader_status(None), 0);
    assert_eq!(reader_status(Some(0x1FF)), 0xFF);
}

#[test]
fn the_last_menu_click_counts() {
    let ids = |v: &[&str]| v.iter().map(|s| s.to_string()).collect::<Vec<String>>();
    assert_eq!(poll(&ids(&[]), "s", "q"), None);
    assert_eq!(poll(&ids(&["x"]), "s", "q"), None);
    assert_eq!(poll(&ids(&["s", "q", "x"]), "s", "q"), Some(TrayAction::Quit));
    assert_eq!(poll(&ids(&["q", "s"]), "s", "q"), Some(TrayAction::Show));
}
