use colormemuch::rgb::{
    effect_payload, ledcolor_packed, live_packet, live_packets, matrix_connect_failure,
    matrix_report, report_name, rgbkb_packed, static_zone_payload, write_report, Effect, Outcome,
    Payload, Reading, Rgb, Shot, Surface, Zone, ALL_ZONES,
};

#[test]
fn packed_layouts_match_probe_echoes() {
    assert_eq!(rgbkb_packed(0, Rgb(0x00, 0xAE, 0xC7)), 0xC7AE0000);
    assert_eq!(rgbkb_packed(1, Rgb(0x00, 0xAE, 0xC7)), 0xC7AE0001);
    assert_eq!(ledcolor_packed(0, Rgb(0x00, 0xAE, 0xC7), 0x64, 5), 0x0000_0564_C7AE_0000);
}

#[test]
fn static_payload_layout() {
    assert_eq!(static_zone_payload(ALL_ZONES, Rgb(0xFF, 0x00, 0x00)), [0x0F, 0xFF, 0x00, 0x00]);
    assert_eq!(Zone::Three.bit(), 0x04);
}

#[test]
fn effect_payload_layout_and_clamps() {
    let p = effect_payload(Effect::Breath, 5, 100, 1, Rgb(0x00, 0xAE, 0xC7));
    assert_eq!(&p[..8], &[1, 5, 100, 0, 1, 0x00, 0xAE, 0xC7]);
    assert_eq!(p[9], 1);
    let p = effect_payload(Effect::Static, 0, 250, 9, Rgb(0, 0, 0));
    assert_eq!(p[2], 100);
    assert_eq!(p[4], 2);
}

#[test]
fn dead_selectors_are_dropped() {
    assert!(live_packet(vec![1, 2], 1).is_none());
    let p = live_packet(vec![0x0A, 0xC7, 0x00], 0).unwrap();
    assert_eq!(p.bytes(), &[0x0A, 0xC7, 0x00]);
    assert_eq!(p.hex(), "0A C7 00");
    assert_eq!(p.describe(), "RawPacket[0A C7 00] status=0");
    let live = live_packets(vec![
        Reading { selector: 0, bytes: vec![1], status: 1 },
        Reading { selector: 1, bytes: vec![2], status: 0 },
        Reading { selector: 3, bytes: vec![3], status: 0 },
    ]);
    let seen: Vec<(u32, u8)> = live.iter().map(|(s, p)| (*s, p.bytes()[0])).collect();
    assert_eq!(seen, vec![(1, 2), (3, 3)]);
    assert_eq!(Surface::Keyboard.getter(), "GetGamingKBBacklight");
    assert_eq!(Surface::LidShield.getter(), "GetGamingLED");
}

#[test]
fn write_reports_tell_the_whole_story() {
    let head = "colormemuch write report — epoch 7\nlabel:  L\nmethod: M\npayload: [01 FF] (2 bytes)\n\n";
    assert_eq!(
        write_report(7, "L", "M", &[1, 255], &Outcome::Status(0x1A)),
        format!("{head}result: OK  gmOutput=0x1A\nwatch the hardware — then note what actually happened.\n")
    );
    assert_eq!(
        write_report(7, "L", "M", &[1, 255], &Outcome::WriteFailed("nope".to_string())),
        format!("{head}result: WRITE FAILED  nope\n")
    );
    assert_eq!(
        write_report(7, "L", "M", &[1, 255], &Outcome::ConnectFailed("no".to_string())),
        format!("{head}result: CONNECT FAILED  no\n(elevated?)\n")
    );
    assert_eq!(report_name("kbwrite", 12), "kbwrite-12.txt");
}

#[test]
fn matrix_reports_list_every_shot() {
    let shots = [
        Shot {
            label: "a".to_string(),
            method: "Set".to_string(),
            payload: Payload::Bytes(vec![0x0F, 0]),
            pause_ms: 1,
        },
        Shot {
            label: "b".to_string(),
            method: "Pack".to_string(),
            payload: Payload::Packed(0xC7AE0001),
            pause_ms: 1,
        },
    ];
    assert_eq!(
        matrix_report(3, &shots, &[Ok(0), Err("bad".to_string())]),
        "colormemuch write matrix — epoch 3\n2 shots. gmOutput: 0x0 = accepted, 0x1 = rejected.\n\n\
         [0] a\n    Set <- [0F 00] (2 bytes)\n    gmOutput = 0x0\n\n\
         [1] b\n    Pack <- 0x00000000C7AE0001\n    ERROR: bad\n\ndone.\n"
    );
    assert_eq!(
        matrix_connect_failure(3, &shots, "x"),
        "colormemuch write matrix — epoch 3\n2 shots. gmOutput: 0x0 = accepted, 0x1 = rejected.\n\n\
         CONNECT FAILED  x\n(elevated?)\n"
    );
}
