use colormemuch::dt::{
    area, behavior_for, behavior_static_for, flags, pack_setting, pack_setting_for, speed,
    unpack_echo, DtEffect, BEHAVIOR_STATIC_GLOBAL,
};
use colormemuch::rgb::Rgb;

#[test]
fn pack_setting_reproduces_predatorsense_captures() {
    assert_eq!(
        pack_setting(area::ALL, Rgb(0x3C, 0xF0, 0x3C), flags::ON),
        0x0003093CF03C0001
    );
    assert_eq!(
        pack_setting(area::ALL, Rgb(0x7B, 0xFF, 0x44), flags::ON),
        0x00030944FF7B0001
    );
}

#[test]
fn unpack_echo_matches_getter_snapshots() {
    assert_eq!(unpack_echo(0x090000FF00), (Rgb(0xFF, 0, 0), flags::ON));
    assert_eq!(unpack_echo(0x09C7AE0000), (Rgb(0x00, 0xAE, 0xC7), flags::ON));
    assert_eq!(unpack_echo(0x010000FF00), (Rgb(0xFF, 0, 0), flags::OFF));
    assert_eq!(unpack_echo(0x0900000000), (Rgb(0, 0, 0), flags::ON));
}

#[test]
fn behavior_template_shape() {
    assert_eq!(BEHAVIOR_STATIC_GLOBAL.len(), 16);
    assert_eq!(&BEHAVIOR_STATIC_GLOBAL[0..2], &[0x01, 0x00]);
    assert!(BEHAVIOR_STATIC_GLOBAL[8..].iter().all(|&b| b == 0));
}

#[test]
fn behavior_sel_patch_matches_front_capture() {
    let front = behavior_static_for(area::FRONT);
    let mut expect = BEHAVIOR_STATIC_GLOBAL;
    expect[0..2].copy_from_slice(&[0x04, 0x00]);
    assert_eq!(front, expect);
}

fn hex(s: &str) -> Vec<u8> {
    (0..s.len())
        .step_by(2)
        .map(|i| u8::from_str_radix(&s[i..i + 2], 16).unwrap())
        .collect()
}

#[test]
fn effects_reproduce_predatorsense_captures() {
    let cases: [(DtEffect, &str, u64); 7] = [
        (DtEffect::Rising, "0100010a0f0303000000000000000000", 0x0002090000000001),
        (DtEffect::Rainbow, "010001060f0303000000000000000000", 0x0002090000000001),
        (DtEffect::Meteor, "0100010d0f0303000000000000000000", 0x0002090000000001),
        (DtEffect::Breathing, "010001020f0303000000000000000000", 0x000309ffe85f0001),
        (DtEffect::Wave, "010001090f0303000000000000000000", 0x000309ffe85f0001),
        (DtEffect::Flashing, "010001010f0303000000000000000000", 0x000309ffe85f0001),
        (DtEffect::Twinkling, "010001030f0303000000000000000000", 0x000309ffe85f0001),
    ];
    let picked = Rgb(0x5f, 0xe8, 0xff);
    for (fx, behavior, word) in cases {
        assert_eq!(
            behavior_for(area::ALL, fx, speed::DEFAULT).to_vec(),
            hex(behavior),
            "{fx:?} behavior"
        );
        assert_eq!(pack_setting_for(area::ALL, picked, true, fx), word, "{fx:?} color word");
    }
    let cases2: [(DtEffect, &str, u64); 4] = [
        (DtEffect::Snake, "0100010f0f0303010000000000000000", 0x0003090000000001),
        (DtEffect::Stack, "0100010b0f0303010000000000000000", 0x000209ffe85f0001),
        (DtEffect::Expansion, "0100010c0f0303000000000000000000", 0x0002090000000001),
        (DtEffect::Magic, "0100010e0f0303000000000000000000", 0x0002090000000001),
    ];
    for (fx, behavior, word) in cases2 {
        assert_eq!(
            behavior_for(area::ALL, fx, speed::DEFAULT).to_vec(),
            hex(behavior),
            "{fx:?} behavior"
        );
        assert_eq!(pack_setting_for(area::ALL, picked, true, fx), word, "{fx:?} color word");
    }
    assert_eq!(
        behavior_for(area::ALL, DtEffect::Static, speed::DEFAULT),
        BEHAVIOR_STATIC_GLOBAL
    );
    assert_eq!(
        pack_setting_for(area::ALL, Rgb(0x3C, 0xF0, 0x3C), true, DtEffect::Static),
        0x0003093CF03C0001
    );
}

#[test]
fn speed_reproduces_predatorsense_slider_capture() {
    let captured: [u8; 9] = [0x01, 0x02, 0x03, 0x04, 0x05, 0x06, 0x07, 0x08, 0x0a];
    for sp in captured {
        let expect = [
            0x01, 0x00, 0x01, 0x0f, 0x0f, sp, 0x03, 0x01, //
            0x00, 0x00, 0x00, 0x00, 0x00, 0x00, 0x00, 0x00,
        ];
        assert_eq!(behavior_for(area::ALL, DtEffect::Snake, sp), expect, "speed {sp}");
    }
    assert_eq!(behavior_for(area::ALL, DtEffect::Wave, 0)[5], speed::MIN);
    assert_eq!(behavior_for(area::ALL, DtEffect::Wave, 0xff)[5], speed::MAX);
    assert_eq!(behavior_for(area::ALL, DtEffect::Static, 9), BEHAVIOR_STATIC_GLOBAL);
    assert_eq!(
        behavior_for(area::FRONT, DtEffect::Static, 1),
        behavior_static_for(area::FRONT)
    );
    assert!(!DtEffect::Static.has_speed());
    assert_eq!(DtEffect::all().iter().filter(|f| f.has_speed()).count(), 11);
}

#[test]
fn palette_effects_ignore_color_and_off_flips_only_flags() {
    assert_eq!(
        pack_setting_for(area::ALL, Rgb(0xFF, 0x00, 0x88), true, DtEffect::Rainbow),
        0x0002090000000001
    );
    assert_eq!(
        pack_setting_for(area::ALL, Rgb(0x5f, 0xe8, 0xff), false, DtEffect::Wave),
        0x000301ffe85f0001
    );
    assert_eq!(
        pack_setting_for(area::ALL, Rgb(0, 0, 0), false, DtEffect::Meteor),
        0x0002010000000001
    );
}

#[test]
fn effect_ids_are_unique_and_round_trip() {
    let ids: Vec<u8> = DtEffect::all().iter().map(|f| f.id()).collect();
    let mut dedup = ids.clone();
    dedup.sort_unstable();
    dedup.dedup();
    assert_eq!(ids.len(), dedup.len(), "duplicate effect id");
    for fx in DtEffect::all() {
        let b = behavior_for(area::FRONT, fx, speed::DEFAULT);
        assert_eq!(b[3], fx.id());
        assert_eq!(b[7], fx.spec().tail);
        assert_eq!(&b[0..2], &[0x04, 0x00]);
        assert_eq!(&b[4..7], &BEHAVIOR_STATIC_GLOBAL[4..7]);
        assert!(b[8..].iter().all(|&x| x == 0));
    }
    assert_eq!(DtEffect::all().len(), 12);
}

#[test]
fn pack_setting_reproduces_front_capture() {
    assert_eq!(
        pack_setting(area::FRONT, Rgb(0x00, 0xAE, 0xC7), flags::ON),
        0x000309C7AE000004
    );
}
