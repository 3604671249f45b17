use colormemuch::openrgb::description::{parse_controller, try_parse_controller, unpack_color, Cursor};
use colormemuch::openrgb::modes::{find, resolve_mode};
use colormemuch::openrgb::wire::{
    client_name, color_u32, count_of, description_request, message, mode_payload, reply_size,
    save_commands, update_leds_payload, update_zone_payload, write_string, SAVE_MODE, UPDATE_LEDS,
    UPDATE_MODE,
};
use colormemuch::openrgb::{Controller, Mode, WireError};
use colormemuch::rgb::Rgb;

fn text(out: &mut Vec<u8>, s: &[u8]) {
    out.extend_from_slice(&((s.len() + 1) as u16).to_le_bytes());
    out.extend_from_slice(s);
    out.push(0);
}

fn word(out: &mut Vec<u8>, v: u32) {
    out.extend_from_slice(&v.to_le_bytes());
}

fn half(out: &mut Vec<u8>, v: u16) {
    out.extend_from_slice(&v.to_le_bytes());
}

fn keyboard() -> Vec<u8> {
    let mut b = Vec::new();
    word(&mut b, 0);
    word(&mut b, 5);
    for s in ["AcerHIDKeyboard Device", "Acer", "kb", "1.0", "SN", "HID: x"] {
        text(&mut b, s.as_bytes());
    }
    half(&mut b, 2);
    word(&mut b, 1);
    text(&mut b, b"Direct");
    for v in [0u32, 0x20, 0, 0, 0, 0, 0, 0, 0, 0, 0, 1] {
        word(&mut b, v);
    }
    half(&mut b, 0);
    text(&mut b, b"Breathing");
    for v in [1u32, 0x111, 1, 9, 0, 100, 1, 1, 5, 80, 0, 2] {
        word(&mut b, v);
    }
    half(&mut b, 1);
    word(&mut b, 0x00FF_8040);
    half(&mut b, 2);
    text(&mut b, b"Main");
    for v in [2u32, 1, 4, 3] {
        word(&mut b, v);
    }
    half(&mut b, 8 + 4 * 4);
    word(&mut b, 2);
    word(&mut b, 2);
    for v in [0u32, 1, 0xFFFF_FFFF, 2] {
        word(&mut b, v);
    }
    text(&mut b, b"Logo");
    for v in [0u32, 1, 1, 1] {
        word(&mut b, v);
    }
    half(&mut b, 0);
    half(&mut b, 4);
    for s in ["K1", "K2", "K3", "Shield"] {
        text(&mut b, s.as_bytes());
        word(&mut b, 0);
    }
    half(&mut b, 4);
    for v in [0x0000_00FFu32, 0x0000_FF00, 0x00FF_0000, 0x0012_3456] {
        word(&mut b, v);
    }
    b
}

#[test]
fn descriptions_are_read_in_full() {
    let c = parse_controller(3, &keyboard()).unwrap();
    assert_eq!((c.index, c.dev_type, c.active_mode, c.led_count), (3, 5, 1, 4));
    assert_eq!(c.name, "AcerHIDKeyboard Device");
    assert_eq!((c.vendor.as_str(), c.description.as_str()), ("Acer", "kb"));
    assert_eq!((c.serial.as_str(), c.location.as_str()), ("SN", "HID: x"));
    assert_eq!(c.mode_names(), vec!["Direct", "Breathing"]);
    let m = &c.modes[1];
    assert_eq!((m.index, m.value, m.flags), (1, 1, 0x111));
    assert_eq!((m.speed_min, m.speed_max, m.speed), (1, 9, 5));
    assert_eq!((m.brightness_min, m.brightness_max, m.brightness), (0, 100, 80));
    assert_eq!((m.direction, m.color_mode), (0, 2));
    assert_eq!(m.colors, vec![0x00FF_8040]);
    assert_eq!(c.leds, vec!["K1", "K2", "K3", "Shield"]);
    assert_eq!(
        c.colors,
        vec![Rgb(255, 0, 0), Rgb(0, 255, 0), Rgb(0, 0, 255), Rgb(0x56, 0x34, 0x12)]
    );
}

#[test]
fn zones_follow_each_other_and_keep_their_grid() {
    let c = parse_controller(0, &keyboard()).unwrap();
    assert_eq!(c.zones.len(), 2);
    assert_eq!((c.zones[0].start, c.zones[0].leds_count), (0, 3));
    assert_eq!((c.zones[1].start, c.zones[1].leds_count), (3, 1));
    let m = c.zones[0].matrix.as_ref().unwrap();
    assert_eq!((m.height, m.width), (2, 2));
    assert_eq!(m.map, vec![Some(0), Some(1), None, Some(2)]);
    assert!(c.zones[1].matrix.is_none());
}

#[test]
fn short_blobs_are_refused_and_truncated_ones_read_as_zero() {
    assert_eq!(parse_controller(0, &[0; 7]).unwrap_err(), WireError::ShortBlob);
    assert_eq!(WireError::ShortBlob.message(), "controller blob too short");
    let c = parse_controller(9, &[0; 8]).unwrap();
    assert_eq!((c.index, c.dev_type, c.led_count), (9, 0, 0));
    assert!(c.name.is_empty() && c.modes.is_empty() && c.zones.is_empty());
}

#[test]
fn totals_beyond_a_word_are_not_representable() {
    let mut b = vec![0u8; 8];
    for _ in 0..6 {
        text(&mut b, b"");
    }
    half(&mut b, 0);
    word(&mut b, 0);
    half(&mut b, 2);
    for _ in 0..2 {
        text(&mut b, b"z");
        for v in [1u32, 0, 0, u32::MAX] {
            word(&mut b, v);
        }
        half(&mut b, 0);
    }
    assert!(try_parse_controller(0, &b).is_none());
    assert!(try_parse_controller(0, &keyboard()).unwrap().is_ok());
    assert!(try_parse_controller(0, &[]).unwrap().is_err());
}

#[test]
fn broken_text_is_repaired_and_negative_modes_read_as_the_first() {
    let mut b = vec![0u8; 8];
    text(&mut b, &[b'a', 0xFF, b'b']);
    for _ in 0..5 {
        text(&mut b, b"");
    }
    half(&mut b, 0);
    word(&mut b, 0xFFFF_FFFF);
    let c = parse_controller(0, &b).unwrap();
    assert_eq!(c.name, "a\u{FFFD}b");
    assert_eq!(c.active_mode, 0);
}

#[test]
fn cursors_read_little_endian_and_pad_with_zero() {
    let mut c = Cursor { b: &[1, 2, 3, 4, 5], p: 0 };
    assert_eq!(c.u16(), 0x0201);
    assert_eq!(c.u32(), 0x0005_0403);
    assert_eq!(c.u32(), 0);
    let mut minus = Cursor { b: &[0xFE, 0xFF, 0xFF, 0xFF], p: 0 };
    assert_eq!(minus.i32(), -2);
}

#[test]
fn texts_read_back() {
    let mut b = Vec::new();
    write_string(&mut b, "häß");
    assert_eq!(b, vec![6, 0, b'h', 0xC3, 0xA4, 0xC3, 0x9F, 0]);
    let mut c = Cursor { b: &b, p: 0 };
    assert_eq!(c.string(), "häß");
}

#[test]
fn colors_read_back() {
    assert_eq!(color_u32(Rgb(0x11, 0x22, 0x33)), 0x0033_2211);
    assert_eq!(unpack_color(color_u32(Rgb(7, 8, 9))), Rgb(7, 8, 9));
    assert_eq!(unpack_color(0xFF00_0001), Rgb(1, 0, 0));
}

#[test]
fn messages_carry_their_header() {
    assert_eq!(
        message(2, UPDATE_LEDS, &[9, 8]),
        vec![b'O', b'R', b'G', b'B', 2, 0, 0, 0, 0x1A, 4, 0, 0, 2, 0, 0, 0, 9, 8]
    );
    assert_eq!(client_name(), b"colormemuch\0".to_vec());
    assert_eq!(description_request(), vec![4, 0, 0, 0]);
}

#[test]
fn replies_announce_their_size() {
    let mut header = [0u8; 16];
    header[0..4].copy_from_slice(b"ORGB");
    header[12] = 0x10;
    header[13] = 0x01;
    assert_eq!(reply_size(&header).unwrap(), 0x0110);
    header[3] = b'X';
    assert_eq!(reply_size(&header).unwrap_err(), WireError::BadMagic);
    assert_eq!(WireError::BadMagic.message(), "bad OpenRGB reply magic");
    assert_eq!(count_of(&[3, 0, 0, 0, 9]).unwrap(), 3);
    assert_eq!(count_of(&[3, 0, 0]).unwrap_err(), WireError::ShortCount);
    assert_eq!(WireError::ShortCount.message(), "short count reply");
    assert!(!WireError::ShortCount.is_not_found());
}

#[test]
fn frames_repeat_the_last_color_and_drop_the_rest() {
    assert_eq!(
        update_leds_payload(3, &[Rgb(1, 2, 3), Rgb(4, 5, 6)]),
        vec![18, 0, 0, 0, 3, 0, 1, 2, 3, 0, 4, 5, 6, 0, 4, 5, 6, 0]
    );
    assert_eq!(
        update_leds_payload(1, &[Rgb(1, 2, 3), Rgb(4, 5, 6)]),
        vec![10, 0, 0, 0, 1, 0, 1, 2, 3, 0]
    );
    assert_eq!(update_leds_payload(1, &[]), vec![10, 0, 0, 0, 1, 0, 0, 0, 0, 0]);
    assert_eq!(
        update_zone_payload(2, 1, &[Rgb(7, 8, 9)]),
        vec![14, 0, 0, 0, 2, 0, 0, 0, 1, 0, 7, 8, 9, 0]
    );
}

fn breathing() -> (Controller, usize) {
    (parse_controller(0, &keyboard()).unwrap(), 1)
}

#[test]
fn modes_are_found_whatever_the_case_and_tuned_in_range() {
    let (c, i) = breathing();
    assert_eq!(c.mode("bReAtHiNg").unwrap().index, i as u32);
    assert!(c.mode("breath").is_none());
    let m = resolve_mode(&c, "BREATHING", Rgb(1, 2, 3), Some(50), Some(300)).unwrap();
    assert_eq!((m.speed, m.brightness), (9, 100));
    assert_eq!(m.colors, vec![0x0003_0201]);
    let low = resolve_mode(&c, "breathing", Rgb(0, 0, 0), Some(0), None).unwrap();
    assert_eq!((low.speed, low.brightness), (1, 80));
    let direct = resolve_mode(&c, "direct", Rgb(1, 1, 1), Some(3), Some(3)).unwrap();
    assert_eq!((direct.speed, direct.brightness), (0, 0));
    assert!(direct.colors.is_empty());
    assert_eq!(
        resolve_mode(&c, "nope", Rgb(0, 0, 0), None, None).unwrap_err(),
        WireError::NoSuchMode
    );
    assert!(WireError::NoSuchMode.is_not_found());
    assert_eq!(WireError::NoSuchMode.message(), "no such mode");
}

#[test]
fn controllers_are_found_by_part_of_their_name() {
    let (a, _) = breathing();
    let (mut b, _) = breathing();
    b.name = "Lid LOGO".to_string();
    let all = vec![a, b];
    assert_eq!(find(&all, "KeyBoard"), Some(0));
    assert_eq!(find(&all, "logo"), Some(1));
    assert_eq!(find(&all, "mouse"), None);
}

#[test]
fn modes_read_back() {
    let (c, i) = breathing();
    let m: &Mode = &c.modes[i];
    let p = mode_payload(m);
    assert_eq!(p.len(), u32::from_le_bytes([p[0], p[1], p[2], p[3]]) as usize);
    assert_eq!(&p[4..8], &[1, 0, 0, 0]);
    assert_eq!(&p[8..], &m.to_bytes()[..]);
    let mut r = Cursor { b: &p[8..], p: 0 };
    assert_eq!(r.string(), "Breathing");
    assert_eq!(r.i32(), 1);
    assert_eq!(r.u32(), 0x111);
    for v in [1u32, 9, 0, 100, 1, 1, 5, 80, 0, 2] {
        assert_eq!(r.u32(), v);
    }
    assert_eq!(r.u16(), 1);
    assert_eq!(r.u32(), 0x00FF_8040);
}

#[test]
fn only_savable_modes_are_saved() {
    let (c, i) = breathing();
    let m = &c.modes[i];
    assert!(m.can_save() && m.needs_manual_save() && m.has_speed());
    assert!(m.has_brightness() && m.takes_color() && !m.has_direction());
    assert_eq!(save_commands(m), vec![UPDATE_MODE, SAVE_MODE]);
    assert!(save_commands(&c.modes[0]).is_empty());
    let mut auto = m.clone();
    auto.flags = 0x200;
    assert_eq!(save_commands(&auto), vec![UPDATE_MODE]);
}
