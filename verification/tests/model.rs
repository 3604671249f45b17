use colormemuch::model::{
    kind_of, DeviceDescriptor, DeviceKind, LedInfo, Matrix, ModeInfo, ZoneInfo, ZoneKind,
};
use colormemuch::openrgb::{Controller, MatrixDesc, Mode, ZoneDesc};
use colormemuch::rgb::Rgb;

fn sample() -> DeviceDescriptor {
    DeviceDescriptor {
        index: 0,
        name: "Test KB".to_string(),
        vendor: "acme".to_string(),
        description: "d".to_string(),
        location: "l".to_string(),
        serial: "s".to_string(),
        kind: DeviceKind::Keyboard,
        zones: vec![ZoneInfo {
            name: "z".to_string(),
            kind: ZoneKind::Linear,
            start: 0,
            leds_count: 4,
            leds_min: 4,
            leds_max: 4,
            matrix: None,
        }],
        leds: vec![
            LedInfo { name: "a".to_string() },
            LedInfo { name: "b".to_string() },
        ],
        modes: vec![ModeInfo {
            name: "Static".to_string(),
            flags: 0,
            has_speed: false,
            has_brightness: true,
            has_direction: false,
            takes_color: true,
            can_save: false,
            speed_range: (0, 0),
            brightness_range: (0, 100),
        }],
        active_mode: 1,
        colors: vec![Rgb(1, 2, 3)],
        led_count: 4,
    }
}

#[test]
fn topology_sig_tracks_shape_not_color() {
    let mut d = sample();
    let a = d.topology_sig();
    d.colors[0] = Rgb(9, 9, 9);
    assert_eq!(a, d.topology_sig());
    d.zones[0].leds_count = 5;
    assert_ne!(a, d.topology_sig());
}

#[test]
fn keys_tell_shapes_apart() {
    let d = sample();
    assert_eq!(d.topology_sig(), "Test KB|4|z:1:4");
    let mut renamed = sample();
    renamed.name = "Test|KB".to_string();
    assert_ne!(d.topology_sig(), renamed.topology_sig());
    let mut matrix = sample();
    matrix.zones[0].kind = ZoneKind::Matrix;
    assert_ne!(d.topology_sig(), matrix.topology_sig());
    let mut more = sample();
    more.zones.push(d.zones[0].clone());
    assert_eq!(more.topology_sig(), "Test KB|4|z:1:4,z:1:4");
    // A separator inside a zone's name can hide a second zone.
    let mut odd = sample();
    odd.zones[0].name = "z:1:4,z".to_string();
    assert_eq!(odd.topology_sig(), more.topology_sig());
}

#[test]
fn kind_mapping() {
    assert_eq!(DeviceKind::from_i32(5), DeviceKind::Keyboard);
    assert_eq!(DeviceKind::from_i32(11), DeviceKind::Light);
    assert_eq!(DeviceKind::from_i32(999), DeviceKind::Unknown);
    assert_eq!(ZoneKind::from_i32(0), ZoneKind::Single);
    assert_eq!(ZoneKind::from_i32(2), ZoneKind::Matrix);
    assert_eq!(ZoneKind::from_i32(7), ZoneKind::Linear);
}

#[test]
fn direct_is_no_effect_mode() {
    let mut d = sample();
    assert_eq!(d.effect_mode_names(), vec!["Static".to_string()]);
    let mut direct = d.modes[0].clone();
    direct.name = "DIRECT".to_string();
    d.modes.insert(0, direct);
    assert_eq!(d.effect_mode_names(), vec!["Static".to_string()]);
}

fn mode(flags: u32) -> Mode {
    Mode {
        index: 0,
        name: "Wave".to_string(),
        value: 3,
        flags,
        speed_min: 1,
        speed_max: 9,
        brightness_min: 0,
        brightness_max: 0,
        colors_min: 0,
        colors_max: 0,
        speed: 5,
        brightness: 0,
        direction: 1,
        color_mode: 0,
        colors: vec![],
    }
}

#[test]
fn mode_capabilities_come_from_ranges_and_flags() {
    let m = ModeInfo::of(&mode(0x0302));
    assert!(m.has_speed && !m.has_brightness && !m.takes_color);
    assert!(m.has_direction && m.can_save);
    assert_eq!(m.speed_range, (1, 9));
    let plain = ModeInfo::of(&mode(0x0001));
    assert!(!plain.takes_color);
    assert!(ModeInfo::of(&mode(0x0020)).takes_color);
    assert!(ModeInfo::of(&mode(0x0040)).takes_color);
    let mut colored = mode(0);
    colored.colors_max = 1;
    assert!(ModeInfo::of(&colored).takes_color);
    assert!(!plain.has_direction && !plain.can_save);
}

#[test]
fn descriptors_copy_the_controller() {
    let c = Controller {
        index: 2,
        name: "AcerHIDCoverLogoLED Device".to_string(),
        vendor: "Acer".to_string(),
        description: "lid".to_string(),
        location: "usb".to_string(),
        serial: "7".to_string(),
        dev_type: 11,
        modes: vec![mode(0)],
        active_mode: 4,
        zones: vec![ZoneDesc {
            name: "Grid".to_string(),
            kind: 2,
            leds_min: 1,
            leds_max: 3,
            leds_count: 2,
            start: 5,
            matrix: Some(MatrixDesc { height: 1, width: 3, map: vec![Some(0), None, Some(1)] }),
        }],
        leds: vec!["L1".to_string(), "L2".to_string()],
        colors: vec![Rgb(1, 2, 3), Rgb(4, 5, 6)],
        led_count: 2,
    };
    let d = DeviceDescriptor::of(&c);
    assert_eq!(d.index, 2);
    assert_eq!(d.kind, DeviceKind::Light);
    assert_eq!(d.active_mode, 4);
    assert_eq!(d.leds[1].name, "L2");
    assert_eq!(d.colors, c.colors);
    let z: &ZoneInfo = &d.zones[0];
    assert_eq!((z.kind, z.start, z.leds_count), (ZoneKind::Matrix, 5, 2));
    let m: &Matrix = z.matrix.as_ref().unwrap();
    assert_eq!((m.height, m.width), (1, 3));
    assert_eq!(m.map, vec![Some(0), None, Some(1)]);
}

#[test]
fn memory_modules_are_told_by_their_name() {
    let named = |name: &str, dev_type: i32| {
        DeviceDescriptor::of(&Controller {
            index: 0,
            name: name.to_string(),
            vendor: String::new(),
            description: String::new(),
            location: String::new(),
            serial: String::new(),
            dev_type,
            modes: vec![],
            active_mode: 0,
            zones: vec![],
            leds: vec![],
            colors: vec![],
            led_count: 0,
        })
        .kind
    };
    assert_eq!(named("AcerDTdimm", 0), DeviceKind::Dram);
    assert_eq!(named("AcerDTGlobal", 0), DeviceKind::Motherboard);
    assert_eq!(named("dimm lights", 11), DeviceKind::Light);
    assert_eq!(kind_of(0, "SOME DIMM"), DeviceKind::Dram);
    assert_eq!(kind_of(0, "some dimm"), DeviceKind::Motherboard);
}
