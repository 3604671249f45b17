use colormemuch::effects::{
    is_listed, plan_cells, program_hue, shared_clock_groups, zone_cells, Cell, Effect, Fx, Params,
    ZoneSource,
};
use colormemuch::library::{seed, CustomEffect, EffectLibrary, Motion};
use colormemuch::number::{Single, ONE};
use colormemuch::rgb::Rgb;

fn prog(e: Effect) -> Fx {
    Fx::Program(e)
}

fn four_rainbows() -> [ZoneSource; 4] {
    let p = Params::default();
    [
        ZoneSource::Function(prog(Effect::Rainbow), p),
        ZoneSource::Function(prog(Effect::Rainbow), p),
        ZoneSource::Function(prog(Effect::Rainbow), p),
        ZoneSource::Function(prog(Effect::Rainbow), p),
    ]
}

#[test]
fn same_function_zones_share_one_clock() {
    let p = Params::default();
    let zones = [
        ZoneSource::Function(prog(Effect::Rainbow), p),
        ZoneSource::Function(prog(Effect::Comet), p),
        ZoneSource::Function(prog(Effect::Rainbow), p),
        ZoneSource::Solid(Rgb(10, 20, 30)),
    ];
    let cells = plan_cells(&zones, &vec![]);
    assert_eq!(cells[0], cells[2], "same-effect zones must be phase-locked");
    assert_eq!(cells[3], Cell::Solid(Rgb(10, 20, 30)));
    let own = zone_cells(&zones);
    match (own[0], own[2]) {
        (Cell::Sample { zone: a, len: m, pos: x }, Cell::Sample { zone: b, len: n, pos: y }) => {
            assert_eq!(zones[a].fx().unwrap().key(), zones[b].fx().unwrap().key());
            assert_eq!((m, x), (n, y), "same-effect zones must be phase-locked");
        }
        _ => panic!("effects must be sampled"),
    }
    assert_eq!(own[3], Cell::Solid(Rgb(10, 20, 30)));

    let groups = shared_clock_groups(&zones);
    assert_eq!(groups.len(), 1);
    assert_eq!(groups[0].label, "Rainbow");
    assert_eq!(groups[0].key, "p:Rainbow");
    assert_eq!(groups[0].zones, vec![0, 2]);
}

#[test]
fn link_vs_spread() {
    let zones = four_rainbows();

    let linked = plan_cells(&zones, &vec![]);
    assert!(linked.iter().all(|&c| c == linked[0]), "Link must be uniform");

    let spread = vec!["p:Rainbow".to_string()];
    let spread_frame = plan_cells(&zones, &spread);
    assert!(
        !spread_frame.iter().all(|&c| c == spread_frame[0]),
        "Spread must vary across zones"
    );
    assert_eq!(spread_frame, plan_cells(&zones, &spread));
}

#[test]
fn linked_zones_follow_the_first() {
    let mut other = Params::default();
    other.color = Rgb(1, 2, 3);
    let zones = [
        ZoneSource::Solid(Rgb(0, 0, 0)),
        ZoneSource::Function(prog(Effect::Wave), Params::default()),
        ZoneSource::Function(prog(Effect::Wave), other),
    ];
    let cells = plan_cells(&zones, &vec![]);
    assert_eq!(cells[1], Cell::Sample { zone: 1, len: 1, pos: 0 });
    assert_eq!(cells[2], Cell::Sample { zone: 1, len: 1, pos: 0 });
}

#[test]
fn spread_zones_take_their_place_on_one_strip() {
    let cells = plan_cells(&four_rainbows(), &vec!["p:Rainbow".to_string()]);
    for (i, c) in cells.iter().enumerate() {
        assert_eq!(*c, Cell::Sample { zone: 0, len: 4, pos: i });
    }
}

#[test]
fn spreading_a_lone_effect_changes_nothing() {
    let zones = [
        ZoneSource::Function(prog(Effect::Fire), Params::default()),
        ZoneSource::Solid(Rgb(1, 1, 1)),
    ];
    let spread = vec!["p:Fire".to_string()];
    assert_eq!(plan_cells(&zones, &spread), plan_cells(&zones, &vec![]));
    assert!(shared_clock_groups(&zones).is_empty());
}

#[test]
fn keys_tell_the_tiers_apart() {
    let custom = CustomEffect::new_default("Rainbow".to_string());
    let fx = Fx::Custom(custom);
    assert_eq!(fx.key(), "c:Rainbow");
    assert_eq!(fx.label(), "Rainbow");
    assert_ne!(fx.key(), prog(Effect::Rainbow).key());
    assert_eq!(prog(Effect::Police).hue(), Rgb(0xff, 0x3b, 0x4e));
    assert_eq!(program_hue(Effect::Gradient), Rgb(0x4b, 0xbf, 0x73));
}

#[test]
fn menu_of_effects_is_in_order() {
    let labels: Vec<&str> = Effect::ALL.iter().map(|e| e.label()).collect();
    assert_eq!(
        labels,
        vec!["Rainbow", "Comet", "Breathe", "Fire", "Gradient", "Police", "Wave"]
    );
}

#[test]
fn default_parameters_are_cyan_and_pink() {
    let p = Params::default();
    assert_eq!(p.color, Rgb(0x00, 0xE5, 0xFF));
    assert_eq!(p.color_b, Rgb(0xFF, 0x00, 0x88));
    assert_eq!(f32::from_bits(p.speed.0), 1.0);
    assert_eq!(f32::from_bits(p.brightness.0), 1.0);
}

#[test]
fn sources_answer_for_their_function() {
    let solid = ZoneSource::Solid(Rgb(3, 2, 1));
    assert!(solid.fx().is_none() && solid.params().is_none());
    let moving = ZoneSource::Function(prog(Effect::Comet), Params::default());
    assert_eq!(moving.fx().unwrap().key(), "p:Comet");
    assert_eq!(moving.params().unwrap(), Params::default());
    assert!(is_listed(&vec!["a".to_string(), "b".to_string()], "b"));
    assert!(!is_listed(&vec!["a".to_string()], "A"));
}

#[test]
fn constants_are_the_floats_they_name() {
    assert_eq!(f32::from_bits(ONE), 1.0);
    assert_eq!(f32::from_bits(colormemuch::number::ZERO), 0.0);
    assert_eq!(f32::from_bits(colormemuch::number::HALF), 0.5);
    assert_eq!(f32::from_bits(colormemuch::number::SIX_TENTHS), 0.6);
    assert_eq!(f32::from_bits(colormemuch::number::EIGHT_TENTHS), 0.8);
}

// ------------------------------------------------------------------ library

#[test]
fn upserted_effects_are_looked_up() {
    let mut lib = EffectLibrary { effects: vec![] };
    let mut e = CustomEffect::new_default("Glow".to_string());
    assert_eq!(lib.upsert(e.clone()), "Glow");
    e.motion = Motion::Twinkle;
    assert_eq!(lib.upsert(e), "Glow");
    assert_eq!(lib.effects.len(), 1);
    assert_eq!(lib.get("Glow").unwrap().motion, Motion::Twinkle);
    assert!(lib.get("glow").is_none());
    lib.remove("Glow");
    assert!(lib.get("Glow").is_none());
}

#[test]
fn fresh_names_are_free() {
    let mut lib = EffectLibrary { effects: vec![] };
    let first = lib.fresh_name();
    assert_eq!(first, "Custom 1");
    lib.upsert(CustomEffect::new_default(first.clone()));
    let second = lib.fresh_name();
    assert_eq!(second, "Custom 2");
    assert!(lib.get(&second).is_none());
}

#[test]
fn default_effect_and_dominant_color() {
    let e = CustomEffect::new_default("New".to_string());
    assert_eq!(e.palette.len(), 2);
    assert_eq!(e.dominant(), Rgb(e.palette[0].rgb[0], e.palette[0].rgb[1], e.palette[0].rgb[2]));
    let empty = CustomEffect {
        name: "none".to_string(),
        palette: vec![],
        motion: Motion::Static,
        speed: Single(ONE),
        brightness: Single(ONE),
    };
    assert_eq!(empty.dominant(), Rgb(0x88, 0x88, 0x88));
}

#[test]
fn seeded_effects_have_names_of_their_own() {
    let effects = seed();
    for (i, a) in effects.iter().enumerate() {
        assert!(!a.palette.is_empty());
        for b in &effects[i + 1..] {
            assert_ne!(a.name, b.name);
        }
    }
    assert_eq!(Motion::ALL.len(), 5);
    assert_eq!(Motion::Bounce.label(), "Bounce");
}
