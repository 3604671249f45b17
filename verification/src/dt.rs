//! The desktop tower's case lighting: the transactions its firmware accepts.
//!
//! A change is two writes: a 16-byte behavior array, then, 60 ms later, a color
//! word. Both were captured from the vendor's own software and are reproduced
//! byte for byte; anything else stalls the lighting controller.
//!
//! The color word, low byte first, is `[sel_lo][sel_hi][R][G][B][flags][X][00]`.
//! The register reads back differently, as `[00][R][G][B][flags]`.
//!
//! The behavior array is `[sel_lo][sel_hi][01][EFFECT][0f][SPEED][03][TAIL]`
//! and eight zeros.

pub mod area;
pub mod effect;
pub mod flags;
pub mod speed;

use vstd::arithmetic::div_mod::lemma_div_denominator;
use vstd::prelude::*;

use crate::openrgb::wire::low_byte_of_sum;
use crate::rgb::Rgb;

verus! {

/// Firmware effect of a case area: the vendor's full menu.
#[derive(Clone, Copy, Debug, PartialEq, Eq, Structural)]
pub enum DtEffect {
    Static,
    Flashing,
    Breathing,
    Twinkling,
    /// Built-in palette, color ignored.
    Rainbow,
    Wave,
    /// Built-in palette, color ignored.
    Rising,
    Stack,
    /// Built-in palette, color ignored.
    Expansion,
    /// Built-in palette, color ignored.
    Meteor,
    /// Built-in palette, color ignored.
    Magic,
    /// Built-in palette, color ignored.
    Snake,
}

/// The captured wire parameters of one effect.
#[derive(Clone, Copy, Debug, PartialEq, Eq, Structural)]
pub struct EffectSpec {
    /// Behavior byte 3.
    pub id: u8,
    /// Behavior byte 7; meaning unknown, replayed verbatim.
    pub tail: u8,
    /// Color-word byte 6; meaning unknown, replayed verbatim.
    pub trailer: u8,
    /// Whether the picked color is sent (black otherwise).
    pub takes_color: bool,
}

/// The trailer seen with static and most color effects.
pub const TRAILER_COLOR: u8 = 0x03;

/// The other observed trailer.
pub const TRAILER_PALETTE: u8 = 0x02;

/// The captured behavior array of a static color at global scope.
pub const BEHAVIOR_STATIC_GLOBAL: [u8; 16] = [
    0x01, 0x00, 0x01, 0x00, 0x0f, 0x03, 0x03, 0x00, 0x00, 0x00, 0x00, 0x00, 0x00, 0x00, 0x00, 0x00,
];

impl Default for DtEffect {
    fn default() -> (r: Self)
        ensures
            r == DtEffect::Static,
    {
        DtEffect::Static
    }
}

/// An effect's captured parameters: id, tail, trailer, whether the color is sent.
pub open spec fn effect_spec(id: u8, tail: u8, trailer: u8, takes_color: bool) -> EffectSpec {
    EffectSpec { id, tail, trailer, takes_color }
}

impl DtEffect {
    pub open spec fn name(self) -> Seq<char> {
        match self {
            DtEffect::Static => "Static"@,
            DtEffect::Flashing => "Flashing"@,
            DtEffect::Breathing => "Breathing"@,
            DtEffect::Twinkling => "Twinkling"@,
            DtEffect::Rainbow => "Rainbow"@,
            DtEffect::Wave => "Wave"@,
            DtEffect::Rising => "Rising"@,
            DtEffect::Stack => "Stack"@,
            DtEffect::Expansion => "Expansion"@,
            DtEffect::Meteor => "Meteor"@,
            DtEffect::Magic => "Magic"@,
            DtEffect::Snake => "Snake"@,
        }
    }

    /// The effect's name in the menu.
    pub fn label(self) -> (r: &'static str)
        ensures
            r@ == self.name(),
    {
        match self {
            DtEffect::Static => "Static",
            DtEffect::Flashing => "Flashing",
            DtEffect::Breathing => "Breathing",
            DtEffect::Twinkling => "Twinkling",
            DtEffect::Rainbow => "Rainbow",
            DtEffect::Wave => "Wave",
            DtEffect::Rising => "Rising",
            DtEffect::Stack => "Stack",
            DtEffect::Expansion => "Expansion",
            DtEffect::Meteor => "Meteor",
            DtEffect::Magic => "Magic",
            DtEffect::Snake => "Snake",
        }
    }

    /// The capture table.
    pub open spec fn captured(self) -> EffectSpec {
        match self {
            DtEffect::Static => effect_spec(effect::STATIC, 0x00, TRAILER_COLOR, true),
            DtEffect::Flashing => effect_spec(effect::FLASHING, 0x00, TRAILER_COLOR, true),
            DtEffect::Breathing => effect_spec(effect::BREATHING, 0x00, TRAILER_COLOR, true),
            DtEffect::Twinkling => effect_spec(effect::TWINKLING, 0x00, TRAILER_COLOR, true),
            DtEffect::Rainbow => effect_spec(effect::RAINBOW, 0x00, TRAILER_PALETTE, false),
            DtEffect::Wave => effect_spec(effect::WAVE, 0x00, TRAILER_COLOR, true),
            DtEffect::Rising => effect_spec(effect::RISING, 0x00, TRAILER_PALETTE, false),
            DtEffect::Stack => effect_spec(effect::STACK, 0x01, TRAILER_PALETTE, true),
            DtEffect::Expansion => effect_spec(effect::EXPANSION, 0x00, TRAILER_PALETTE, false),
            DtEffect::Meteor => effect_spec(effect::METEOR, 0x00, TRAILER_PALETTE, false),
            DtEffect::Magic => effect_spec(effect::MAGIC, 0x00, TRAILER_PALETTE, false),
            DtEffect::Snake => effect_spec(effect::SNAKE, 0x01, TRAILER_COLOR, false),
        }
    }

    /// The captured parameters of this effect.
    pub fn spec(self) -> (r: EffectSpec)
        ensures
            r == self.captured(),
    {
        let (id, tail, trailer, takes_color): (u8, u8, u8, bool) = match self {
            DtEffect::Static => (effect::STATIC, 0x00, TRAILER_COLOR, true),
            DtEffect::Flashing => (effect::FLASHING, 0x00, TRAILER_COLOR, true),
            DtEffect::Breathing => (effect::BREATHING, 0x00, TRAILER_COLOR, true),
            DtEffect::Twinkling => (effect::TWINKLING, 0x00, TRAILER_COLOR, true),
            DtEffect::Rainbow => (effect::RAINBOW, 0x00, TRAILER_PALETTE, false),
            DtEffect::Wave => (effect::WAVE, 0x00, TRAILER_COLOR, true),
            DtEffect::Rising => (effect::RISING, 0x00, TRAILER_PALETTE, false),
            DtEffect::Stack => (effect::STACK, 0x01, TRAILER_PALETTE, true),
            DtEffect::Expansion => (effect::EXPANSION, 0x00, TRAILER_PALETTE, false),
            DtEffect::Meteor => (effect::METEOR, 0x00, TRAILER_PALETTE, false),
            DtEffect::Magic => (effect::MAGIC, 0x00, TRAILER_PALETTE, false),
            DtEffect::Snake => (effect::SNAKE, 0x01, TRAILER_COLOR, false),
        };
        EffectSpec { id, tail, trailer, takes_color }
    }

    /// Behavior byte 3.
    pub fn id(self) -> (r: u8)
        ensures
            r == self.captured().id,
    {
        self.spec().id
    }

    /// Whether the picked color is sent for this effect; black otherwise.
    pub fn takes_color(self) -> (r: bool)
        ensures
            r == self.captured().takes_color,
    {
        self.spec().takes_color
    }

    /// Whether the speed byte means anything: static has nothing to animate.
    pub fn has_speed(self) -> (r: bool)
        ensures
            r == (self != DtEffect::Static),
    {
        self != DtEffect::Static
    }

    /// The speed byte that goes on the wire.
    pub open spec fn sent_speed(self, speed: u8) -> u8 {
        if self == DtEffect::Static {
            speed::DEFAULT
        } else {
            speed::in_range(speed)
        }
    }

    /// The speed byte that goes on the wire for this effect: the request moved
    /// into range, or the captured default where the effect has no speed.
    pub fn wire_speed(self, speed: u8) -> (r: u8)
        ensures
            r == self.sent_speed(speed),
            speed::MIN <= r <= speed::MAX,
    {
        if self.has_speed() {
            speed::clamp(speed)
        } else {
            speed::DEFAULT
        }
    }

    /// Whether a capture backs this effect's behavior bytes for an area.
    pub open spec fn captured_for(self, area: u16) -> bool {
        area == area::ALL || self == DtEffect::Static
    }

    /// Whether a capture backs this effect's behavior bytes for `area`: every
    /// effect at global scope, and static on any area.
    pub fn is_supported_for(self, area: u16) -> (r: bool)
        ensures
            r == self.captured_for(area),
    {
        area == area::ALL || self == DtEffect::Static
    }

    /// Whether the effect is captured at all: every one is.
    pub fn is_supported(self) -> (r: bool)
        ensures
            r == self.captured_for(area::ALL),
    {
        true
    }

    /// The menu order.
    pub open spec fn menu() -> Seq<DtEffect> {
        seq![
            DtEffect::Static,
            DtEffect::Breathing,
            DtEffect::Flashing,
            DtEffect::Twinkling,
            DtEffect::Wave,
            DtEffect::Stack,
            DtEffect::Rainbow,
            DtEffect::Rising,
            DtEffect::Expansion,
            DtEffect::Meteor,
            DtEffect::Magic,
            DtEffect::Snake,
        ]
    }

    /// Every effect, in menu order.
    pub fn all() -> (r: [Self; 12])
        ensures
            r@ == Self::menu(),
    {
        let all = [
            DtEffect::Static,
            DtEffect::Breathing,
            DtEffect::Flashing,
            DtEffect::Twinkling,
            DtEffect::Wave,
            DtEffect::Stack,
            DtEffect::Rainbow,
            DtEffect::Rising,
            DtEffect::Expansion,
            DtEffect::Meteor,
            DtEffect::Magic,
            DtEffect::Snake,
        ];
        assert(all@ =~= Self::menu());
        all
    }
}

/// What the whole case is asked to show, the RAM aside. An engine state without
/// one leaves the case alone.
#[derive(Debug)]
pub struct DtState {
    pub color: Rgb,
    pub on: bool,
    pub effect: DtEffect,
    /// Animation speed; whole-case only.
    pub speed: u8,
    /// Per-area overrides, applied after the global look, in order.
    pub areas: Vec<AreaCmd>,
}

/// One per-area command.
#[derive(Clone, Copy, Debug, PartialEq, Eq, Structural)]
pub struct AreaCmd {
    pub area: u16,
    pub color: Rgb,
    pub on: bool,
    pub effect: DtEffect,
}

/// Whether every area has at most one override, none of them for the broadcast
/// selector.
pub open spec fn tidy_areas(areas: Seq<AreaCmd>) -> bool {
    &&& forall|i: int| 0 <= i < areas.len() ==> (#[trigger] areas[i]).area != area::ALL
    &&& forall|i: int, j: int|
        0 <= i < j < areas.len() ==> (#[trigger] areas[i]).area != (#[trigger] areas[j]).area
}

impl DtState {
    /// The same request.
    pub open spec fn same_as(self, other: DtState) -> bool {
        &&& self.color == other.color
        &&& self.on == other.on
        &&& self.effect == other.effect
        &&& self.speed == other.speed
        &&& self.areas@ == other.areas@
    }
}

impl Clone for DtState {
    fn clone(&self) -> (r: Self)
        ensures
            r.same_as(*self),
    {
        DtState {
            color: self.color,
            on: self.on,
            effect: self.effect,
            speed: self.speed,
            areas: self.areas.clone(),
        }
    }
}

impl Default for DtState {
    fn default() -> (r: Self)
        ensures
            r.color == Rgb(0x00, 0xE5, 0xFF),
            r.on,
            r.effect == DtEffect::Static,
            r.speed == speed::DEFAULT,
            r.areas@ == Seq::<AreaCmd>::empty(),
    {
        DtState {
            color: Rgb(0x00, 0xE5, 0xFF),
            on: true,
            effect: DtEffect::Static,
            speed: speed::DEFAULT,
            areas: Vec::new(),
        }
    }
}

// ------------------------------------------------------- the behavior array

/// The behavior array of an effect on an area: the static template with the
/// selector, the effect id, the speed and the tail patched in.
pub open spec fn behavior(area: u16, fx: DtEffect, speed: u8) -> Seq<u8> {
    BEHAVIOR_STATIC_GLOBAL@
        .update(0, (area % 256) as u8)
        .update(1, (area / 256) as u8)
        .update(3, fx.captured().id)
        .update(5, fx.sent_speed(speed))
        .update(7, fx.captured().tail)
}

/// The static behavior array for an area.
pub fn behavior_static_for(area: u16) -> (r: [u8; 16])
    ensures
        r@ == behavior(area, DtEffect::Static, speed::DEFAULT),
{
    behavior_for(area, DtEffect::Static, speed::DEFAULT)
}

/// The behavior array of an effect on an area. Callers gate on
/// [`DtEffect::is_supported_for`].
pub fn behavior_for(area: u16, fx: DtEffect, speed: u8) -> (r: [u8; 16])
    ensures
        r@ == behavior(area, fx, speed),
{
    let spec = fx.spec();
    let mut b: [u8; 16] = BEHAVIOR_STATIC_GLOBAL;
    b[0] = (area % 256) as u8;
    b[1] = (area / 256) as u8;
    b[3] = spec.id;
    b[5] = fx.wire_speed(speed);
    b[7] = spec.tail;
    b
}

/// A behavior array departs from the static template only in the selector, the
/// effect id, the speed and the tail.
pub proof fn behavior_differs_only_in_patched_bytes(area: u16, fx: DtEffect, speed: u8, i: int)
    requires
        0 <= i < 16,
        i != 0 && i != 1 && i != 3 && i != 5 && i != 7,
    ensures
        behavior(area, fx, speed).len() == 16,
        behavior(area, fx, speed)[i] == BEHAVIOR_STATIC_GLOBAL@[i],
{
}

/// At global scope the static array is the captured template, whatever the
/// speed asked for: static has no speed.
pub proof fn static_global_is_the_template(speed: u8)
    ensures
        behavior(area::ALL, DtEffect::Static, speed) == BEHAVIOR_STATIC_GLOBAL@,
{
    assert(behavior(area::ALL, DtEffect::Static, speed) =~= BEHAVIOR_STATIC_GLOBAL@);
}

/// No two effects share an id.
pub proof fn effect_ids_are_unique(a: DtEffect, b: DtEffect)
    requires
        a.captured().id == b.captured().id,
    ensures
        a == b,
{
}

/// The menu holds every effect exactly once.
pub proof fn menu_is_complete(fx: DtEffect, i: int, j: int)
    ensures
        DtEffect::menu().contains(fx),
        0 <= i < j < DtEffect::menu().len() ==> DtEffect::menu()[i] != DtEffect::menu()[j],
{
    let m = DtEffect::menu();
    assert(m[0] == DtEffect::Static && m[1] == DtEffect::Breathing && m[2] == DtEffect::Flashing
        && m[3] == DtEffect::Twinkling && m[4] == DtEffect::Wave && m[5] == DtEffect::Stack && m[6]
        == DtEffect::Rainbow && m[7] == DtEffect::Rising && m[8] == DtEffect::Expansion && m[9]
        == DtEffect::Meteor && m[10] == DtEffect::Magic && m[11] == DtEffect::Snake);
}

// ----------------------------------------------------------- the color word

/// A color word: `[sel_lo][sel_hi][R][G][B][flags][X][00]`, low byte first.
pub open spec fn color_word(area: u16, color: Rgb, flags: u8, trailer: u8) -> int {
    area + 0x1_0000 * color.0 + 0x100_0000 * color.1 + 0x1_0000_0000 * color.2 + 0x100_0000_0000
        * flags + 0x1_0000_0000_0000 * trailer
}

/// The flags byte of an output state.
pub open spec fn flag_of(on: bool) -> u8 {
    if on {
        flags::ON
    } else {
        flags::OFF
    }
}

/// The color that goes on the wire for an effect.
pub open spec fn sent_color(color: Rgb, fx: DtEffect) -> Rgb {
    if fx.captured().takes_color {
        color
    } else {
        Rgb(0, 0, 0)
    }
}

fn pack_word(area: u16, color: Rgb, flags: u8, trailer: u8) -> (r: u64)
    ensures
        r == color_word(area, color, flags, trailer),
{
    area as u64 + 0x1_0000 * (color.0 as u64) + 0x100_0000 * (color.1 as u64) + 0x1_0000_0000 * (
    color.2 as u64) + 0x100_0000_0000 * (flags as u64) + 0x1_0000_0000_0000 * (trailer as u64)
}

/// The color word of the static shape.
pub fn pack_setting(area: u16, color: Rgb, flags: u8) -> (r: u64)
    ensures
        r == color_word(area, color, flags, TRAILER_COLOR),
{
    pack_word(area, color, flags, TRAILER_COLOR)
}

/// The color that goes on the wire for an effect: the picked one, or black.
pub fn wire_color(color: Rgb, fx: DtEffect) -> (r: Rgb)
    ensures
        r == sent_color(color, fx),
{
    if fx.takes_color() {
        color
    } else {
        Rgb(0, 0, 0)
    }
}

/// The color word of an effect: the picked color or black, and the effect's own
/// trailer.
pub fn pack_setting_for(area: u16, color: Rgb, on: bool, fx: DtEffect) -> (r: u64)
    ensures
        r == color_word(area, sent_color(color, fx), flag_of(on), fx.captured().trailer),
{
    let flags: u8 = if on {
        flags::ON
    } else {
        flags::OFF
    };
    pack_word(area, wire_color(color, fx), flags, fx.spec().trailer)
}

/// The register echo: `[00][R][G][B][flags]`, low byte first.
pub open spec fn echo(word: u64) -> (Rgb, u8) {
    (
        Rgb(
            ((word / 0x100) % 256) as u8,
            ((word / 0x1_0000) % 256) as u8,
            ((word / 0x100_0000) % 256) as u8,
        ),
        ((word / 0x1_0000_0000) % 256) as u8,
    )
}

/// Unpacks a register echo into its color and flags.
pub fn unpack_echo(word: u64) -> (r: (Rgb, u8))
    ensures
        r == echo(word),
{
    (
        Rgb(
            ((word / 0x100) % 256) as u8,
            ((word / 0x1_0000) % 256) as u8,
            ((word / 0x100_0000) % 256) as u8,
        ),
        ((word / 0x1_0000_0000) % 256) as u8,
    )
}

/// Every color word carries its color and flags one byte above where the echo
/// has them: a written word less its low byte unpacks to what was written.
pub proof fn echo_of_a_written_word(area: u16, color: Rgb, flags: u8, trailer: u8, word: u64)
    requires
        word == color_word(area, color, flags, trailer),
    ensures
        echo(word / 0x100) == (color, flags),
{
    let w = word as int;
    let n5 = flags + 256 * trailer;
    let n4 = color.2 + 256 * n5;
    let n3 = color.1 + 256 * n4;
    let n2 = color.0 + 256 * n3;
    let n1 = area / 256 + 256 * n2;
    low_byte_of_sum(w, (area % 256) as int, n1);
    low_byte_of_sum(n1, (area / 256) as int, n2);
    low_byte_of_sum(n2, color.0 as int, n3);
    low_byte_of_sum(n3, color.1 as int, n4);
    low_byte_of_sum(n4, color.2 as int, n5);
    low_byte_of_sum(n5, flags as int, trailer as int);
    assert(n1 / 0x1_0000 == n3) by {
        lemma_div_denominator(n1, 256, 256);
    }
    assert(n1 / 0x100_0000 == n4) by {
        lemma_div_denominator(n1, 0x1_0000, 256);
    }
    assert(n1 / 0x1_0000_0000 == n5) by {
        lemma_div_denominator(n1, 0x100_0000, 256);
    }
}

/// Switching off flips only the flags byte of the color word: the color, the
/// selector and the trailer stay.
pub proof fn off_flips_only_the_flags(area: u16, color: Rgb, fx: DtEffect)
    ensures
        color_word(area, sent_color(color, fx), flag_of(true), fx.captured().trailer) - color_word(
            area,
            sent_color(color, fx),
            flag_of(false),
            fx.captured().trailer,
        ) == 0x100_0000_0000 * (flags::ON - flags::OFF),
{
}

/// An effect with a built-in palette writes the same word whatever color is
/// picked.
pub proof fn palette_effects_ignore_the_color(area: u16, a: Rgb, b: Rgb, on: bool, fx: DtEffect)
    requires
        !fx.captured().takes_color,
    ensures
        color_word(area, sent_color(a, fx), flag_of(on), fx.captured().trailer) == color_word(
            area,
            sent_color(b, fx),
            flag_of(on),
            fx.captured().trailer,
        ),
{
}

// --------------------------------------------------------- the transaction

/// Pause between the two writes of a transaction, in milliseconds.
pub const TRANSACTION_PAUSE_MS: u64 = 60;

/// The two writes that apply a look to an area: the behavior array, then, after
/// the pause, the color word.
#[derive(Clone, Copy, Debug, PartialEq, Eq)]
pub struct Transaction {
    pub behavior: [u8; 16],
    pub word: u64,
}

/// The transaction that applies an effect to an area.
pub fn effect_transaction(area: u16, color: Rgb, on: bool, fx: DtEffect, speed: u8) -> (r:
    Transaction)
    ensures
        r.behavior@ == behavior(area, fx, speed),
        r.word == color_word(area, sent_color(color, fx), flag_of(on), fx.captured().trailer),
{
    Transaction {
        behavior: behavior_for(area, fx, speed),
        word: pack_setting_for(area, color, on, fx),
    }
}

/// The transaction that applies a static color to an area.
pub fn static_transaction(area: u16, color: Rgb, on: bool) -> (r: Transaction)
    ensures
        r.behavior@ == behavior(area, DtEffect::Static, speed::DEFAULT),
        r.word == color_word(area, color, flag_of(on), TRAILER_COLOR),
{
    effect_transaction(area, color, on, DtEffect::Static, speed::DEFAULT)
}

// -------------------------------------------------------------------- laws

/// The picked color is sent as it is, but for the six effects that bring their
/// own palette: those send black.
pub proof fn picked_colors_are_sent(color: Rgb, fx: DtEffect)
    ensures
        (fx == DtEffect::Rainbow || fx == DtEffect::Rising || fx == DtEffect::Expansion || fx
            == DtEffect::Meteor || fx == DtEffect::Magic || fx == DtEffect::Snake) ==> sent_color(
            color,
            fx,
        ) == Rgb(0, 0, 0),
        (fx == DtEffect::Static || fx == DtEffect::Flashing || fx == DtEffect::Breathing || fx
            == DtEffect::Twinkling || fx == DtEffect::Wave || fx == DtEffect::Stack) ==> sent_color(
            color,
            fx,
        ) == color,
{
}

/// The speed is sent as it was asked for between one and ten, bounds included;
/// outside it moves to the nearer bound. Static always sends three.
pub proof fn speeds_are_sent_as_asked(fx: DtEffect, speed: u8)
    ensures
        fx == DtEffect::Static ==> fx.sent_speed(speed) == 3,
        fx != DtEffect::Static ==> {
            &&& 1 <= speed <= 10 ==> fx.sent_speed(speed) == speed
            &&& speed < 1 ==> fx.sent_speed(speed) == 1
            &&& speed > 10 ==> fx.sent_speed(speed) == 10
        },
{
}

/// The behavior array byte by byte: the selector low byte first, then the fixed
/// bytes of the capture around the effect's id, the speed and the tail.
pub proof fn behavior_bytes(area: u16, fx: DtEffect, speed: u8, i: int)
    ensures
        ({
            let b = behavior(area, fx, speed);
            &&& b.len() == 16
            &&& b[0] + 256 * b[1] == area
            &&& b[2] == 0x01 && b[4] == 0x0f && b[6] == 0x03
            &&& 8 <= i < 16 ==> b[i] == 0
            &&& b[3] == (match fx {
                DtEffect::Static => 0x00u8,
                DtEffect::Flashing => 0x01,
                DtEffect::Breathing => 0x02,
                DtEffect::Twinkling => 0x03,
                DtEffect::Rainbow => 0x06,
                DtEffect::Wave => 0x09,
                DtEffect::Rising => 0x0a,
                DtEffect::Stack => 0x0b,
                DtEffect::Expansion => 0x0c,
                DtEffect::Meteor => 0x0d,
                DtEffect::Magic => 0x0e,
                DtEffect::Snake => 0x0f,
            })
            &&& b[5] == fx.sent_speed(speed)
            &&& b[7] == (if fx == DtEffect::Stack || fx == DtEffect::Snake {
                0x01u8
            } else {
                0x00
            })
        }),
{
}

/// The color word byte by byte, low byte first: the selector in two bytes, red,
/// green, blue, the flags, and the trailer on top.
pub proof fn color_word_bytes(area: u16, color: Rgb, flags: u8, trailer: u8)
    ensures
        ({
            let w = color_word(area, color, flags, trailer);
            &&& w % 0x1_0000 == area
            &&& (w / 0x1_0000) % 256 == color.0
            &&& (w / 0x100_0000) % 256 == color.1
            &&& (w / 0x1_0000_0000) % 256 == color.2
            &&& (w / 0x100_0000_0000) % 256 == flags
            &&& w / 0x1_0000_0000_0000 == trailer
        }),
{
    let w = color_word(area, color, flags, trailer);
    let n5 = flags + 256 * trailer;
    let n4 = color.2 + 256 * n5;
    let n3 = color.1 + 256 * n4;
    let n2 = color.0 + 256 * n3;
    assert(w == area + 0x1_0000 * n2);
    assert(w / 0x1_0000 == n2 && w % 0x1_0000 == area);
    low_byte_of_sum(n2, color.0 as int, n3);
    low_byte_of_sum(n3, color.1 as int, n4);
    low_byte_of_sum(n4, color.2 as int, n5);
    low_byte_of_sum(n5, flags as int, trailer as int);
    assert(w / 0x100_0000 == n3) by {
        lemma_div_denominator(w, 0x1_0000, 256);
    }
    assert(w / 0x1_0000_0000 == n4) by {
        lemma_div_denominator(w, 0x100_0000, 256);
    }
    assert(w / 0x100_0000_0000 == n5) by {
        lemma_div_denominator(w, 0x1_0000_0000, 256);
    }
    assert(w / 0x1_0000_0000_0000 == trailer) by {
        lemma_div_denominator(w, 0x100_0000_0000, 256);
    }
}

/// On and off are the two captured flag bytes, and the trailer is the captured
/// one of the effect.
pub proof fn flags_and_trailers_are_the_captured_ones(on: bool, fx: DtEffect)
    ensures
        flag_of(on) == (if on {
            0x09u8
        } else {
            0x01
        }),
        fx.captured().trailer == 0x02 <==> (fx == DtEffect::Rainbow || fx == DtEffect::Rising || fx
            == DtEffect::Stack || fx == DtEffect::Expansion || fx == DtEffect::Meteor || fx
            == DtEffect::Magic),
        fx.captured().trailer == 0x02 || fx.captured().trailer == 0x03,
{
}

/// A register that holds nothing, red, green, blue and the flags, low byte first,
/// echoes that color and those flags.
pub proof fn registers_echo_their_bytes(color: Rgb, flags: u8, word: u64)
    requires
        word == 0x100 * color.0 + 0x1_0000 * color.1 + 0x100_0000 * color.2 + 0x1_0000_0000 * flags,
    ensures
        echo(word) == (color, flags),
{
    let w = word as int;
    let n3 = color.2 + 256 * flags;
    let n2 = color.1 + 256 * n3;
    let n1 = color.0 + 256 * n2;
    low_byte_of_sum(w, 0, n1);
    low_byte_of_sum(n1, color.0 as int, n2);
    low_byte_of_sum(n2, color.1 as int, n3);
    low_byte_of_sum(n3, color.2 as int, flags as int);
    assert(w / 0x1_0000 == n2) by {
        lemma_div_denominator(w, 256, 256);
    }
    assert(w / 0x100_0000 == n3) by {
        lemma_div_denominator(w, 0x1_0000, 256);
    }
    assert(w / 0x1_0000_0000 == flags) by {
        lemma_div_denominator(w, 0x100_0000, 256);
    }
}

/// Off the broadcast selector only static is backed by a capture; on it every
/// effect is.
pub proof fn only_static_is_captured_by_area(fx: DtEffect, sel: u16)
    ensures
        fx.captured_for(1),
        sel != 1 ==> (fx.captured_for(sel) <==> fx == DtEffect::Static),
{
}

/// A copy of a request is the request, field by field.
pub proof fn copies_are_equal_requests(a: DtState, b: DtState)
    ensures
        a.same_as(b) <==> a.color == b.color && a.on == b.on && a.effect == b.effect && a.speed
            == b.speed && a.areas@ == b.areas@,
{
}

/// No two effects go by one name.
pub proof fn effect_names_are_unique(a: DtEffect, b: DtEffect)
    requires
        a.name() == b.name(),
    ensures
        a == b,
{
    reveal_strlit("Static");
    reveal_strlit("Flashing");
    reveal_strlit("Breathing");
    reveal_strlit("Twinkling");
    reveal_strlit("Rainbow");
    reveal_strlit("Wave");
    reveal_strlit("Rising");
    reveal_strlit("Stack");
    reveal_strlit("Expansion");
    reveal_strlit("Meteor");
    reveal_strlit("Magic");
    reveal_strlit("Snake");
    let x = a.name();
    let y = b.name();
    assert(x[0] == y[0] && x[1] == y[1] && x[2] == y[2] && x[3] == y[3]);
}

/// The menu starts with static, and effects that show the picked color come
/// before those that do not.
pub proof fn the_menu_puts_colored_effects_first(i: int)
    requires
        0 <= i < DtEffect::menu().len(),
    ensures
        DtEffect::menu().len() == 12,
        DtEffect::menu()[0] == DtEffect::Static,
        DtEffect::menu()[i].captured().takes_color <==> i < 6,
{
}

/// A static color is sent as the static effect is, at any speed.
pub proof fn static_colors_are_the_static_effect(
    sel: u16,
    color: Rgb,
    on: bool,
    speed: u8,
    a: Transaction,
    b: Transaction,
)
    requires
        call_ensures(static_transaction, (sel, color, on), a),
        call_ensures(effect_transaction, (sel, color, on, DtEffect::Static, speed), b),
    ensures
        a.behavior@ == b.behavior@,
        a.word == b.word,
{
    assert(a.behavior@ =~= b.behavior@);
}

} // verus!
