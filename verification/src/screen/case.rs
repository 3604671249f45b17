//! The tower case page: the whole case, and an override for each area.

use vstd::prelude::*;

use crate::dt::{area, menu_is_complete, speed, tidy_areas, AreaCmd, DtEffect};
use crate::rgb::Rgb;
use crate::screen::setup::{rgb_of, DtSetup};

verus! {

/// One area's card: its selector, its texts, and whether a capture backs it.
#[derive(Clone, Copy, Debug)]
pub struct AreaCard {
    pub area: u16,
    pub title: &'static str,
    pub subtitle: &'static str,
    pub verified: bool,
}

/// The selectors that have a card, in display order.
pub open spec fn card_areas() -> Seq<u16> {
    seq![area::FRONT, area::TOP, area::REAR, area::AUX]
}

/// The area cards, in display order. Only the front is backed by a capture.
pub fn area_cards() -> (r: [AreaCard; 4])
    ensures
        forall|i: int|
            0 <= i < 4 ==> (#[trigger] r@[i]).area == card_areas()[i] && r@[i].verified == (r@[i].area
                == area::FRONT),
        r@[0].title@ == "Front"@ && r@[0].subtitle@ == "Front face"@,
        r@[1].title@ == "Top"@ && r@[1].subtitle@ == "Top fan · above the GPU"@,
        r@[2].title@ == "Rear"@ && r@[2].subtitle@ == "Rear exhaust fan"@,
        r@[3].title@ == "Aux"@ && r@[3].subtitle@ == "Unmapped channel"@,
{
    [
        AreaCard { area: area::FRONT, title: "Front", subtitle: "Front face", verified: true },
        AreaCard {
            area: area::TOP,
            title: "Top",
            subtitle: "Top fan · above the GPU",
            verified: false,
        },
        AreaCard { area: area::REAR, title: "Rear", subtitle: "Rear exhaust fan", verified: false },
        AreaCard { area: area::AUX, title: "Aux", subtitle: "Unmapped channel", verified: false },
    ]
}

/// The settings that a case starts with.
pub open spec fn fresh(s: DtSetup) -> bool {
    &&& s.color@ == seq![0x00u8, 0xE5, 0xFF]
    &&& s.on
    &&& s.effect == DtEffect::Static
    &&& s.speed == speed::DEFAULT
    &&& s.areas@ == Seq::<AreaCmd>::empty()
}

/// The settings that a case starts with when it is turned on.
pub fn fresh_case() -> (r: DtSetup)
    ensures
        fresh(r),
{
    let color: [u8; 3] = [0x00, 0xE5, 0xFF];
    assert(color@ =~= seq![0x00u8, 0xE5, 0xFF]);
    DtSetup { color, on: true, effect: DtEffect::Static, speed: speed::DEFAULT, areas: Vec::new() }
}

/// The case settings once its master switch was flipped: fresh ones, or none.
pub fn switch_case(enabled: bool) -> (r: Option<DtSetup>)
    ensures
        match r {
            Some(s) => enabled && fresh(s),
            None => !enabled,
        },
{
    if enabled {
        Some(fresh_case())
    } else {
        None
    }
}

/// The override that an area starts with.
pub open spec fn fresh_override(sel: u16) -> AreaCmd {
    AreaCmd { area: sel, color: Rgb(0x00, 0xE5, 0xFF), on: true, effect: DtEffect::Static }
}

/// Whether an area has an override.
pub open spec fn has_override(areas: Seq<AreaCmd>, sel: u16) -> bool {
    exists|i: int| 0 <= i < areas.len() && (#[trigger] areas[i]).area == sel
}

/// Whether the `i`-th override is the first of an area.
pub open spec fn first_override(areas: Seq<AreaCmd>, sel: u16, i: int) -> bool {
    &&& 0 <= i < areas.len()
    &&& areas[i].area == sel
    &&& forall|j: int| 0 <= j < i ==> (#[trigger] areas[j]).area != sel
}

/// Where an area's override stands.
pub fn find_override(areas: &Vec<AreaCmd>, sel: u16) -> (r: Option<usize>)
    ensures
        match r {
            Some(i) => first_override(areas@, sel, i as int),
            None => !has_override(areas@, sel),
        },
{
    let mut i: usize = 0;
    while i < areas.len()
        invariant
            i <= areas@.len(),
            forall|j: int| 0 <= j < i ==> (#[trigger] areas@[j]).area != sel,
        decreases areas@.len() - i,
    {
        if areas[i].area == sel {
            return Some(i);
        }
        i += 1;
    }
    None
}

/// What an area's card shows: the color, and whether it is lit. An area without
/// an override shows the case's color, unlit.
pub fn area_look(dt: &DtSetup, sel: u16) -> (r: (Rgb, bool))
    ensures
        !has_override(dt.areas@, sel) ==> r == (rgb_of(dt.color), false),
        forall|i: int| #[trigger]
            first_override(dt.areas@, sel, i) ==> r == (dt.areas@[i].color, dt.areas@[i].on),
{
    match find_override(&dt.areas, sel) {
        Some(i) => {
            proof {
                assert forall|k: int| #[trigger] first_override(dt.areas@, sel, k) implies k
                    == i by {
                    same_first(dt.areas@, sel, k, i as int);
                }
            }
            (dt.areas[i].color, dt.areas[i].on)
        },
        None => (Rgb(dt.color[0], dt.color[1], dt.color[2]), false),
    }
}

proof fn same_first(areas: Seq<AreaCmd>, sel: u16, a: int, b: int)
    requires
        first_override(areas, sel, a),
        first_override(areas, sel, b),
    ensures
        a == b,
{
    if a < b {
        assert(areas[a].area != sel);
    }
    if b < a {
        assert(areas[b].area != sel);
    }
}

/// The overrides once an area's switch stands where it stands: a fresh override
/// added, or the area's override removed, or nothing changed.
pub open spec fn switched(before: Seq<AreaCmd>, sel: u16, enabled: bool, after: Seq<AreaCmd>) -> bool {
    if enabled == has_override(before, sel) {
        after == before
    } else if enabled {
        after == before.push(fresh_override(sel))
    } else {
        exists|i: int| #[trigger] first_override(before, sel, i) && after == before.remove(i)
    }
}

/// Gives an area an override, or takes it away. Says whether anything changed.
pub fn switch_area(dt: &mut DtSetup, sel: u16, enabled: bool) -> (r: bool)
    ensures
        r == (enabled != has_override(old(dt).areas@, sel)),
        switched(old(dt).areas@, sel, enabled, final(dt).areas@),
        *final(dt) == (DtSetup { areas: final(dt).areas, ..*old(dt) }),
{
    match find_override(&dt.areas, sel) {
        Some(i) => {
            assert(has_override(dt.areas@, sel));
            if enabled {
                false
            } else {
                assert(first_override(old(dt).areas@, sel, i as int));
                dt.areas.remove(i);
                true
            }
        },
        None => {
            if enabled {
                dt.areas.push(
                    AreaCmd {
                        area: sel,
                        color: Rgb(0x00, 0xE5, 0xFF),
                        on: true,
                        effect: DtEffect::Static,
                    },
                );
                true
            } else {
                false
            }
        },
    }
}

/// Switching cards keeps the case tidy: no area ever gets two overrides. And a
/// switch does what it says: the area has an override exactly when it is on.
pub proof fn switching_keeps_the_case_tidy(
    before: Seq<AreaCmd>,
    sel: u16,
    enabled: bool,
    after: Seq<AreaCmd>,
)
    requires
        tidy_areas(before),
        sel != area::ALL,
        switched(before, sel, enabled, after),
    ensures
        tidy_areas(after),
        has_override(after, sel) == enabled,
{
    if enabled != has_override(before, sel) {
        if enabled {
            assert(after.last().area == sel);
            assert(after[after.len() - 1].area == sel);
            assert forall|i: int, j: int| 0 <= i < j < after.len() implies (
            #[trigger] after[i]).area != (#[trigger] after[j]).area by {
                if j < before.len() {
                    assert(before[i].area != before[j].area);
                } else {
                    assert(before[i].area != sel);
                }
            }
            assert forall|i: int| 0 <= i < after.len() implies (#[trigger] after[i]).area
                != area::ALL by {
                if i < before.len() {
                    assert(before[i].area != area::ALL);
                }
            }
        } else {
            let k = choose|k: int| #[trigger] first_override(before, sel, k) && after == before.remove(k);
            assert forall|i: int| 0 <= i < after.len() implies (#[trigger] after[i]).area
                != area::ALL && after[i].area != sel by {
                let m = if i < k {
                    i
                } else {
                    i + 1
                };
                assert(after[i] == before[m]);
                if m < k {
                    assert(before[m].area != before[k].area);
                } else {
                    assert(before[k].area != before[m].area);
                }
            }
            assert forall|i: int, j: int| 0 <= i < j < after.len() implies (
            #[trigger] after[i]).area != (#[trigger] after[j]).area by {
                let m = if i < k {
                    i
                } else {
                    i + 1
                };
                let n = if j < k {
                    j
                } else {
                    j + 1
                };
                assert(before[m].area != before[n].area);
            }
        }
    }
}

/// One entry of an effect picker.
#[derive(Clone, Copy, Debug, PartialEq, Eq, Structural)]
pub struct EffectChoice {
    pub effect: DtEffect,
    pub enabled: bool,
}

/// The effects that an area's picker offers, in menu order. Those that no
/// capture backs on that area are shown but cannot be picked.
pub fn effect_choices(area: u16) -> (r: Vec<EffectChoice>)
    ensures
        r@.len() == DtEffect::menu().len(),
        forall|i: int|
            0 <= i < r@.len() ==> (#[trigger] r@[i]).effect == DtEffect::menu()[i] && r@[i].enabled
                == DtEffect::menu()[i].captured_for(area),
{
    let all = DtEffect::all();
    let mut out: Vec<EffectChoice> = Vec::new();
    let mut i: usize = 0;
    while i < 12
        invariant
            i <= 12,
            all@ == DtEffect::menu(),
            out@.len() == i,
            forall|k: int|
                0 <= k < i ==> (#[trigger] out@[k]).effect == DtEffect::menu()[k]
                    && out@[k].enabled == DtEffect::menu()[k].captured_for(area),
        decreases 12 - i,
    {
        let effect = all[i];
        out.push(EffectChoice { effect, enabled: effect.is_supported_for(area) });
        i += 1;
    }
    out
}

/// The line under the case's entry in the device list.
pub fn case_subtitle(available: bool) -> (r: &'static str)
    ensures
        r@ == (if available {
            "Tower · WMI"@
        } else {
            "Tower · unavailable"@
        }),
{
    if available {
        "Tower · WMI"
    } else {
        "Tower · unavailable"
    }
}

/// A switch changes its own area alone: every other area keeps the override it
/// had, as it was; a new override is lit, static and cyan, and stands last; and
/// switching off what was just switched on leaves what there was.
pub proof fn switches_leave_other_areas_alone(
    before: Seq<AreaCmd>,
    sel: u16,
    enabled: bool,
    after: Seq<AreaCmd>,
    cmd: AreaCmd,
)
    requires
        switched(before, sel, enabled, after),
    ensures
        cmd.area != sel ==> (after.contains(cmd) <==> before.contains(cmd)),
        enabled && !has_override(before, sel) ==> {
            &&& after.len() == before.len() + 1
            &&& after.drop_last() == before
            &&& after.last().area == sel
            &&& after.last().on
            &&& after.last().effect == DtEffect::Static
            &&& after.last().color == Rgb(0x00, 0xE5, 0xFF)
        },
        enabled == has_override(before, sel) ==> after == before,
        !enabled && has_override(before, sel) ==> after.len() == before.len() - 1,
{
    if enabled != has_override(before, sel) {
        if enabled {
            assert(after.drop_last() =~= before);
            if before.contains(cmd) {
                let i = choose|i: int| 0 <= i < before.len() && before[i] == cmd;
                assert(after[i] == cmd);
            }
            if after.contains(cmd) && cmd.area != sel {
                let i = choose|i: int| 0 <= i < after.len() && after[i] == cmd;
                assert(i < before.len());
                assert(before[i] == cmd);
            }
        } else {
            let k = choose|k: int| #[trigger] first_override(before, sel, k) && after == before.remove(k);
            if before.contains(cmd) && cmd.area != sel {
                let i = choose|i: int| 0 <= i < before.len() && before[i] == cmd;
                assert(i != k);
                if i < k {
                    assert(after[i] == cmd);
                } else {
                    assert(after[i - 1] == cmd);
                }
            }
            if after.contains(cmd) {
                let i = choose|i: int| 0 <= i < after.len() && after[i] == cmd;
                if i < k {
                    assert(before[i] == cmd);
                } else {
                    assert(before[i + 1] == cmd);
                }
            }
        }
    }
}

/// An area has an override exactly where some override names it, and the first of
/// them counts.
pub proof fn overrides_are_found_by_area(areas: Seq<AreaCmd>, sel: u16, i: int)
    requires
        0 <= i < areas.len(),
        areas[i].area == sel,
    ensures
        has_override(areas, sel),
        exists|k: int| #[trigger] first_override(areas, sel, k) && k <= i,
        (forall|j: int| 0 <= j < i ==> (#[trigger] areas[j]).area != sel) ==> first_override(
            areas,
            sel,
            i,
        ),
    decreases i,
{
    if !first_override(areas, sel, i) {
        let j = choose|j: int| 0 <= j < i && (#[trigger] areas[j]).area == sel;
        overrides_are_found_by_area(areas, sel, j);
    }
}

/// A case that is turned on starts lit, static, cyan, at the default speed and
/// without overrides; and there is a card for each of the four areas, the front
/// first.
pub proof fn fresh_cases_are_lit_and_static(s: DtSetup)
    ensures
        fresh(s) ==> s.on && s.effect == DtEffect::Static && s.color@ == seq![0x00u8, 0xE5, 0xFF]
            && s.speed == 3 && s.areas@.len() == 0,
        card_areas().len() == 4,
        card_areas()[0] == 4 && card_areas()[1] == 2 && card_areas()[2] == 16 && card_areas()[3]
            == 8,
{
}

/// The whole case offers every effect; an area of its own offers static alone.
pub proof fn areas_offer_what_is_captured(sel: u16, r: Vec<EffectChoice>, i: int)
    requires
        call_ensures(effect_choices, (sel,), r),
        0 <= i < r@.len(),
    ensures
        r@.len() == 12,
        r@[0].effect == DtEffect::Static,
        sel == 1 ==> r@[i].enabled,
        sel != 1 ==> (r@[i].enabled <==> i == 0),
{
    menu_is_complete(DtEffect::Static, 0, i);
}

/// An area shows its own override where it has one, and the case's color, unlit,
/// where it has none.
pub proof fn areas_show_their_own_override(dt: &DtSetup, sel: u16, r: (Rgb, bool), i: int)
    requires
        call_ensures(area_look, (dt, sel), r),
        0 <= i < dt.areas@.len(),
        forall|j: int| 0 <= j < i ==> (#[trigger] dt.areas@[j]).area != sel,
    ensures
        dt.areas@[i].area == sel ==> r.0 == dt.areas@[i].color && r.1 == dt.areas@[i].on,
        i == dt.areas@.len() - 1 && dt.areas@[i].area != sel ==> r.0 == Rgb(
            dt.color@[0],
            dt.color@[1],
            dt.color@[2],
        ) && !r.1,
{
    if dt.areas@[i].area == sel {
        assert(first_override(dt.areas@, sel, i));
    }
}

} // verus!
