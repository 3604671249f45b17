//! The device page: how a device and its zones are driven.

use vstd::prelude::*;

use crate::effects::{is_listed, listed, Effect, Group};
use crate::screen::setup::{DeviceMode, HwEffect, Kind, ZoneUi};
use crate::text::same;

verus! {

/// The two ways to drive a device.
#[derive(Clone, Copy, Debug, PartialEq, Eq, Structural)]
pub enum ModeTab {
    PerZone,
    Hardware,
}

/// The three kinds of source of a zone.
#[derive(Clone, Copy, Debug, PartialEq, Eq, Structural)]
pub enum SourceTab {
    Solid,
    Program,
    Custom,
}

/// The tab that a device's mode stands for.
pub fn mode_tab(mode: &DeviceMode) -> (r: ModeTab)
    ensures
        r == (match *mode {
            DeviceMode::PerZone => ModeTab::PerZone,
            DeviceMode::Hardware(_) => ModeTab::Hardware,
        }),
{
    match mode {
        DeviceMode::PerZone => ModeTab::PerZone,
        DeviceMode::Hardware(_) => ModeTab::Hardware,
    }
}

/// A device's mode once a tab was picked: a hardware effect starts with the
/// device's first mode.
pub open spec fn picked_mode(tab: ModeTab, modes: Seq<String>, r: DeviceMode) -> bool {
    match tab {
        ModeTab::PerZone => r == DeviceMode::PerZone,
        ModeTab::Hardware => r matches DeviceMode::Hardware(h) && {
            &&& h.mode@ == (if modes.len() > 0 {
                modes[0]@
            } else {
                "STATIC"@
            })
            &&& h.color@ == seq![0x00u8, 0xE5, 0xFF]
            &&& h.speed == 5
            &&& h.brightness == 100
        },
    }
}

/// A device's mode once a tab was picked.
pub fn pick_mode(tab: ModeTab, modes: &Vec<String>) -> (r: DeviceMode)
    ensures
        picked_mode(tab, modes@, r),
{
    match tab {
        ModeTab::PerZone => DeviceMode::PerZone,
        ModeTab::Hardware => {
            let color: [u8; 3] = [0x00, 0xE5, 0xFF];
            assert(color@ =~= seq![0x00u8, 0xE5, 0xFF]);
            DeviceMode::Hardware(
                HwEffect {
                    mode: if modes.len() > 0 {
                        modes[0].clone()
                    } else {
                        "STATIC".to_string()
                    },
                    color,
                    speed: 5,
                    brightness: 100,
                },
            )
        },
    }
}

/// The tab that a zone's kind stands for.
pub fn source_tab(kind: &Kind) -> (r: SourceTab)
    ensures
        r == (match *kind {
            Kind::Solid => SourceTab::Solid,
            Kind::Program(_) => SourceTab::Program,
            Kind::Custom(_) => SourceTab::Custom,
        }),
{
    match kind {
        Kind::Solid => SourceTab::Solid,
        Kind::Program(_) => SourceTab::Program,
        Kind::Custom(_) => SourceTab::Custom,
    }
}

/// A zone's kind once a tab was picked: a program effect starts as a rainbow, a
/// custom one as the first of the library.
pub open spec fn picked_kind(tab: SourceTab, first: Option<Seq<char>>, k: Kind) -> bool {
    match tab {
        SourceTab::Solid => k == Kind::Solid,
        SourceTab::Program => k == Kind::Program(Effect::Rainbow),
        SourceTab::Custom => match first {
            Some(n) => k matches Kind::Custom(name) && name@ == n,
            None => k == Kind::Solid,
        },
    }
}

/// Puts a zone on a tab. `first` names the library's first effect.
pub fn pick_source(z: &mut ZoneUi, tab: SourceTab, first: Option<&String>)
    ensures
        picked_kind(
            tab,
            match first {
                Some(n) => Some(n@),
                None => None,
            },
            final(z).kind,
        ),
        *final(z) == (ZoneUi { kind: final(z).kind, ..*old(z) }),
{
    z.kind = match tab {
        SourceTab::Solid => Kind::Solid,
        SourceTab::Program => Kind::Program(Effect::Rainbow),
        SourceTab::Custom => match first {
            Some(n) => Kind::Custom(n.clone()),
            None => Kind::Solid,
        },
    };
}

/// Whether a zone is of a group.
pub open spec fn in_group(g: Group, zone: usize) -> bool {
    g.zones@.contains(zone)
}

fn is_member(g: &Group, zone: usize) -> (r: bool)
    ensures
        r == in_group(*g, zone),
{
    let mut i: usize = 0;
    while i < g.zones.len()
        invariant
            i <= g.zones@.len(),
            forall|j: int| 0 <= j < i ==> g.zones@[j] != zone,
        decreases g.zones@.len() - i,
    {
        if g.zones[i] == zone {
            return true;
        }
        i += 1;
    }
    false
}

/// The first group that a zone is of.
pub fn group_of_zone(groups: &Vec<Group>, zone: usize) -> (r: Option<usize>)
    ensures
        match r {
            Some(g) => {
                &&& g < groups@.len()
                &&& in_group(groups@[g as int], zone)
                &&& forall|h: int| 0 <= h < g ==> !in_group(#[trigger] groups@[h], zone)
            },
            None => forall|h: int| 0 <= h < groups@.len() ==> !in_group(#[trigger] groups@[h], zone),
        },
{
    let mut i: usize = 0;
    while i < groups.len()
        invariant
            i <= groups@.len(),
            forall|h: int| 0 <= h < i ==> !in_group(#[trigger] groups@[h], zone),
        decreases groups@.len() - i,
    {
        if is_member(&groups[i], zone) {
            return Some(i);
        }
        i += 1;
    }
    None
}

/// Whether no text is listed twice.
pub open spec fn no_repeats(list: Seq<String>) -> bool {
    forall|i: int, j: int|
        0 <= i < j < list.len() ==> (#[trigger] list[i])@ != (#[trigger] list[j])@
}

/// Whether no text is listed twice.
pub fn all_differ(list: &Vec<String>) -> (r: bool)
    ensures
        r == no_repeats(list@),
{
    let mut i: usize = 0;
    while i < list.len()
        invariant
            i <= list@.len(),
            forall|a: int, b: int|
                0 <= a < i && a < b < list@.len() ==> (#[trigger] list@[a])@ != (
                #[trigger] list@[b])@,
        decreases list@.len() - i,
    {
        let mut j: usize = i + 1;
        while j < list.len()
            invariant
                i < j <= list@.len(),
                forall|b: int| i < b < j ==> list@[i as int]@ != (#[trigger] list@[b])@,
            decreases list@.len() - j,
        {
            if same(list[i].as_str(), list[j].as_str()) {
                assert(list@[i as int]@ == list@[j as int]@);
                return false;
            }
            j += 1;
        }
        i += 1;
    }
    true
}

/// Spreads an effect, or links it. Every other effect stays as it was.
pub fn set_spread(spread: &mut Vec<String>, key: &String, on: bool)
    requires
        no_repeats(old(spread)@),
    ensures
        no_repeats(final(spread)@),
        listed(final(spread)@, key@) == on,
        forall|other: Seq<char>|
            other != key@ ==> #[trigger] listed(final(spread)@, other) == listed(
                old(spread)@,
                other,
            ),
{
    if on {
        if !is_listed(spread, key.as_str()) {
            spread.push(key.clone());
            proof {
                let before = old(spread)@;
                let after = spread@;
                assert(after[before.len() as int]@ == key@);
                assert forall|other: Seq<char>| other != key@ implies #[trigger] listed(
                    after,
                    other,
                ) == listed(before, other) by {
                    if listed(before, other) {
                        let i = choose|i: int| 0 <= i < before.len() && (#[trigger] before[i])@ == other;
                        assert(after[i]@ == other);
                    }
                    if listed(after, other) {
                        let i = choose|i: int| 0 <= i < after.len() && (#[trigger] after[i])@ == other;
                        assert(before[i]@ == other);
                    }
                }
            }
        }
    } else {
        let mut i: usize = 0;
        while i < spread.len()
            invariant
                !on,
                i <= spread@.len(),
                spread@ == old(spread)@,
                no_repeats(spread@),
                forall|j: int| 0 <= j < i ==> (#[trigger] spread@[j])@ != key@,
            decreases spread@.len() - i,
        {
            if same(spread[i].as_str(), key.as_str()) {
                let ghost before = spread@;
                spread.remove(i);
                proof {
                    removed_once(before, key@, i as int);
                }
                return;
            }
            i += 1;
        }
    }
}

proof fn removed_once(before: Seq<String>, key: Seq<char>, i: int)
    requires
        no_repeats(before),
        0 <= i < before.len(),
        before[i]@ == key,
    ensures
        no_repeats(before.remove(i)),
        !listed(before.remove(i), key),
        forall|other: Seq<char>|
            other != key ==> #[trigger] listed(before.remove(i), other) == listed(before, other),
{
    let after = before.remove(i);
    assert forall|a: int, b: int| 0 <= a < b < after.len() implies (#[trigger] after[a])@ != (
    #[trigger] after[b])@ by {
        let m = if a < i {
            a
        } else {
            a + 1
        };
        let n = if b < i {
            b
        } else {
            b + 1
        };
        assert(before[m]@ != before[n]@);
    }
    if listed(after, key) {
        let a = choose|a: int| 0 <= a < after.len() && (#[trigger] after[a])@ == key;
        let m = if a < i {
            a
        } else {
            a + 1
        };
        assert(before[m]@ == key);
        if m < i {
            assert(before[m]@ != before[i]@);
        } else {
            assert(before[i]@ != before[m]@);
        }
    }
    assert forall|other: Seq<char>| other != key implies #[trigger] listed(after, other) == listed(
        before,
        other,
    ) by {
        if listed(before, other) {
            let a = choose|a: int| 0 <= a < before.len() && (#[trigger] before[a])@ == other;
            let m = if a < i {
                a
            } else {
                a - 1
            };
            assert(after[m]@ == other);
        }
        if listed(after, other) {
            let a = choose|a: int| 0 <= a < after.len() && (#[trigger] after[a])@ == other;
            let m = if a < i {
                a
            } else {
                a + 1
            };
            assert(before[m]@ == other);
        }
    }
}

/// A list of texts with every text once.
pub fn without_repeats(list: &Vec<String>) -> (r: Vec<String>)
    ensures
        no_repeats(r@),
        forall|t: Seq<char>| #[trigger] listed(r@, t) == listed(list@, t),
{
    let mut out: Vec<String> = Vec::new();
    let mut i: usize = 0;
    while i < list.len()
        invariant
            i <= list@.len(),
            no_repeats(out@),
            forall|t: Seq<char>| #[trigger] listed(out@, t) == listed(list@.take(i as int), t),
        decreases list@.len() - i,
    {
        let ghost seen = list@.take(i as int);
        let ghost next = list@.take(i + 1);
        let ghost before = out@;
        if !is_listed(&out, list[i].as_str()) {
            out.push(list[i].clone());
        }
        proof {
            assert forall|t: Seq<char>| #[trigger] listed(out@, t) == listed(next, t) by {
                assert(listed(before, t) == listed(seen, t));
                if listed(before, t) {
                    let k = choose|k: int| 0 <= k < before.len() && (#[trigger] before[k])@ == t;
                    assert(out@[k]@ == t);
                    let m = choose|m: int| 0 <= m < seen.len() && (#[trigger] seen[m])@ == t;
                    assert(next[m]@ == t);
                } else {
                    if listed(next, t) {
                        let m = choose|m: int| 0 <= m < next.len() && (#[trigger] next[m])@ == t;
                        if m < i {
                            assert(seen[m]@ == t);
                        } else {
                            assert(out@[before.len() as int]@ == t);
                        }
                    }
                    if listed(out@, t) {
                        let k = choose|k: int| 0 <= k < out@.len() && (#[trigger] out@[k])@ == t;
                        if k < before.len() {
                            assert(before[k]@ == t);
                        }
                        assert(next[i as int]@ == t);
                    }
                }
            }
        }
        i += 1;
    }
    assert(list@.take(i as int) =~= list@);
    out
}

/// A picked tab is the tab that shows: a zone put on a tab is of that kind, but
/// for a custom tab without any custom effect, which leaves it solid. A program
/// starts as a rainbow, a custom effect as the library's first.
pub proof fn picked_tabs_show(tab: SourceTab, first: Option<Seq<char>>, k: Kind)
    requires
        picked_kind(tab, first, k),
    ensures
        tab == SourceTab::Solid ==> k is Solid,
        tab == SourceTab::Program ==> k == Kind::Program(Effect::Rainbow),
        tab == SourceTab::Custom && first is None ==> k is Solid,
        tab == SourceTab::Custom ==> (first matches Some(n) ==> (k matches Kind::Custom(m) && m@
            == n)),
{
}

/// A device put on its hardware tab runs its own first mode, or static where it
/// has none, in cyan at middle speed and full brightness; put on its zone tab, it
/// is driven zone by zone.
pub proof fn picked_modes_show(tab: ModeTab, modes: Seq<String>, r: DeviceMode)
    requires
        picked_mode(tab, modes, r),
    ensures
        tab == ModeTab::PerZone <==> r is PerZone,
        r matches DeviceMode::Hardware(h) ==> {
            &&& modes.len() > 0 ==> h.mode@ == modes[0]@
            &&& modes.len() == 0 ==> h.mode@ == "STATIC"@
            &&& h.color@ == seq![0x00u8, 0xE5, 0xFF]
            &&& h.speed == 5
            &&& h.brightness == 100
        },
{
}

/// A text is listed exactly where it stands in the list, and a list without
/// repeats has it in one place.
pub proof fn lists_hold_what_stands_in_them(list: Seq<String>, i: int, j: int)
    requires
        0 <= i < list.len(),
        0 <= j < list.len(),
    ensures
        listed(list, list[i]@),
        no_repeats(list) && list[i]@ == list[j]@ ==> i == j,
        !listed(Seq::<String>::empty(), list[i]@),
{
    if no_repeats(list) {
        if i < j {
            assert(list[i]@ != list[j]@);
        }
        if j < i {
            assert(list[j]@ != list[i]@);
        }
    }
}

} // verus!
