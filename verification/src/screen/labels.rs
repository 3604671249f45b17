//! What the screen says.

use vstd::prelude::*;

use crate::effects::Group;
use crate::model::DeviceKind;
use crate::text::{
    after_prefix, contains_text, decimal, joined_texts_contain_their_parts, occurrences_spell,
    occurs_at, push_decimal, same, spells, strip_suffixes, trim, trimmed, without_suffix,
};

verus! {

// ------------------------------------------------------------------- names

/// The short name of a cleaned-up device name.
pub open spec fn friendly(base: Seq<char>) -> Seq<char> {
    if occurs_at(base, "AcerDTArea"@, 0) {
        "Area "@ + base.skip("AcerDTArea"@.len() as int)
    } else if base == "AcerDTGlobal"@ {
        "Global (all areas)"@
    } else if base == "AcerDTDIMM"@ {
        "DIMM / RAM"@
    } else {
        base
    }
}

/// The short name of a cleaned-up device name.
pub fn friendly_name(base: &str) -> (r: String)
    ensures
        r@ == friendly(base@),
{
    if let Some(n) = after_prefix(base, "AcerDTArea") {
        let mut out = String::new();
        out.append("Area ");
        out.append(n.as_str());
        assert(out@ =~= friendly(base@));
        return out;
    }
    if same(base, "AcerDTGlobal") {
        "Global (all areas)".to_string()
    } else if same(base, "AcerDTDIMM") {
        "DIMM / RAM".to_string()
    } else {
        base.to_string()
    }
}

/// A device's name for display: without the common suffix, and the parts of a
/// desktop tower by what they are.
pub fn short_name(name: &str) -> (r: String)
    ensures
        r@ == friendly(trimmed(without_suffix(name@, " Device"@))),
{
    let bare = strip_suffixes(name, " Device");
    let base = trim(bare.as_str());
    friendly_name(base.as_str())
}

/// The plural ending for a count.
pub open spec fn plural(n: nat) -> Seq<char> {
    if n == 1 {
        Seq::empty()
    } else {
        seq!['s']
    }
}

fn push_plural(out: &mut String, n: usize)
    ensures
        final(out)@ == old(out)@ + plural(n as nat),
{
    if n != 1 {
        out.push('s');
    }
    assert(out@ =~= old(out)@ + plural(n as nat));
}

/// A device's line in the list: its kind and how many zones it has.
pub open spec fn device_line(kind: DeviceKind, zones: nat) -> Seq<char> {
    kind.name() + " · "@ + decimal(zones) + " zone"@ + plural(zones)
}

/// A device's line in the list.
pub fn device_subtitle(kind: DeviceKind, zones: usize) -> (r: String)
    ensures
        r@ == device_line(kind, zones as nat),
{
    let mut out = String::new();
    out.append(kind.label());
    out.append(" · ");
    push_decimal(&mut out, zones as u128);
    out.append(" zone");
    push_plural(&mut out, zones);
    assert(out@ =~= device_line(kind, zones as nat));
    out
}

/// Where a device's lighting lives.
pub open spec fn home(hardware: bool, via_service: bool) -> Seq<char> {
    if hardware {
        "Runs on the device controller · zero host CPU · can be saved to firmware"@
    } else if via_service {
        "Composited by the service · kept after the window closes"@
    } else {
        "Composited by colormemuch · kept while the app runs (tray)"@
    }
}

/// The caption under a device's title: what it is, how many zones, where its
/// lighting lives.
pub fn device_caption(kind: DeviceKind, zones: usize, hardware: bool, via_service: bool) -> (r:
    String)
    ensures
        r@ == device_line(kind, zones as nat) + " · "@ + home(hardware, via_service),
{
    let mut out = device_subtitle(kind, zones);
    out.append(" · ");
    if hardware {
        out.append("Runs on the device controller · zero host CPU · can be saved to firmware");
    } else if via_service {
        out.append("Composited by the service · kept after the window closes");
    } else {
        out.append("Composited by colormemuch · kept while the app runs (tray)");
    }
    out
}

/// How many overrides a case has; nothing for none.
pub fn override_count(n: usize) -> (r: Option<String>)
    ensures
        match r {
            None => n == 0,
            Some(t) => n > 0 && t@ == decimal(n as nat) + " override"@ + plural(n as nat),
        },
{
    if n == 0 {
        return None;
    }
    let mut out = String::new();
    push_decimal(&mut out, n as u128);
    out.append(" override");
    push_plural(&mut out, n);
    assert(out@ =~= decimal(n as nat) + " override"@ + plural(n as nat));
    Some(out)
}

/// A zone's title: the LED's own name, or its number where it has none.
pub fn zone_title(index: usize, label: &str) -> (r: String)
    ensures
        r@ == (if label@.len() == 0 {
            "Zone "@ + decimal((index + 1) as nat)
        } else {
            label@
        }),
{
    if label.unicode_len() == 0 {
        let mut out = String::new();
        out.append("Zone ");
        push_decimal(&mut out, index as u128 + 1);
        assert(out@ =~= "Zone "@ + decimal((index + 1) as nat));
        out
    } else {
        label.to_string()
    }
}

/// The numbers of some zones, counted from one, with commas between them.
pub open spec fn zone_numbers(zones: Seq<usize>) -> Seq<char>
    decreases zones.len(),
{
    if zones.len() == 0 {
        Seq::empty()
    } else if zones.len() == 1 {
        decimal((zones[0] + 1) as nat)
    } else {
        zone_numbers(zones.drop_last()) + ", "@ + decimal((zones.last() + 1) as nat)
    }
}

/// The caption of a shared-clock group: the numbers of its zones.
pub fn group_caption(g: &Group) -> (r: String)
    ensures
        r@ == "Zones "@ + zone_numbers(g.zones@),
{
    let mut out = String::new();
    out.append("Zones ");
    let ghost head = "Zones "@;
    let mut i: usize = 0;
    assert(out@ =~= head + zone_numbers(g.zones@.take(0)));
    while i < g.zones.len()
        invariant
            i <= g.zones@.len(),
            out@ == head + zone_numbers(g.zones@.take(i as int)),
        decreases g.zones@.len() - i,
    {
        if i > 0 {
            out.append(", ");
        }
        push_decimal(&mut out, g.zones[i] as u128 + 1);
        proof {
            let next = g.zones@.take(i + 1);
            assert(next.drop_last() =~= g.zones@.take(i as int));
            assert(out@ =~= head + zone_numbers(next));
        }
        i += 1;
    }
    assert(g.zones@.take(i as int) =~= g.zones@);
    out
}

// ------------------------------------------------------------------ status

/// How the connection stands.
#[derive(Clone, Copy, Debug, PartialEq, Eq, Structural)]
pub enum Link {
    Connecting,
    Ready,
    Failed,
}

/// The tone of a status.
#[derive(Clone, Copy, Debug, PartialEq, Eq, Structural)]
pub enum Tone {
    Quiet,
    Good,
    Caution,
    Bad,
}

/// A status pill: its tone, its text and what it explains on hover.
pub struct Pill {
    pub tone: Tone,
    pub text: &'static str,
    pub tip: &'static str,
}

/// Who owns the lights, in a word.
pub open spec fn pill_text(link: Link, via_service: bool, hold: bool) -> Seq<char> {
    match link {
        Link::Connecting => "Connecting…"@,
        Link::Failed => "Offline"@,
        Link::Ready => if via_service && hold {
            "Held · Service"@
        } else if via_service {
            "Service"@
        } else if hold {
            "Holding"@
        } else {
            "Live"@
        },
    }
}

pub open spec fn pill_tone(link: Link, via_service: bool, hold: bool) -> Tone {
    match link {
        Link::Connecting => Tone::Quiet,
        Link::Failed => Tone::Bad,
        Link::Ready => if via_service || hold {
            Tone::Good
        } else {
            Tone::Caution
        },
    }
}

pub open spec fn pill_tip(link: Link, via_service: bool, hold: bool) -> Seq<char> {
    match link {
        Link::Connecting => "Looking for the lighting server."@,
        Link::Failed => "No OpenRGB server reachable. Open Settings › Try again, or start PredatorSense."@,
        Link::Ready => if via_service && hold {
            "Your lighting is re-asserted every few seconds and survives closing this window."@
        } else if via_service {
            "The background service owns the lights; they persist after you close this window."@
        } else if hold {
            "Re-asserting your lighting every few seconds while the app runs (also from the tray)."@
        } else {
            "Colors are pushed on change only. Turn on “Keep my lighting” so PredatorSense can't repaint over them."@
        },
    }
}

/// The status pill: who owns the lights, and for how long.
pub fn status_pill(link: Link, via_service: bool, hold: bool) -> (r: Pill)
    ensures
        r.tone == pill_tone(link, via_service, hold),
        r.text@ == pill_text(link, via_service, hold),
        r.tip@ == pill_tip(link, via_service, hold),
{
    match link {
        Link::Connecting => Pill {
            tone: Tone::Quiet,
            text: "Connecting…",
            tip: "Looking for the lighting server.",
        },
        Link::Failed => Pill {
            tone: Tone::Bad,
            text: "Offline",
            tip: "No OpenRGB server reachable. Open Settings › Try again, or start PredatorSense.",
        },
        Link::Ready => {
            if via_service && hold {
                Pill {
                    tone: Tone::Good,
                    text: "Held · Service",
                    tip: "Your lighting is re-asserted every few seconds and survives closing this window.",
                }
            } else if via_service {
                Pill {
                    tone: Tone::Good,
                    text: "Service",
                    tip: "The background service owns the lights; they persist after you close this window.",
                }
            } else if hold {
                Pill {
                    tone: Tone::Good,
                    text: "Holding",
                    tip: "Re-asserting your lighting every few seconds while the app runs (also from the tray).",
                }
            } else {
                Pill {
                    tone: Tone::Caution,
                    text: "Live",
                    tip: "Colors are pushed on change only. Turn on “Keep my lighting” so PredatorSense can't repaint over them.",
                }
            }
        },
    }
}

/// What closing the window means for the lights.
pub fn closing_hint(via_service: bool) -> (r: &'static str)
    ensures
        r@ == (if via_service {
            "Closing the window keeps your lighting — the service holds it."@
        } else {
            "Closing the window keeps the app in the tray so your lighting stays."@
        }),
{
    if via_service {
        "Closing the window keeps your lighting — the service holds it."
    } else {
        "Closing the window keeps the app in the tray so your lighting stays."
    }
}

/// The pill never claims more than holds: it reads as lasting only where the
/// service owns the lights, and as held only where hold is on.
pub proof fn pills_are_honest(link: Link, via_service: bool, hold: bool)
    ensures
        pill_tone(link, via_service, hold) == Tone::Good ==> link == Link::Ready && (via_service
            || hold),
        link == Link::Ready && !via_service && !hold ==> pill_tone(link, via_service, hold)
            == Tone::Caution,
{
}

/// The parts of a tower go by what they are: an area by its own number, the whole
/// by its name, the memory as memory. Any other name stays as it is.
pub proof fn towers_go_by_their_parts(n: Seq<char>, base: Seq<char>)
    ensures
        friendly("AcerDTArea"@ + n) == "Area "@ + n,
        friendly("AcerDTGlobal"@) == "Global (all areas)"@,
        friendly("AcerDTDIMM"@) == "DIMM / RAM"@,
        friendly(base) != base ==> spells(base, 0, "AcerDT"@),
{
    reveal_strlit("AcerDTArea");
    reveal_strlit("AcerDTGlobal");
    reveal_strlit("AcerDTDIMM");
    reveal_strlit("AcerDT");
    let area = "AcerDTArea"@;
    assert((area + n).subrange(0, area.len() as int) =~= area);
    assert((area + n).skip(area.len() as int) =~= n);
    let g = "AcerDTGlobal"@;
    let d = "AcerDTDIMM"@;
    if occurs_at(g, area, 0) {
        occurrences_spell(g, area, 0);
        assert(g[6] == area[6]);
    }
    if occurs_at(d, area, 0) {
        occurrences_spell(d, area, 0);
        assert(d[6] == area[6]);
    }
    assert(g != d) by {
        assert(g.len() != d.len());
    }
    if friendly(base) != base {
        if occurs_at(base, area, 0) {
            occurrences_spell(base, area, 0);
            assert forall|k: int| 0 <= k < 6 implies base[0 + k] == #[trigger] "AcerDT"@[k] by {
                assert(base[0 + k] == area[k]);
            }
        }
    }
}

/// A count of one has no plural ending, any other has; and a caption holds the
/// kind and the count.
pub proof fn captions_hold_kind_and_count(kind: DeviceKind, n: nat)
    ensures
        plural(n).len() == (if n == 1 {
            0int
        } else {
            1
        }),
        contains_text(device_line(kind, n), kind.name()),
        contains_text(device_line(kind, n), decimal(n)),
{
    let t = device_line(kind, n);
    let none = Seq::<char>::empty();
    let a = " · "@ + decimal(n) + " zone"@ + plural(n);
    assert(t =~= none + kind.name() + a);
    joined_texts_contain_their_parts(none, kind.name(), a);
    let b = " zone"@ + plural(n);
    assert(t =~= (kind.name() + " · "@) + decimal(n) + b);
    joined_texts_contain_their_parts(kind.name() + " · "@, decimal(n), b);
}

/// A group's caption numbers each of its zones from one on.
pub proof fn captions_number_every_zone(zones: Seq<usize>, i: int)
    requires
        0 <= i < zones.len(),
    ensures
        contains_text(zone_numbers(zones), decimal((zones[i] + 1) as nat)),
    decreases zones.len(),
{
    let t = zone_numbers(zones);
    let none = Seq::<char>::empty();
    let d = decimal((zones[i] + 1) as nat);
    if zones.len() == 1 {
        assert(t =~= none + d + none);
        joined_texts_contain_their_parts(none, d, none);
    } else {
        let init = zones.drop_last();
        let head = zone_numbers(init);
        let end = ", "@ + decimal((zones.last() + 1) as nat);
        if i == zones.len() - 1 {
            assert(t =~= (head + ", "@) + d + none);
            joined_texts_contain_their_parts(head + ", "@, d, none);
        } else {
            captions_number_every_zone(init, i);
            let k = choose|k: int| occurs_at(head, d, k);
            assert(t =~= head + end);
            assert(t.subrange(k, (k + d.len()) as int) =~= head.subrange(k, (k + d.len()) as int));
            assert(occurs_at(t, d, k));
        }
    }
}

/// A pill's text tells every state of a connection apart: connecting, offline, and
/// for a standing connection whether the service owns the lights and whether they
/// are held.
pub proof fn pills_tell_states_apart(a: bool, b: bool, c: bool, d: bool)
    ensures
        pill_text(Link::Ready, a, b) == pill_text(Link::Ready, c, d) <==> a == c && b == d,
        pill_text(Link::Connecting, a, b) == "Connecting…"@,
        pill_text(Link::Failed, a, b) == "Offline"@,
        pill_text(Link::Ready, true, b) == (if b {
            "Held · Service"@
        } else {
            "Service"@
        }),
        pill_text(Link::Ready, false, b) == (if b {
            "Holding"@
        } else {
            "Live"@
        }),
        pill_tone(Link::Failed, a, b) == Tone::Bad,
        pill_tone(Link::Connecting, a, b) == Tone::Quiet,
        a || b ==> pill_tone(Link::Ready, a, b) == Tone::Good,
{
    reveal_strlit("Held · Service");
    reveal_strlit("Service");
    reveal_strlit("Holding");
    reveal_strlit("Live");
    if pill_text(Link::Ready, a, b) == pill_text(Link::Ready, c, d) {
        let x = pill_text(Link::Ready, a, b);
        let y = pill_text(Link::Ready, c, d);
        assert(x.len() == y.len());
        assert(x[0] == y[0]);
    }
}

/// Where a device's lighting lives is told apart: on the device, in the service,
/// or in the window.
pub proof fn homes_are_told_apart(a: bool, b: bool)
    ensures
        home(true, a) == home(true, b),
        home(true, a) != home(false, b),
        home(false, true) != home(false, false),
{
    reveal_strlit("Runs on the device controller · zero host CPU · can be saved to firmware");
    reveal_strlit("Composited by the service · kept after the window closes");
    reveal_strlit("Composited by colormemuch · kept while the app runs (tray)");
    assert(home(true, a)[0] != home(false, b)[0]);
    assert(home(false, true)[14] != home(false, false)[14]);
}

/// A zone goes by its LED's own name, and by its number, counted from one, where
/// that has none.
pub proof fn zones_go_by_their_names(index: usize, label: &str, r: String)
    requires
        call_ensures(zone_title, (index, label), r),
    ensures
        label@.len() > 0 ==> r@ == label@,
        label@.len() == 0 ==> contains_text(r@, decimal((index + 1) as nat)),
{
    let none = Seq::<char>::empty();
    let n = decimal((index + 1) as nat);
    joined_texts_contain_their_parts("Zone "@, n, none);
    assert("Zone "@ + n + none =~= "Zone "@ + n);
}

/// Overrides are counted, and none are not mentioned.
pub proof fn overrides_are_counted(n: usize, r: Option<String>)
    requires
        call_ensures(override_count, (n,), r),
    ensures
        r is None <==> n == 0,
        r matches Some(t) ==> contains_text(t@, decimal(n as nat)) && (t@.last() == 's' <==> n > 1),
{
    if let Some(t) = r {
        let none = Seq::<char>::empty();
        let end = " override"@ + plural(n as nat);
        reveal_strlit(" override");
        joined_texts_contain_their_parts(none, decimal(n as nat), end);
        assert(none + decimal(n as nat) + end =~= t@);
    }
}

} // verus!
