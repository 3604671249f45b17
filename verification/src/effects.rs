//! Per-zone animation: what drives each zone, which zones share a clock, and
//! which sample of which source every zone shows.
//!
//! All zones read one clock. Zones that run the same effect form a group; a
//! linked group shows one color everywhere, a spread group is one strip that
//! the effect travels along.

use vstd::prelude::*;

use crate::library::CustomEffect;
use crate::number::{Single, ONE};
use crate::rgb::Rgb;
use crate::text::same;

verus! {

/// The catalogue of built-in effects.
#[derive(Debug, Clone, Copy, PartialEq, Eq, Hash, Structural)]
pub enum Effect {
    /// A hue that rotates over time, spread across the strip.
    Rainbow,
    /// A bright head that sweeps back and forth with a fading tail.
    Comet,
    /// The whole strip breathes one color.
    Breathe,
    /// Per-zone flicker in warm tones.
    Fire,
    /// A moving gradient between two colors.
    Gradient,
    /// Alternating red and blue flash.
    Police,
    /// A soft wave of brightness travelling along the strip.
    Wave,
}

impl Effect {
    pub const ALL: [Effect; 7] = [
        Effect::Rainbow,
        Effect::Comet,
        Effect::Breathe,
        Effect::Fire,
        Effect::Gradient,
        Effect::Police,
        Effect::Wave,
    ];

    pub open spec fn name(self) -> Seq<char> {
        match self {
            Effect::Rainbow => "Rainbow"@,
            Effect::Comet => "Comet"@,
            Effect::Breathe => "Breathe"@,
            Effect::Fire => "Fire"@,
            Effect::Gradient => "Gradient"@,
            Effect::Police => "Police"@,
            Effect::Wave => "Wave"@,
        }
    }

    pub fn label(self) -> (r: &'static str)
        ensures
            r@ == self.name(),
    {
        match self {
            Effect::Rainbow => "Rainbow",
            Effect::Comet => "Comet",
            Effect::Breathe => "Breathe",
            Effect::Fire => "Fire",
            Effect::Gradient => "Gradient",
            Effect::Police => "Police",
            Effect::Wave => "Wave",
        }
    }

    pub open spec fn badge(self) -> Rgb {
        match self {
            Effect::Comet => Rgb(0x1f, 0xb7, 0xa6),
            Effect::Fire => Rgb(0xff, 0x95, 0x00),
            Effect::Rainbow => Rgb(0xd8, 0x4b, 0xff),
            Effect::Breathe => Rgb(0x5e, 0x5c, 0xe6),
            Effect::Wave => Rgb(0x34, 0xc0, 0xff),
            Effect::Police => Rgb(0xff, 0x3b, 0x4e),
            Effect::Gradient => Rgb(0x4b, 0xbf, 0x73),
        }
    }
}

/// A built-in effect's hue for badges.
pub fn program_hue(e: Effect) -> (r: Rgb)
    ensures
        r == e.badge(),
{
    match e {
        Effect::Comet => Rgb(0x1f, 0xb7, 0xa6),
        Effect::Fire => Rgb(0xff, 0x95, 0x00),
        Effect::Rainbow => Rgb(0xd8, 0x4b, 0xff),
        Effect::Breathe => Rgb(0x5e, 0x5c, 0xe6),
        Effect::Wave => Rgb(0x34, 0xc0, 0xff),
        Effect::Police => Rgb(0xff, 0x3b, 0x4e),
        Effect::Gradient => Rgb(0x4b, 0xbf, 0x73),
    }
}

/// Parameters shared by the effects.
#[derive(Debug, Clone, Copy, PartialEq, Eq, Structural)]
pub struct Params {
    pub color: Rgb,
    pub color_b: Rgb,
    /// Scales time; one is nominal.
    pub speed: Single,
    /// Zero to one.
    pub brightness: Single,
}

impl Default for Params {
    fn default() -> (r: Self)
        ensures
            r.color == Rgb(0x00, 0xE5, 0xFF),
            r.color_b == Rgb(0xFF, 0x00, 0x88),
            r.speed == Single(ONE),
            r.brightness == Single(ONE),
    {
        Params {
            color: Rgb(0x00, 0xE5, 0xFF),
            color_b: Rgb(0xFF, 0x00, 0x88),
            speed: Single(ONE),
            brightness: Single(ONE),
        }
    }
}

/// An animated source: a built-in effect or a custom one.
#[derive(Debug)]
pub enum Fx {
    Program(Effect),
    Custom(CustomEffect),
}

impl Fx {
    /// The same source.
    pub open spec fn same_as(self, other: Fx) -> bool {
        match (self, other) {
            (Fx::Program(a), Fx::Program(b)) => a == b,
            (Fx::Custom(a), Fx::Custom(b)) => a.same_as(b),
            _ => false,
        }
    }

    pub open spec fn identity(self) -> Seq<char> {
        match self {
            Fx::Program(e) => "p:"@ + e.name(),
            Fx::Custom(c) => "c:"@ + c.name@,
        }
    }

    pub open spec fn name(self) -> Seq<char> {
        match self {
            Fx::Program(e) => e.name(),
            Fx::Custom(c) => c.name@,
        }
    }

    pub open spec fn badge(self) -> Rgb {
        match self {
            Fx::Program(e) => e.badge(),
            Fx::Custom(c) => c.badge(),
        }
    }

    /// Identity for shared-clock grouping: the same key, the same group.
    pub fn key(&self) -> (r: String)
        ensures
            r@ == self.identity(),
    {
        let mut out = String::new();
        match self {
            Fx::Program(e) => {
                out.append("p:");
                out.append(e.label());
            },
            Fx::Custom(c) => {
                out.append("c:");
                out.append(c.name.as_str());
            },
        }
        assert(out@ =~= self.identity());
        out
    }

    pub fn label(&self) -> (r: String)
        ensures
            r@ == self.name(),
    {
        match self {
            Fx::Program(e) => e.label().to_string(),
            Fx::Custom(c) => c.name.clone(),
        }
    }

    pub fn hue(&self) -> (r: Rgb)
        ensures
            r == self.badge(),
    {
        match self {
            Fx::Program(e) => program_hue(*e),
            Fx::Custom(c) => c.dominant(),
        }
    }
}

impl Clone for Fx {
    fn clone(&self) -> (r: Self)
        ensures
            r.same_as(*self),
    {
        match self {
            Fx::Program(e) => Fx::Program(*e),
            Fx::Custom(c) => Fx::Custom(c.clone()),
        }
    }
}

/// A built-in effect and a custom one never share a key, not even under one
/// name.
pub proof fn keys_tell_tiers_apart(e: Effect, c: CustomEffect)
    ensures
        Fx::Program(e).identity() != Fx::Custom(c).identity(),
{
    reveal_strlit("p:");
    reveal_strlit("c:");
    assert(Fx::Program(e).identity()[0] == 'p');
    assert(Fx::Custom(c).identity()[0] == 'c');
}

/// What drives a single zone: a fixed color, or an animated source.
#[derive(Debug)]
pub enum ZoneSource {
    Solid(Rgb),
    Function(Fx, Params),
}

impl ZoneSource {
    /// The same source.
    pub open spec fn same_as(self, other: ZoneSource) -> bool {
        match (self, other) {
            (ZoneSource::Solid(a), ZoneSource::Solid(b)) => a == b,
            (ZoneSource::Function(f, p), ZoneSource::Function(g, q)) => f.same_as(g) && p == q,
            _ => false,
        }
    }

    /// The animated source of the zone.
    pub fn fx(&self) -> (r: Option<&Fx>)
        ensures
            match *self {
                ZoneSource::Solid(_) => r is None,
                ZoneSource::Function(f, _) => r == Some(&f),
            },
    {
        match self {
            ZoneSource::Solid(_) => None,
            ZoneSource::Function(f, _) => Some(f),
        }
    }

    /// The parameters of the zone's animated source.
    pub fn params(&self) -> (r: Option<Params>)
        ensures
            match *self {
                ZoneSource::Solid(_) => r is None,
                ZoneSource::Function(_, p) => r == Some(p),
            },
    {
        match self {
            ZoneSource::Solid(_) => None,
            ZoneSource::Function(_, p) => Some(*p),
        }
    }
}

impl Clone for ZoneSource {
    fn clone(&self) -> (r: Self)
        ensures
            r.same_as(*self),
    {
        match self {
            ZoneSource::Solid(c) => ZoneSource::Solid(*c),
            ZoneSource::Function(f, p) => ZoneSource::Function(f.clone(), *p),
        }
    }
}

/// How a shared-clock group of zones reads its one clock.
#[derive(Debug, Clone, Copy, PartialEq, Eq, Structural)]
pub enum ClockMode {
    /// Every zone of the group shows the same color.
    Link,
    /// The effect travels across the zones, each one cell of a strip.
    Spread,
}

/// A shared-clock group: at least two zones that run the same effect.
#[derive(Debug)]
pub struct Group {
    /// The effect's key, also its name in the spread set.
    pub key: String,
    pub label: String,
    pub hue: Rgb,
    pub zones: Vec<usize>,
}

// --------------------------------------------------------------- grouping

/// Whether zone `i` runs the effect with that key.
pub open spec fn runs(zones: Seq<ZoneSource>, i: int, key: Seq<char>) -> bool {
    zones[i] matches ZoneSource::Function(f, _) && f.identity() == key
}

/// The zones among the first `n` that run the effect with that key, ascending.
pub open spec fn members(zones: Seq<ZoneSource>, key: Seq<char>, n: nat) -> Seq<usize>
    decreases n,
{
    if n == 0 {
        Seq::empty()
    } else if runs(zones, n - 1, key) {
        members(zones, key, (n - 1) as nat).push((n - 1) as usize)
    } else {
        members(zones, key, (n - 1) as nat)
    }
}

/// All zones that run the effect with that key, ascending.
pub open spec fn gang(zones: Seq<ZoneSource>, key: Seq<char>) -> Seq<usize> {
    members(zones, key, zones.len())
}

/// Membership: the zones of a gang are those that run the effect, in ascending
/// order.
proof fn members_are_exactly(zones: Seq<ZoneSource>, key: Seq<char>, n: nat)
    requires
        n <= zones.len(),
        zones.len() <= usize::MAX,
    ensures
        forall|k: int|
            0 <= k < members(zones, key, n).len() ==> (#[trigger] members(zones, key, n)[k]) < n
                && runs(zones, members(zones, key, n)[k] as int, key),
        forall|i: int|
            0 <= i < n && runs(zones, i, key) ==> members(zones, key, n).contains(i as usize),
        forall|k: int, l: int|
            0 <= k < l < members(zones, key, n).len() ==> members(zones, key, n)[k] < members(
                zones,
                key,
                n,
            )[l],
        members(zones, key, n).len() <= n,
    decreases n,
{
    if n > 0 {
        let before = members(zones, key, (n - 1) as nat);
        let now = members(zones, key, n);
        members_are_exactly(zones, key, (n - 1) as nat);
        assert forall|i: int| 0 <= i < n && runs(zones, i, key) implies now.contains(
            i as usize,
        ) by {
            if i == n - 1 {
                assert(now.last() == i as usize);
            } else {
                assert(before.contains(i as usize));
                let k = choose|k: int| 0 <= k < before.len() && before[k] == i as usize;
                assert(now[k] == i as usize);
            }
        }
    }
}

fn collect_gang(zones: &[ZoneSource], key: &str) -> (r: Vec<usize>)
    ensures
        r@ == gang(zones@, key@),
{
    let mut out: Vec<usize> = Vec::new();
    let mut i: usize = 0;
    while i < zones.len()
        invariant
            i <= zones@.len(),
            out@ == members(zones@, key@, i as nat),
        decreases zones@.len() - i,
    {
        if let Some(f) = zones[i].fx() {
            if same(f.key().as_str(), key) {
                out.push(i);
            }
        }
        i += 1;
    }
    out
}

/// A group as it stands for the gang of an effect.
pub open spec fn group_of(zones: Seq<ZoneSource>, g: Group) -> bool {
    &&& g.zones@ == gang(zones, g.key@)
    &&& g.zones@.len() >= 2
    &&& zones[g.zones@[0] as int] matches ZoneSource::Function(f, _) && g.label@ == f.name()
        && g.hue == f.badge()
}

/// The shared-clock groups of some zones: one for every effect that at least
/// two zones run, ordered by their first zones.
pub open spec fn grouping(zones: Seq<ZoneSource>, groups: Seq<Group>) -> bool {
    &&& forall|g: int| 0 <= g < groups.len() ==> group_of(zones, #[trigger] groups[g])
    &&& forall|g: int, h: int|
        0 <= g < h < groups.len() ==> (#[trigger] groups[g]).zones@[0] < (
        #[trigger] groups[h]).zones@[0]
    &&& forall|i: int|
        0 <= i < zones.len() && gang_of(zones, i).len() >= 2 ==> has_group(
            groups,
            #[trigger] gang_of(zones, i),
        )
}

/// The gang that zone `i` belongs to; empty for a solid zone.
pub open spec fn gang_of(zones: Seq<ZoneSource>, i: int) -> Seq<usize> {
    match zones[i] {
        ZoneSource::Solid(_) => Seq::empty(),
        ZoneSource::Function(f, _) => gang(zones, f.identity()),
    }
}

/// Whether some group has exactly those zones.
pub open spec fn has_group(groups: Seq<Group>, zones: Seq<usize>) -> bool {
    exists|g: int| 0 <= g < groups.len() && (#[trigger] groups[g]).zones@ == zones
}

/// The zones that share a clock, group by group.
pub fn shared_clock_groups(zones: &[ZoneSource]) -> (r: Vec<Group>)
    ensures
        grouping(zones@, r@),
{
    let mut out: Vec<Group> = Vec::new();
    let mut i: usize = 0;
    let n: usize = zones.len();
    while i < n
        invariant
            n == zones@.len(),
            i <= n,
            forall|g: int| 0 <= g < out@.len() ==> group_of(zones@, #[trigger] out@[g]),
            forall|g: int| 0 <= g < out@.len() ==> (#[trigger] out@[g]).zones@[0] < i,
            forall|g: int, h: int|
                0 <= g < h < out@.len() ==> (#[trigger] out@[g]).zones@[0] < (
                #[trigger] out@[h]).zones@[0],
            forall|k: int|
                0 <= k < i && gang_of(zones@, k).len() >= 2 ==> has_group(
                    out@,
                    #[trigger] gang_of(zones@, k),
                ),
        decreases n - i,
    {
        let ghost before = out@;
        if let Some(f) = zones[i].fx() {
            let key = f.key();
            let ghost k = key@;
            let gang = collect_gang(zones, key.as_str());
            proof {
                members_are_exactly(zones@, k, n as nat);
                assert(runs(zones@, i as int, k));
                assert(gang@.contains(i));
            }
            if gang.len() >= 2 && gang[0] == i {
                out.push(Group { key, label: f.label(), hue: f.hue(), zones: gang });
                proof {
                    assert(out@[before.len() as int].zones@ == gang_of(zones@, i as int));
                    assert forall|j: int|
                        0 <= j < i + 1 && gang_of(zones@, j).len() >= 2 implies has_group(
                        out@,
                        #[trigger] gang_of(zones@, j),
                    ) by {
                        if j < i {
                            assert(has_group(before, gang_of(zones@, j)));
                            let g = choose|g: int|
                                0 <= g < before.len() && (#[trigger] before[g]).zones@ == gang_of(
                                    zones@,
                                    j,
                                );
                            assert(out@[g].zones@ == gang_of(zones@, j));
                        }
                    }
                }
            } else {
                proof {
                    if gang@.len() >= 2 {
                        // An earlier zone leads the gang, and its group stands.
                        let first = gang@[0] as int;
                        let at = choose|at: int| 0 <= at < gang@.len() && gang@[at] == i;
                        assert(first < i);
                        assert(runs(zones@, first, k));
                        assert(gang_of(zones@, first) == gang_of(zones@, i as int));
                        assert(has_group(out@, gang_of(zones@, first)));
                    }
                }
            }
        }
        i += 1;
    }
    out
}

/// Groups do not overlap: no zone is in two groups.
pub proof fn groups_are_disjoint(zones: Seq<ZoneSource>, groups: Seq<Group>, g: int, h: int, z: usize)
    requires
        zones.len() <= usize::MAX,
        grouping(zones, groups),
        0 <= g < groups.len(),
        0 <= h < groups.len(),
        groups[g].zones@.contains(z),
        groups[h].zones@.contains(z),
    ensures
        g == h,
{
    members_are_exactly(zones, groups[g].key@, zones.len());
    members_are_exactly(zones, groups[h].key@, zones.len());
    let a = choose|a: int| 0 <= a < groups[g].zones@.len() && groups[g].zones@[a] == z;
    let b = choose|b: int| 0 <= b < groups[h].zones@.len() && groups[h].zones@[b] == z;
    assert(runs(zones, z as int, groups[g].key@));
    assert(runs(zones, z as int, groups[h].key@));
    assert(groups[g].zones@ == groups[h].zones@);
    if g < h {
        assert(groups[g].zones@[0] < groups[h].zones@[0]);
    }
    if h < g {
        assert(groups[h].zones@[0] < groups[g].zones@[0]);
    }
}

// ---------------------------------------------------------------- the plan

/// What one zone shows at any instant: a fixed color, or cell `pos` of the strip
/// of `len` cells that the source of zone `zone` renders.
#[derive(Debug, Clone, Copy, PartialEq, Eq, Structural)]
pub enum Cell {
    Solid(Rgb),
    Sample { zone: usize, len: usize, pos: usize },
}

/// A zone on its own.
pub open spec fn lone_cell(zones: Seq<ZoneSource>, i: int) -> Cell {
    match zones[i] {
        ZoneSource::Solid(c) => Cell::Solid(c),
        ZoneSource::Function(_, _) => Cell::Sample { zone: i as usize, len: 1, pos: 0 },
    }
}

/// Whether a list of texts holds a text.
pub open spec fn listed(list: Seq<String>, text: Seq<char>) -> bool {
    exists|i: int| 0 <= i < list.len() && (#[trigger] list[i])@ == text
}

/// Where a zone stands in its gang.
pub open spec fn place_in(gang: Seq<usize>, i: int) -> int {
    choose|p: int| 0 <= p < gang.len() && gang[p] == i
}

/// What a zone shows under a spread set: a zone of a gang follows the gang's
/// first zone, as a strip where the effect is spread and as one color where it
/// is linked; any other zone is on its own.
pub open spec fn planned_cell(zones: Seq<ZoneSource>, spread: Seq<String>, i: int) -> Cell {
    let g = gang_of(zones, i);
    if g.len() < 2 {
        lone_cell(zones, i)
    } else if zones[i] matches ZoneSource::Function(f, _) && listed(spread, f.identity()) {
        Cell::Sample { zone: g[0], len: g.len() as usize, pos: place_in(g, i) as usize }
    } else {
        Cell::Sample { zone: g[0], len: 1, pos: 0 }
    }
}

/// Whether a list of texts holds a text.
pub fn is_listed(list: &Vec<String>, text: &str) -> (r: bool)
    ensures
        r == listed(list@, text@),
{
    let mut i: usize = 0;
    while i < list.len()
        invariant
            i <= list@.len(),
            forall|j: int| 0 <= j < i ==> (#[trigger] list@[j])@ != text@,
        decreases list@.len() - i,
    {
        if same(list[i].as_str(), text) {
            return true;
        }
        i += 1;
    }
    false
}

/// What every zone shows on its own, ganged or not.
pub fn zone_cells(zones: &[ZoneSource]) -> (r: Vec<Cell>)
    ensures
        r@.len() == zones@.len(),
        forall|i: int| 0 <= i < r@.len() ==> #[trigger] r@[i] == lone_cell(zones@, i),
{
    let mut out: Vec<Cell> = Vec::new();
    let mut i: usize = 0;
    while i < zones.len()
        invariant
            i <= zones@.len(),
            out@.len() == i,
            forall|j: int| 0 <= j < i ==> #[trigger] out@[j] == lone_cell(zones@, j),
        decreases zones@.len() - i,
    {
        out.push(
            match &zones[i] {
                ZoneSource::Solid(c) => Cell::Solid(*c),
                ZoneSource::Function(_, _) => Cell::Sample { zone: i, len: 1, pos: 0 },
            },
        );
        i += 1;
    }
    out
}

fn place(gang: &Vec<usize>, i: usize) -> (r: usize)
    requires
        gang@.contains(i),
        forall|k: int, l: int| 0 <= k < l < gang@.len() ==> gang@[k] < gang@[l],
    ensures
        r == place_in(gang@, i as int),
        r < gang@.len(),
        gang@[r as int] == i,
{
    let mut p: usize = 0;
    let ghost at = place_in(gang@, i as int);
    while p < gang.len()
        invariant
            p <= gang@.len(),
            0 <= at < gang@.len(),
            gang@[at] == i,
            at == place_in(gang@, i as int),
            p <= at,
            forall|k: int, l: int| 0 <= k < l < gang@.len() ==> gang@[k] < gang@[l],
        decreases gang@.len() - p,
    {
        if gang[p] == i {
            return p;
        }
        p += 1;
    }
    0
}

/// What every zone shows under a spread set.
pub fn plan_cells(zones: &[ZoneSource], spread: &Vec<String>) -> (r: Vec<Cell>)
    ensures
        r@.len() == zones@.len(),
        forall|i: int| 0 <= i < r@.len() ==> #[trigger] r@[i] == planned_cell(zones@, spread@, i),
{
    let mut out: Vec<Cell> = Vec::new();
    let n: usize = zones.len();
    let mut i: usize = 0;
    while i < n
        invariant
            n == zones@.len(),
            i <= n,
            out@.len() == i,
            forall|j: int| 0 <= j < i ==> #[trigger] out@[j] == planned_cell(zones@, spread@, j),
        decreases n - i,
    {
        let cell = match &zones[i] {
            ZoneSource::Solid(c) => Cell::Solid(*c),
            ZoneSource::Function(f, _) => {
                let key = f.key();
                let gang = collect_gang(zones, key.as_str());
                proof {
                    members_are_exactly(zones@, key@, n as nat);
                    assert(runs(zones@, i as int, key@));
                }
                if gang.len() < 2 {
                    Cell::Sample { zone: i, len: 1, pos: 0 }
                } else if is_listed(spread, key.as_str()) {
                    Cell::Sample { zone: gang[0], len: gang.len(), pos: place(&gang, i) }
                } else {
                    Cell::Sample { zone: gang[0], len: 1, pos: 0 }
                }
            },
        };
        out.push(cell);
        i += 1;
    }
    out
}

/// Link is uniform: ganged zones whose effect is not spread show the same cell
/// of the same source, whatever their own parameters.
pub proof fn linked_zones_move_as_one(
    zones: Seq<ZoneSource>,
    spread: Seq<String>,
    key: Seq<char>,
    i: int,
    j: int,
)
    requires
        zones.len() <= usize::MAX,
        0 <= i < zones.len(),
        0 <= j < zones.len(),
        i != j,
        runs(zones, i, key),
        runs(zones, j, key),
        !listed(spread, key),
    ensures
        planned_cell(zones, spread, i) == planned_cell(zones, spread, j),
        planned_cell(zones, spread, i) is Sample,
{
    members_are_exactly(zones, key, zones.len());
    let g = gang(zones, key);
    let a = choose|a: int| 0 <= a < g.len() && g[a] == i as usize;
    let b = choose|b: int| 0 <= b < g.len() && g[b] == j as usize;
    assert(a != b);
}

/// Spread travels: the zones of a spread gang are the successive cells of one
/// strip as long as the gang.
pub proof fn spread_zones_form_one_strip(
    zones: Seq<ZoneSource>,
    spread: Seq<String>,
    key: Seq<char>,
    p: int,
)
    requires
        zones.len() <= usize::MAX,
        gang(zones, key).len() >= 2,
        0 <= p < gang(zones, key).len(),
        listed(spread, key),
    ensures
        planned_cell(zones, spread, gang(zones, key)[p] as int) == (Cell::Sample {
            zone: gang(zones, key)[0],
            len: gang(zones, key).len() as usize,
            pos: p as usize,
        }),
{
    let g = gang(zones, key);
    members_are_exactly(zones, key, zones.len());
    assert(runs(zones, g[p] as int, key));
    let q = place_in(g, g[p] as int);
    assert(0 <= q < g.len() && g[q] == g[p]);
    if q < p {
        assert(g[q] < g[p]);
    }
    if p < q {
        assert(g[p] < g[q]);
    }
}

/// Naming an effect that no two zones run in the spread set changes nothing.
pub proof fn spreading_a_lone_effect_is_harmless(
    zones: Seq<ZoneSource>,
    spread: Seq<String>,
    extra: String,
    i: int,
)
    requires
        0 <= i < zones.len(),
        gang(zones, extra@).len() < 2,
    ensures
        planned_cell(zones, spread.push(extra), i) == planned_cell(zones, spread, i),
{
    if let ZoneSource::Function(f, _) = zones[i] {
        let key = f.identity();
        if key != extra@ {
            let more = spread.push(extra);
            assert(listed(more, key) == listed(spread, key)) by {
                if listed(spread, key) {
                    let k = choose|k: int| 0 <= k < spread.len() && (#[trigger] spread[k])@ == key;
                    assert(more[k]@ == key);
                }
                if listed(more, key) {
                    let k = choose|k: int| 0 <= k < more.len() && (#[trigger] more[k])@ == key;
                    assert(k < spread.len());
                    assert(spread[k]@ == key);
                }
            }
        }
    }
}

/// A plan only ever samples zones that exist and animate, inside the strip that
/// it asks for.
pub proof fn plans_sample_real_zones(zones: Seq<ZoneSource>, spread: Seq<String>, i: int)
    requires
        zones.len() <= usize::MAX,
        0 <= i < zones.len(),
    ensures
        planned_cell(zones, spread, i) matches Cell::Sample { zone, len, pos } ==> {
            &&& zone < zones.len()
            &&& zones[zone as int] is Function
            &&& pos < len
        },
{
    if let ZoneSource::Function(f, _) = zones[i] {
        let key = f.identity();
        let g = gang(zones, key);
        members_are_exactly(zones, key, zones.len());
        assert(runs(zones, i, key));
        assert(g.contains(i as usize));
        let a = choose|a: int| 0 <= a < g.len() && g[a] == i as usize;
        assert(g[a] == i);
        assert(runs(zones, g[0] as int, key));
        let q = place_in(g, i);
        assert(0 <= q < g.len() && g[q] == i);
    }
}

/// A solid zone shows its own color and an effect is sampled, in a plan as alone;
/// and a zone that no other zone shares its effect with samples its own source,
/// whole.
pub proof fn lone_zones_show_themselves(zones: Seq<ZoneSource>, spread: Seq<String>, i: int)
    requires
        zones.len() <= usize::MAX,
        0 <= i < zones.len(),
    ensures
        zones[i] matches ZoneSource::Solid(c) ==> planned_cell(zones, spread, i) == Cell::Solid(c)
            && lone_cell(zones, i) == Cell::Solid(c),
        zones[i] is Function ==> lone_cell(zones, i) == (Cell::Sample {
            zone: i as usize,
            len: 1,
            pos: 0,
        }),
        zones[i] is Function && (forall|j: int|
            0 <= j < zones.len() && j != i ==> !same_effect(zones, i, j)) ==> planned_cell(
            zones,
            spread,
            i,
        ) == (Cell::Sample { zone: i as usize, len: 1, pos: 0 }),
{
    if let ZoneSource::Function(f, _) = zones[i] {
        let key = f.identity();
        let g = gang(zones, key);
        members_are_exactly(zones, key, zones.len());
        if g.len() >= 2 && (forall|j: int|
            0 <= j < zones.len() && j != i ==> !same_effect(zones, i, j)) {
            assert(runs(zones, g[0] as int, key) && runs(zones, g[1] as int, key));
            assert(g[0] < g[1]);
            if g[0] != i {
                assert(same_effect(zones, i, g[0] as int));
            } else {
                assert(same_effect(zones, i, g[1] as int));
            }
        }
    }
}

/// Whether two zones run the same effect: the same program, or custom effects of
/// one name.
pub open spec fn same_effect(zones: Seq<ZoneSource>, i: int, j: int) -> bool {
    match (zones[i], zones[j]) {
        (ZoneSource::Function(f, _), ZoneSource::Function(g, _)) => f.identity() == g.identity(),
        _ => false,
    }
}

/// A zone never shows another effect than its own: the source that it samples
/// runs the zone's effect, and is that of the first zone that does. Linked zones
/// sample one cell alone; a spread effect has one cell a zone that runs it, and
/// a zone's place in the strip counts the zones before it that do.
pub proof fn zones_sample_their_own_effect(zones: Seq<ZoneSource>, spread: Seq<String>, i: int, j: int)
    requires
        zones.len() <= usize::MAX,
        0 <= i < zones.len(),
        0 <= j < zones.len(),
        i != j,
        same_effect(zones, i, j),
    ensures
        planned_cell(zones, spread, i) matches Cell::Sample { zone, len, pos } && {
            &&& zone < zones.len()
            &&& same_effect(zones, i, zone as int)
            &&& zone <= i && zone <= j
            &&& !spreads(zones, spread, i) ==> len == 1 && pos == 0
            &&& spreads(zones, spread, i) ==> len >= 2 && pos < len
        },
        spreads(zones, spread, i) && i < j ==> (planned_cell(zones, spread, i) matches Cell::Sample {
            pos: a,
            ..
        } && (planned_cell(zones, spread, j) matches Cell::Sample { pos: b, .. } && a < b)),
{
    if let (ZoneSource::Function(f, _), ZoneSource::Function(h, _)) = (zones[i], zones[j]) {
        let key = f.identity();
        let g = gang(zones, key);
        members_are_exactly(zones, key, zones.len());
        assert(runs(zones, i, key) && runs(zones, j, key));
        assert(g.contains(i as usize) && g.contains(j as usize));
        let a = choose|a: int| 0 <= a < g.len() && g[a] == i as usize;
        let b = choose|b: int| 0 <= b < g.len() && g[b] == j as usize;
        assert(a != b);
        assert(g.len() >= 2);
        assert(runs(zones, g[0] as int, key));
        assert(g[0] <= g[a] && g[0] <= g[b]) by {
            if 0 < a {
                assert(g[0] < g[a]);
            }
            if 0 < b {
                assert(g[0] < g[b]);
            }
        }
        let p = place_in(g, i);
        let q = place_in(g, j);
        assert(g[a] == i && g[b] == j);
        assert(0 <= p < g.len() && g[p] == i);
        assert(0 <= q < g.len() && g[q] == j);
        if i < j && q <= p {
            if q < p {
                assert(g[q] < g[p]);
            }
        }
    }
}

/// Whether a zone's effect is listed as spread.
pub open spec fn spreads(zones: Seq<ZoneSource>, spread: Seq<String>, i: int) -> bool {
    zones[i] matches ZoneSource::Function(f, _) && exists|k: int|
        0 <= k < spread.len() && (#[trigger] spread[k])@ == f.identity()
}

/// Zones that run the same effect share a group: it holds both, goes by the
/// effect's key, name and hue, and holds no zone that runs anything else.
pub proof fn shared_effects_form_a_group(
    zones: Seq<ZoneSource>,
    groups: Seq<Group>,
    i: int,
    j: int,
)
    requires
        zones.len() <= usize::MAX,
        grouping(zones, groups),
        0 <= i < j < zones.len(),
        same_effect(zones, i, j),
    ensures
        exists|g: int|
            0 <= g < groups.len() && (#[trigger] groups[g]).zones@.contains(i as usize)
                && groups[g].zones@.contains(j as usize),
{
    if let (ZoneSource::Function(f, _), ZoneSource::Function(_, _)) = (zones[i], zones[j]) {
        let key = f.identity();
        members_are_exactly(zones, key, zones.len());
        assert(runs(zones, i, key) && runs(zones, j, key));
        let gang = gang(zones, key);
        assert(gang.contains(i as usize) && gang.contains(j as usize));
        let a = choose|a: int| 0 <= a < gang.len() && gang[a] == i as usize;
        let b = choose|b: int| 0 <= b < gang.len() && gang[b] == j as usize;
        assert(gang.len() >= 2);
        assert(gang_of(zones, i) == gang);
        assert(has_group(groups, gang_of(zones, i)));
        let g = choose|g: int| 0 <= g < groups.len() && (#[trigger] groups[g]).zones@ == gang;
        assert(groups[g].zones@.contains(i as usize));
    }
}

/// A group holds at least two zones, in ascending order, all running the effect
/// that it goes by; its hue is that of the first of them.
pub proof fn groups_hold_one_effect(
    zones: Seq<ZoneSource>,
    groups: Seq<Group>,
    g: int,
    a: int,
    b: int,
)
    requires
        zones.len() <= usize::MAX,
        grouping(zones, groups),
        0 <= g < groups.len(),
        0 <= a < groups[g].zones@.len(),
        0 <= b < groups[g].zones@.len(),
    ensures
        groups[g].zones@.len() >= 2,
        groups[g].zones@[a] < zones.len(),
        a < b ==> groups[g].zones@[a] < groups[g].zones@[b],
        zones[groups[g].zones@[a] as int] matches ZoneSource::Function(f, _) && f.identity()
            == groups[g].key@ && f.name().len() + 2 == groups[g].key@.len() && groups[g].label@
            == groups[g].key@.skip(2),
        zones[groups[g].zones@[0] as int] matches ZoneSource::Function(f, _) && groups[g].hue
            == f.badge(),
{
    members_are_exactly(zones, groups[g].key@, zones.len());
    assert(runs(zones, groups[g].zones@[a] as int, groups[g].key@));
    assert(runs(zones, groups[g].zones@[0] as int, groups[g].key@));
    reveal_strlit("p:");
    reveal_strlit("c:");
    if let ZoneSource::Function(f, _) = zones[groups[g].zones@[0] as int] {
        assert(f.identity().skip(2) =~= f.name());
    }
    if let ZoneSource::Function(f, _) = zones[groups[g].zones@[a] as int] {
        assert(f.identity().skip(2) =~= f.name());
    }
}

/// Keys tell effects apart: two sources have one key exactly where they are the
/// same program, or custom effects of one name.
pub proof fn keys_tell_effects_apart(a: Fx, b: Fx)
    ensures
        a.identity() == b.identity() <==> match (a, b) {
            (Fx::Program(x), Fx::Program(y)) => x == y,
            (Fx::Custom(x), Fx::Custom(y)) => x.name@ == y.name@,
            _ => false,
        },
{
    reveal_strlit("p:");
    reveal_strlit("c:");
    if a.identity() == b.identity() {
        assert(a.identity()[0] == b.identity()[0]);
        match (a, b) {
            (Fx::Program(x), Fx::Program(y)) => {
                assert(a.identity().skip(2) =~= x.name());
                assert(b.identity().skip(2) =~= y.name());
                program_names_are_unique(x, y);
            },
            (Fx::Custom(x), Fx::Custom(y)) => {
                assert(a.identity().skip(2) =~= x.name@);
                assert(b.identity().skip(2) =~= y.name@);
            },
            _ => {},
        }
    }
}

/// No two programs go by one name, and no two share a hue.
pub proof fn program_names_are_unique(x: Effect, y: Effect)
    ensures
        x.name() == y.name() ==> x == y,
        x.badge() == y.badge() ==> x == y,
{
    reveal_strlit("Rainbow");
    reveal_strlit("Comet");
    reveal_strlit("Breathe");
    reveal_strlit("Fire");
    reveal_strlit("Gradient");
    reveal_strlit("Police");
    reveal_strlit("Wave");
    if x.name() == y.name() {
        assert(x.name()[0] == y.name()[0]);
    }
}

/// A copy of a source is the source: the same color, or the same effect with the
/// same parameters.
pub proof fn copies_are_equal_sources(a: ZoneSource, b: ZoneSource)
    ensures
        a.same_as(b) <==> match (a, b) {
            (ZoneSource::Solid(x), ZoneSource::Solid(y)) => x == y,
            (ZoneSource::Function(Fx::Program(x), p), ZoneSource::Function(Fx::Program(y), q)) => x
                == y && p == q,
            (ZoneSource::Function(Fx::Custom(x), p), ZoneSource::Function(Fx::Custom(y), q)) => x.name@
                == y.name@ && x.palette@ == y.palette@ && x.motion == y.motion && x.speed == y.speed
                && x.brightness == y.brightness && p == q,
            _ => false,
        },
{
}

/// A built-in effect's hue as the number that a style sheet holds.
pub open spec fn hue_code(e: Effect) -> int {
    match e {
        Effect::Rainbow => 0xd84bff,
        Effect::Comet => 0x1fb7a6,
        Effect::Breathe => 0x5e5ce6,
        Effect::Fire => 0xff9500,
        Effect::Gradient => 0x4bbf73,
        Effect::Police => 0xff3b4e,
        Effect::Wave => 0x34c0ff,
    }
}

/// A badge shows an effect's own hue: red, green and blue of a built-in effect's
/// code, no two of them alike, and a custom effect's first stop.
pub proof fn badges_show_their_own_hue(a: Effect, b: Effect, c: CustomEffect)
    ensures
        0x1_0000 * Fx::Program(a).badge().0 + 0x100 * Fx::Program(a).badge().1 + Fx::Program(
            a,
        ).badge().2 == hue_code(a),
        Fx::Program(a).badge() == Fx::Program(b).badge() <==> a == b,
        c.palette@.len() > 0 ==> Fx::Custom(c).badge() == Rgb(
            c.palette@[0].rgb@[0],
            c.palette@[0].rgb@[1],
            c.palette@[0].rgb@[2],
        ),
{
}

/// Groups come in the order of their first zones, and each group's first zone is
/// the first that runs its effect.
pub proof fn groups_come_in_zone_order(
    zones: Seq<ZoneSource>,
    groups: Seq<Group>,
    g: int,
    h: int,
    i: int,
)
    requires
        zones.len() <= usize::MAX,
        grouping(zones, groups),
        0 <= g < groups.len(),
        0 <= h < groups.len(),
        0 <= i < zones.len(),
    ensures
        g < h ==> groups[g].zones@[0] < groups[h].zones@[0],
        zones[i] matches ZoneSource::Function(f, _) && f.identity() == groups[g].key@
            ==> groups[g].zones@[0] <= i,
{
    members_are_exactly(zones, groups[g].key@, zones.len());
    if runs(zones, i, groups[g].key@) {
        let m = groups[g].zones@;
        assert(m.contains(i as usize));
        let k = choose|k: int| 0 <= k < m.len() && m[k] == i as usize;
        assert(k > 0 ==> m[0] < m[k]);
    }
}

} // verus!
