//! User-editable custom effects and their collection.
//!
//! A custom effect is pure data: a cyclic color palette and a motion.

use vstd::prelude::*;
use vstd::set_lib::lemma_len_subset;

use crate::number::{Single, EIGHT_TENTHS, HALF, ONE, SIX_TENTHS, ZERO};
use crate::rgb::Rgb;
use crate::text::{decimal, decimals_differ, push_decimal, same};

verus! {

/// A color anchored at a position along the palette (0 to 1, cyclic).
#[derive(Clone, Copy, Debug)]
pub struct ColorStop {
    pub pos: Single,
    pub rgb: [u8; 3],
}

/// How a palette animates across the zones.
#[derive(Clone, Copy, Debug, PartialEq, Eq, Structural)]
pub enum Motion {
    /// Palette laid across the zones, still.
    Static,
    /// Palette scrolls along the strip.
    Scroll,
    /// Palette scrolls back and forth.
    Bounce,
    /// Whole strip one color, cycling the palette while it breathes.
    Pulse,
    /// Per-zone random sparkle drawn from the palette.
    Twinkle,
}

impl Motion {
    pub const ALL: [Motion; 5] = [
        Motion::Static,
        Motion::Scroll,
        Motion::Bounce,
        Motion::Pulse,
        Motion::Twinkle,
    ];

    pub open spec fn name(self) -> Seq<char> {
        match self {
            Motion::Static => "Static"@,
            Motion::Scroll => "Scroll"@,
            Motion::Bounce => "Bounce"@,
            Motion::Pulse => "Pulse"@,
            Motion::Twinkle => "Twinkle"@,
        }
    }

    pub fn label(self) -> (r: &'static str)
        ensures
            r@ == self.name(),
    {
        match self {
            Motion::Static => "Static",
            Motion::Scroll => "Scroll",
            Motion::Bounce => "Bounce",
            Motion::Pulse => "Pulse",
            Motion::Twinkle => "Twinkle",
        }
    }
}

/// A fully user-defined effect. Its speed and brightness are a baseline that the
/// per-zone sliders multiply.
#[derive(Debug)]
pub struct CustomEffect {
    pub name: String,
    pub palette: Vec<ColorStop>,
    pub motion: Motion,
    pub speed: Single,
    pub brightness: Single,
}

impl CustomEffect {
    /// The same effect.
    pub open spec fn same_as(self, other: CustomEffect) -> bool {
        &&& self.name@ == other.name@
        &&& self.palette@ == other.palette@
        &&& self.motion == other.motion
        &&& self.speed == other.speed
        &&& self.brightness == other.brightness
    }

    /// A blank effect, whatever its name: a cyan to magenta scroll.
    pub open spec fn is_new(self) -> bool {
        &&& self.palette@ == seq![
            (ColorStop { pos: Single(ZERO), rgb: [0x00, 0xE5, 0xFF] }),
            (ColorStop { pos: Single(ONE), rgb: [0xFF, 0x00, 0x88] }),
        ]
        &&& self.motion == Motion::Scroll
        &&& self.speed == Single(ONE)
        &&& self.brightness == Single(ONE)
    }

    /// A blank effect to start editing from: a cyan to magenta scroll.
    pub fn new_default(name: String) -> (r: Self)
        ensures
            r.name@ == name@,
            r.is_new(),
    {
        CustomEffect {
            name,
            palette: vec![
                ColorStop { pos: Single(ZERO), rgb: [0x00, 0xE5, 0xFF] },
                ColorStop { pos: Single(ONE), rgb: [0xFF, 0x00, 0x88] },
            ],
            motion: Motion::Scroll,
            speed: Single(ONE),
            brightness: Single(ONE),
        }
    }

    /// The color that stands for the effect: its first stop, or gray.
    pub open spec fn badge(self) -> Rgb {
        if self.palette@.len() > 0 {
            Rgb(self.palette@[0].rgb@[0], self.palette@[0].rgb@[1], self.palette@[0].rgb@[2])
        } else {
            Rgb(0x88, 0x88, 0x88)
        }
    }

    /// A representative color for badges.
    pub fn dominant(&self) -> (r: Rgb)
        ensures
            r == self.badge(),
    {
        if self.palette.len() > 0 {
            let c = self.palette[0].rgb;
            Rgb(c[0], c[1], c[2])
        } else {
            Rgb(0x88, 0x88, 0x88)
        }
    }
}

impl Clone for CustomEffect {
    fn clone(&self) -> (r: Self)
        ensures
            r.same_as(*self),
    {
        CustomEffect {
            name: self.name.clone(),
            palette: self.palette.clone(),
            motion: self.motion,
            speed: self.speed,
            brightness: self.brightness,
        }
    }
}

/// The collection of custom effects.
#[derive(Debug)]
pub struct EffectLibrary {
    pub effects: Vec<CustomEffect>,
}

/// Whether the `i`-th effect is the first of that name.
pub open spec fn first_named(effects: Seq<CustomEffect>, name: Seq<char>, i: int) -> bool {
    &&& 0 <= i < effects.len()
    &&& effects[i].name@ == name
    &&& forall|j: int| 0 <= j < i ==> (#[trigger] effects[j]).name@ != name
}

/// Whether no effect has that name.
pub open spec fn none_named(effects: Seq<CustomEffect>, name: Seq<char>) -> bool {
    forall|j: int| 0 <= j < effects.len() ==> (#[trigger] effects[j]).name@ != name
}

/// Where the first effect of that name stands.
pub open spec fn index_named(effects: Seq<CustomEffect>, name: Seq<char>) -> Option<int> {
    if none_named(effects, name) {
        None
    } else {
        Some(choose|i: int| first_named(effects, name, i))
    }
}

/// The effect of that name: the first one.
pub open spec fn lookup(effects: Seq<CustomEffect>, name: Seq<char>) -> Option<CustomEffect> {
    match index_named(effects, name) {
        Some(i) => Some(effects[i]),
        None => None,
    }
}

/// The effects with `e` in the place of the one of its name, or at the end.
pub open spec fn upserted(effects: Seq<CustomEffect>, e: CustomEffect) -> Seq<CustomEffect> {
    match index_named(effects, e.name@) {
        Some(i) => effects.update(i, e),
        None => effects.push(e),
    }
}

/// The effects that do not have that name, in order.
pub open spec fn others(effects: Seq<CustomEffect>, name: Seq<char>) -> Seq<CustomEffect> {
    effects.filter(|e: CustomEffect| e.name@ != name)
}

/// The `k`-th generated name.
pub open spec fn numbered(k: nat) -> Seq<char> {
    "Custom "@ + decimal(k)
}

/// Whether a name is the first numbered one that is not taken.
pub open spec fn first_free(effects: Seq<CustomEffect>, name: Seq<char>) -> bool {
    &&& none_named(effects, name)
    &&& exists|k: nat|
        1 <= k && name == #[trigger] numbered(k) && forall|j: nat|
            1 <= j < k ==> !none_named(effects, #[trigger] numbered(j))
}

impl EffectLibrary {
    fn position(&self, name: &str) -> (r: Option<usize>)
        ensures
            match r {
                Some(i) => first_named(self.effects@, name@, i as int),
                None => none_named(self.effects@, name@),
            },
    {
        let mut i: usize = 0;
        while i < self.effects.len()
            invariant
                i <= self.effects@.len(),
                forall|j: int| 0 <= j < i ==> (#[trigger] self.effects@[j]).name@ != name@,
            decreases self.effects@.len() - i,
        {
            if same(self.effects[i].name.as_str(), name) {
                return Some(i);
            }
            i += 1;
        }
        None
    }

    /// The effect of that name.
    pub fn get(&self, name: &str) -> (r: Option<&CustomEffect>)
        ensures
            match r {
                Some(e) => lookup(self.effects@, name@) == Some(*e),
                None => lookup(self.effects@, name@) is None,
            },
    {
        match self.position(name) {
            Some(i) => {
                proof {
                    first_is_unique(self.effects@, name@, i as int);
                }
                Some(&self.effects[i])
            },
            None => None,
        }
    }

    /// Puts an effect in the place of the one of its name, or at the end where
    /// there is none. Returns its name.
    pub fn upsert(&mut self, e: CustomEffect) -> (r: String)
        ensures
            r@ == e.name@,
            final(self).effects@ == upserted(old(self).effects@, e),
    {
        let name = e.name.clone();
        match self.position(name.as_str()) {
            Some(i) => {
                proof {
                    first_is_unique(self.effects@, e.name@, i as int);
                }
                self.effects.set(i, e);
            },
            None => {
                self.effects.push(e);
            },
        }
        name
    }

    /// Drops every effect of that name.
    pub fn remove(&mut self, name: &str)
        ensures
            final(self).effects@ == others(old(self).effects@, name@),
    {
        let ghost all = self.effects@;
        let n: usize = self.effects.len();
        let mut rest: Vec<CustomEffect> = Vec::new();
        std::mem::swap(&mut rest, &mut self.effects);
        let mut kept: Vec<CustomEffect> = Vec::new();
        let mut i: usize = 0;
        proof {
            assert(all.take(0) =~= Seq::<CustomEffect>::empty());
            reveal(Seq::filter);
        }
        while i < n
            invariant
                n == all.len(),
                i <= n,
                rest@ == all.skip(i as int),
                kept@ == others(all.take(i as int), name@),
            decreases n - i,
        {
            let e = rest.remove(0);
            proof {
                assert(rest@ =~= all.skip(i + 1));
                let next = all.take(i + 1);
                assert(next.drop_last() =~= all.take(i as int));
                assert(next.last() == e);
                reveal(Seq::filter);
            }
            if !same(e.name.as_str(), name) {
                kept.push(e);
            }
            i += 1;
        }
        assert(all.take(n as int) =~= all);
        self.effects = kept;
    }

    /// The first numbered name that is not taken.
    pub fn fresh_name(&self) -> (r: String)
        ensures
            first_free(self.effects@, r@),
    {
        let n: u128 = self.effects.len() as u128;
        let mut k: u128 = 1;
        while k <= n + 1
            invariant
                n == self.effects@.len(),
                n <= u64::MAX,
                1 <= k <= n + 2,
                forall|j: nat| 1 <= j < k ==> !none_named(self.effects@, #[trigger] numbered(j)),
            decreases n + 2 - k,
        {
            let mut name = String::new();
            name.append("Custom ");
            push_decimal(&mut name, k);
            assert(name@ =~= numbered(k as nat));
            if self.position(name.as_str()).is_none() {
                return name;
            }
            k += 1;
        }
        proof {
            numbered_names_run_out(self.effects@, (n + 1) as nat);
        }
        String::new()
    }
}

/// There is one first effect of a name, and it is what the name looks up.
proof fn first_is_unique(effects: Seq<CustomEffect>, name: Seq<char>, i: int)
    requires
        first_named(effects, name, i),
    ensures
        index_named(effects, name) == Some(i),
{
    let k = choose|k: int| first_named(effects, name, k);
    assert(first_named(effects, name, k));
    if k < i {
        assert(effects[k].name@ != name);
    }
    if i < k {
        assert(effects[i].name@ != name);
    }
}

/// A name that some effect has is looked up to the first such effect.
proof fn named_has_first(effects: Seq<CustomEffect>, name: Seq<char>, i: int)
    requires
        0 <= i < effects.len(),
        effects[i].name@ == name,
    ensures
        exists|k: int| first_named(effects, name, k) && k <= i,
    decreases i,
{
    if exists|j: int| 0 <= j < i && (#[trigger] effects[j]).name@ == name {
        let j = choose|j: int| 0 <= j < i && (#[trigger] effects[j]).name@ == name;
        named_has_first(effects, name, j);
    } else {
        assert(first_named(effects, name, i));
    }
}

/// A lookup finds the name: what it finds is an effect of the collection with
/// that name and none before it has it; where it finds nothing, no effect has
/// the name.
pub proof fn lookups_find_the_name(effects: Seq<CustomEffect>, name: Seq<char>)
    ensures
        match lookup(effects, name) {
            Some(e) => e.name@ == name && exists|i: int|
                0 <= i < effects.len() && #[trigger] effects[i] == e && forall|j: int|
                    0 <= j < i ==> (#[trigger] effects[j]).name@ != name,
            None => forall|j: int| 0 <= j < effects.len() ==> (#[trigger] effects[j]).name@ != name,
        },
        lookup(effects, name) is None <==> none_named(effects, name),
{
    if !none_named(effects, name) {
        let w = choose|w: int| 0 <= w < effects.len() && (#[trigger] effects[w]).name@ == name;
        named_has_first(effects, name, w);
        let i = choose|i: int| first_named(effects, name, i);
        assert(first_named(effects, name, i));
        first_is_unique(effects, name, i);
        assert(effects[i].name@ == name);
    }
}

/// A copy of an effect is the effect, field by field.
pub proof fn copies_are_equal_effects(a: CustomEffect, b: CustomEffect)
    ensures
        a.same_as(b) <==> a.name@ == b.name@ && a.palette@ == b.palette@ && a.motion == b.motion
            && a.speed == b.speed && a.brightness == b.brightness,
{
}

/// Putting an effect in adds at most one effect: one of its name is replaced
/// where it stands, and every other effect stays where it is, in order.
pub proof fn upserts_keep_the_others_in_place(
    effects: Seq<CustomEffect>,
    e: CustomEffect,
    i: int,
)
    requires
        0 <= i < effects.len(),
    ensures
        none_named(effects, e.name@) ==> upserted(effects, e) == effects.push(e),
        !none_named(effects, e.name@) ==> upserted(effects, e).len() == effects.len(),
        effects[i].name@ != e.name@ ==> upserted(effects, e)[i] == effects[i],
        effects[i].name@ == e.name@ && (forall|j: int|
            0 <= j < i ==> (#[trigger] effects[j]).name@ != e.name@) ==> upserted(effects, e)[i]
            == e,
{
    if !none_named(effects, e.name@) {
        let w = choose|w: int| 0 <= w < effects.len() && (#[trigger] effects[w]).name@ == e.name@;
        named_has_first(effects, e.name@, w);
        let k = choose|k: int| first_named(effects, e.name@, k);
        assert(first_named(effects, e.name@, k));
        first_is_unique(effects, e.name@, k);
        if first_named(effects, e.name@, i) {
            first_is_unique(effects, e.name@, i);
        }
    }
}

/// Removing a name removes the effects of that name and no other: an effect
/// stays exactly where it has another name.
pub proof fn removals_take_only_the_name(
    effects: Seq<CustomEffect>,
    name: Seq<char>,
    one: CustomEffect,
)
    ensures
        others(effects, name).contains(one) <==> effects.contains(one) && one.name@ != name,
    decreases effects.len(),
{
    reveal(Seq::filter);
    if effects.len() > 0 {
        let init = effects.drop_last();
        let last = effects.last();
        removals_take_only_the_name(init, name, one);
        let kept = others(init, name);
        let after = others(effects, name);
        assert(after == if last.name@ != name {
            kept.push(last)
        } else {
            kept
        });
        assert(effects =~= init.push(last));
        one_more_is_contained(init, last, one);
        one_more_is_contained(kept, last, one);
    }
}

proof fn one_more_is_contained(s: Seq<CustomEffect>, last: CustomEffect, one: CustomEffect)
    ensures
        s.push(last).contains(one) <==> s.contains(one) || last == one,
{
    let t = s.push(last);
    assert(t[s.len() as int] == last);
    if s.contains(one) {
        let i = choose|i: int| 0 <= i < s.len() && s[i] == one;
        assert(t[i] == one);
    }
    if t.contains(one) {
        let i = choose|i: int| 0 <= i < t.len() && t[i] == one;
        if i < s.len() {
            assert(s[i] == one);
        }
    }
}

/// A generated name is free and is the lowest free number behind the word: no
/// effect has it, and every lower number is taken.
pub proof fn generated_names_are_free(effects: Seq<CustomEffect>, name: Seq<char>)
    requires
        first_free(effects, name),
    ensures
        forall|j: int| 0 <= j < effects.len() ==> (#[trigger] effects[j]).name@ != name,
        exists|k: nat|
            1 <= k && name == "Custom "@ + #[trigger] decimal(k) && forall|j: nat|
                1 <= j < k ==> is_taken(effects, "Custom "@ + #[trigger] decimal(j)),
{
    let k = choose|k: nat|
        1 <= k && name == #[trigger] numbered(k) && forall|j: nat|
            1 <= j < k ==> !none_named(effects, #[trigger] numbered(j));
    assert(name == "Custom "@ + decimal(k));
    assert forall|j: nat| 1 <= j < k implies is_taken(effects, "Custom "@ + #[trigger] decimal(j)) by {
        assert(!none_named(effects, numbered(j)));
    }
}

/// Whether some effect has that name.
pub open spec fn is_taken(effects: Seq<CustomEffect>, name: Seq<char>) -> bool {
    exists|i: int| 0 <= i < effects.len() && (#[trigger] effects[i]).name@ == name
}

/// A new effect is a scroll at full speed and brightness from cyan at the start
/// to magenta at the end; and what stands for an effect is its own first color.
pub proof fn new_effects_scroll_cyan_to_magenta(e: CustomEffect)
    ensures
        e.is_new() ==> {
            &&& e.palette@.len() == 2
            &&& e.palette@[0].pos == Single(ZERO)
            &&& e.palette@[0].rgb@ == seq![0x00u8, 0xE5, 0xFF]
            &&& e.palette@[1].pos == Single(ONE)
            &&& e.palette@[1].rgb@ == seq![0xFFu8, 0x00, 0x88]
            &&& e.motion == Motion::Scroll
            &&& e.speed == Single(ONE)
            &&& e.brightness == Single(ONE)
        },
        e.palette@.len() > 0 ==> e.badge().0 == e.palette@[0].rgb@[0] && e.badge().1
            == e.palette@[0].rgb@[1] && e.badge().2 == e.palette@[0].rgb@[2],
        e.palette@.len() == 0 ==> e.badge() == Rgb(0x88, 0x88, 0x88),
{
    if e.is_new() {
        let a: [u8; 3] = [0x00, 0xE5, 0xFF];
        let b: [u8; 3] = [0xFF, 0x00, 0x88];
        assert(e.palette@[0].rgb == a);
        assert(e.palette@[1].rgb == b);
        assert(a@ =~= seq![0x00u8, 0xE5, 0xFF]);
        assert(b@ =~= seq![0xFFu8, 0x00, 0x88]);
    }
}

/// An effect that was put in is what its name looks up, and every other name
/// looks up what it did before.
pub proof fn upsert_is_looked_up(effects: Seq<CustomEffect>, e: CustomEffect, other: Seq<char>)
    ensures
        lookup(upserted(effects, e), e.name@) == Some(e),
        other != e.name@ ==> lookup(upserted(effects, e), other) == lookup(effects, other),
{
    let after = upserted(effects, e);
    if none_named(effects, e.name@) {
        assert(first_named(after, e.name@, effects.len() as int));
        first_is_unique(after, e.name@, effects.len() as int);
    } else {
        let w = choose|w: int| 0 <= w < effects.len() && (#[trigger] effects[w]).name@ == e.name@;
        named_has_first(effects, e.name@, w);
        let i = choose|i: int| first_named(effects, e.name@, i);
        assert(first_named(effects, e.name@, i));
        assert(first_named(after, e.name@, i)) by {
            assert forall|j: int| 0 <= j < i implies (#[trigger] after[j]).name@ != e.name@ by {
                assert(effects[j].name@ != e.name@);
            }
        }
        first_is_unique(after, e.name@, i);
    }
    if other != e.name@ {
        if none_named(effects, other) {
            assert(none_named(after, other)) by {
                assert forall|j: int| 0 <= j < after.len() implies (#[trigger] after[j]).name@
                    != other by {
                    if j < effects.len() {
                        assert(effects[j].name@ != other);
                    }
                }
            }
        } else {
            let w = choose|w: int| 0 <= w < effects.len() && (#[trigger] effects[w]).name@ == other;
            named_has_first(effects, other, w);
            let k = choose|k: int| first_named(effects, other, k);
            assert(first_named(effects, other, k));
            first_is_unique(effects, other, k);
            assert(first_named(after, other, k)) by {
                assert(after[k] == effects[k]);
                assert forall|j: int| 0 <= j < k implies (#[trigger] after[j]).name@ != other by {
                    assert(effects[j].name@ != other);
                }
            }
            first_is_unique(after, other, k);
        }
    }
}

/// A removed name looks up nothing, and every other name looks up what it did
/// before.
pub proof fn removed_is_gone(effects: Seq<CustomEffect>, name: Seq<char>, other: Seq<char>)
    ensures
        lookup(others(effects, name), name) is None,
        other != name ==> lookup(others(effects, name), other) == lookup(effects, other),
    decreases effects.len(),
{
    reveal(Seq::filter);
    if effects.len() > 0 {
        let init = effects.drop_last();
        let last = effects.last();
        removed_is_gone(init, name, other);
        let kept = others(init, name);
        let after = others(effects, name);
        assert(after == if last.name@ != name {
            kept.push(last)
        } else {
            kept
        });
        assert(none_named(kept, name));
        assert(none_named(after, name)) by {
            assert forall|j: int| 0 <= j < after.len() implies (#[trigger] after[j]).name@
                != name by {
                if j < kept.len() {
                    assert(kept[j].name@ != name);
                }
            }
        }
        if other != name {
            lookup_of_push(init, last, other);
            assert(init.push(last) =~= effects);
            if last.name@ != name {
                lookup_of_push(kept, last, other);
            }
        }
    }
}

/// What a name looks up once one more effect stands at the end.
proof fn lookup_of_push(effects: Seq<CustomEffect>, e: CustomEffect, name: Seq<char>)
    ensures
        lookup(effects.push(e), name) == if lookup(effects, name) is Some {
            lookup(effects, name)
        } else if e.name@ == name {
            Some(e)
        } else {
            None
        },
{
    let after = effects.push(e);
    if none_named(effects, name) {
        if e.name@ == name {
            assert(first_named(after, name, effects.len() as int)) by {
                assert forall|j: int| 0 <= j < effects.len() implies (#[trigger] after[j]).name@
                    != name by {
                    assert(effects[j].name@ != name);
                }
            }
            first_is_unique(after, name, effects.len() as int);
        } else {
            assert(none_named(after, name)) by {
                assert forall|j: int| 0 <= j < after.len() implies (#[trigger] after[j]).name@
                    != name by {
                    if j < effects.len() {
                        assert(effects[j].name@ != name);
                    }
                }
            }
        }
    } else {
        let w = choose|w: int| 0 <= w < effects.len() && (#[trigger] effects[w]).name@ == name;
        named_has_first(effects, name, w);
        let k = choose|k: int| first_named(effects, name, k);
        assert(first_named(effects, name, k));
        first_is_unique(effects, name, k);
        assert(first_named(after, name, k)) by {
            assert forall|j: int| 0 <= j < k implies (#[trigger] after[j]).name@ != name by {
                assert(effects[j].name@ != name);
            }
        }
        first_is_unique(after, name, k);
    }
}

/// A collection cannot take more numbered names than it has effects.
proof fn numbered_names_run_out(effects: Seq<CustomEffect>, m: nat)
    requires
        forall|j: nat| 1 <= j <= m ==> !none_named(effects, #[trigger] numbered(j)),
    ensures
        m <= effects.len(),
{
    let names = effects.map_values(|e: CustomEffect| e.name@);
    names.lemma_cardinality_of_set();
    let taken = Set::new(|s: Seq<char>| exists|j: nat| 1 <= j <= m && s == #[trigger] numbered(j));
    assert(taken.subset_of(names.to_set())) by {
        assert forall|s: Seq<char>| taken.contains(s) implies names.to_set().contains(s) by {
            let j = choose|j: nat| 1 <= j <= m && s == #[trigger] numbered(j);
            assert(!none_named(effects, numbered(j)));
            let i = choose|i: int|
                0 <= i < effects.len() && (#[trigger] effects[i]).name@ == numbered(j);
            assert(names[i] == s);
            assert(names.contains(s));
        }
    }
    numbered_names_are_many(m);
    lemma_len_subset(taken, names.to_set());
}

/// The first `m` numbered names are `m` different names.
proof fn numbered_names_are_many(m: nat)
    ensures
        ({
            let taken = Set::new(
                |s: Seq<char>| exists|j: nat| 1 <= j <= m && s == #[trigger] numbered(j),
            );
            taken.finite() && taken.len() == m
        }),
    decreases m,
{
    let taken = Set::new(|s: Seq<char>| exists|j: nat| 1 <= j <= m && s == #[trigger] numbered(j));
    if m == 0 {
        assert(taken =~= Set::<Seq<char>>::empty());
    } else {
        let k = (m - 1) as nat;
        let fewer = Set::new(
            |s: Seq<char>| exists|j: nat| 1 <= j <= k && s == #[trigger] numbered(j),
        );
        numbered_names_are_many(k);
        assert(taken =~= fewer.insert(numbered(m)));
        assert(!fewer.contains(numbered(m))) by {
            if fewer.contains(numbered(m)) {
                let j = choose|j: nat| 1 <= j <= k && numbered(m) == #[trigger] numbered(j);
                numbered_names_differ(m, j);
            }
        }
    }
}

/// Numbered names with different numbers are different.
pub proof fn numbered_names_differ(a: nat, b: nat)
    requires
        numbered(a) == numbered(b),
    ensures
        a == b,
{
    let head = "Custom "@;
    assert(numbered(a).skip(head.len() as int) =~= decimal(a));
    assert(numbered(b).skip(head.len() as int) =~= decimal(b));
    decimals_differ(a, b);
}

/// Starter effects, so that the library is not empty on first run.
pub fn seed() -> (r: Vec<CustomEffect>)
    ensures
        r@.len() == 3,
        r@[0].name@ == "Sunset"@,
        r@[0].palette@ == seq![
            (ColorStop { pos: Single(ZERO), rgb: [0xFF, 0x6A, 0x00] }),
            (ColorStop { pos: Single(HALF), rgb: [0xFF, 0x00, 0x66] }),
            (ColorStop { pos: Single(ONE), rgb: [0x5A, 0x00, 0xFF] }),
        ],
        r@[0].motion == Motion::Scroll,
        r@[0].speed == Single(EIGHT_TENTHS),
        r@[0].brightness == Single(ONE),
        r@[1].name@ == "Ocean"@,
        r@[1].palette@ == seq![
            (ColorStop { pos: Single(ZERO), rgb: [0x00, 0x2A, 0xFF] }),
            (ColorStop { pos: Single(ONE), rgb: [0x00, 0xFF, 0xC8] }),
        ],
        r@[1].motion == Motion::Bounce,
        r@[1].speed == Single(SIX_TENTHS),
        r@[1].brightness == Single(ONE),
        r@[2].name@ == "Ember"@,
        r@[2].palette@ == seq![
            (ColorStop { pos: Single(ZERO), rgb: [0xFF, 0x30, 0x00] }),
            (ColorStop { pos: Single(ONE), rgb: [0xFF, 0xC4, 0x00] }),
        ],
        r@[2].motion == Motion::Twinkle,
        r@[2].speed == Single(ONE),
        r@[2].brightness == Single(ONE),
{
    vec![
        CustomEffect {
            name: "Sunset".to_string(),
            palette: vec![
                ColorStop { pos: Single(ZERO), rgb: [0xFF, 0x6A, 0x00] },
                ColorStop { pos: Single(HALF), rgb: [0xFF, 0x00, 0x66] },
                ColorStop { pos: Single(ONE), rgb: [0x5A, 0x00, 0xFF] },
            ],
            motion: Motion::Scroll,
            speed: Single(EIGHT_TENTHS),
            brightness: Single(ONE),
        },
        CustomEffect {
            name: "Ocean".to_string(),
            palette: vec![
                ColorStop { pos: Single(ZERO), rgb: [0x00, 0x2A, 0xFF] },
                ColorStop { pos: Single(ONE), rgb: [0x00, 0xFF, 0xC8] },
            ],
            motion: Motion::Bounce,
            speed: Single(SIX_TENTHS),
            brightness: Single(ONE),
        },
        CustomEffect {
            name: "Ember".to_string(),
            palette: vec![
                ColorStop { pos: Single(ZERO), rgb: [0xFF, 0x30, 0x00] },
                ColorStop { pos: Single(ONE), rgb: [0xFF, 0xC4, 0x00] },
            ],
            motion: Motion::Twinkle,
            speed: Single(ONE),
            brightness: Single(ONE),
        },
    ]
}

/// A badge shows the first stop of the palette, and gray where there is none.
pub proof fn badges_show_the_first_stop(e: CustomEffect)
    ensures
        e.palette@.len() == 0 ==> e.badge() == Rgb(0x88, 0x88, 0x88),
        e.palette@.len() > 0 ==> {
            let c = e.palette@[0].rgb@;
            e.badge().0 == c[0] && e.badge().1 == c[1] && e.badge().2 == c[2]
        },
{
}

/// No two motions go by one label.
pub proof fn motion_labels_are_unique(a: Motion, b: Motion)
    requires
        a.name() == b.name(),
    ensures
        a == b,
{
    reveal_strlit("Static");
    reveal_strlit("Scroll");
    reveal_strlit("Bounce");
    reveal_strlit("Pulse");
    reveal_strlit("Twinkle");
    let x = a.name();
    let y = b.name();
    assert(x.len() == y.len() && x[0] == y[0] && x[1] == y[1] && x[2] == y[2]);
}

} // verus!
