//! The custom-effect editor.

use vstd::prelude::*;

use crate::library::{
    first_free, lookup, lookups_find_the_name, others, removals_take_only_the_name, removed_is_gone,
    upsert_is_looked_up, upserted, upserts_keep_the_others_in_place, ColorStop, CustomEffect,
    EffectLibrary,
};
use crate::number::{Single, ONE};
use crate::text::{cut_out, is_blank, same, trimmed, trimming_cuts_white_space_alone, white_space};

verus! {

/// An effect in the editor: the draft, and the name of the effect it replaces.
#[derive(Debug)]
pub struct EditorState {
    pub replacing: Option<String>,
    pub draft: CustomEffect,
}

/// The editor on a new effect, under a name that is not taken.
pub fn new_effect(library: &EffectLibrary) -> (r: EditorState)
    ensures
        r.replacing is None,
        first_free(library.effects@, r.draft.name@),
        r.draft.is_new(),
{
    let name = library.fresh_name();
    EditorState { replacing: None, draft: CustomEffect::new_default(name) }
}

/// The editor on an effect of the library; none where there is no such effect.
pub fn edit_effect(library: &EffectLibrary, name: &str) -> (r: Option<EditorState>)
    ensures
        match r {
            Some(ed) => {
                &&& lookup(library.effects@, name@) matches Some(e) && ed.draft.same_as(e)
                &&& ed.replacing matches Some(n) && n@ == name@
            },
            None => lookup(library.effects@, name@) is None,
        },
{
    match library.get(name) {
        Some(e) => Some(EditorState { replacing: Some(name.to_string()), draft: e.clone() }),
        None => None,
    }
}

/// Whether the draft can be saved: it needs a name.
pub open spec fn named(draft: CustomEffect) -> bool {
    trimmed(draft.name@).len() > 0
}

/// The library once a draft was saved: the effect that it replaces goes where it
/// was renamed, and the draft takes its place.
pub open spec fn saved(
    effects: Seq<CustomEffect>,
    replacing: Option<Seq<char>>,
    draft: CustomEffect,
) -> Seq<CustomEffect> {
    match replacing {
        Some(was) => if was != draft.name@ {
            upserted(others(effects, was), draft)
        } else {
            upserted(effects, draft)
        },
        None => upserted(effects, draft),
    }
}

impl EditorState {
    /// The name of the effect that the draft replaces.
    pub open spec fn target(self) -> Option<Seq<char>> {
        match self.replacing {
            Some(n) => Some(n@),
            None => None,
        }
    }

    /// Whether the draft can be saved.
    pub fn can_save(&self) -> (r: bool)
        ensures
            r == named(self.draft),
    {
        !is_blank(self.draft.name.as_str())
    }

    /// Saves the draft. Says whether it did: a draft without a name is not saved.
    pub fn save(self, library: &mut EffectLibrary) -> (r: bool)
        ensures
            r == named(self.draft),
            final(library).effects@ == (if r {
                saved(old(library).effects@, self.target(), self.draft)
            } else {
                old(library).effects@
            }),
    {
        if !self.can_save() {
            return false;
        }
        if let Some(was) = &self.replacing {
            if !same(was.as_str(), self.draft.name.as_str()) {
                library.remove(was.as_str());
            }
        }
        library.upsert(self.draft);
        true
    }

    /// Deletes the effect that the draft replaces. Says whether there was one to
    /// delete.
    pub fn delete(&self, library: &mut EffectLibrary) -> (r: bool)
        ensures
            r == self.replacing is Some,
            final(library).effects@ == (match self.target() {
                Some(was) => others(old(library).effects@, was),
                None => old(library).effects@,
            }),
    {
        match &self.replacing {
            Some(was) => {
                library.remove(was.as_str());
                true
            },
            None => false,
        }
    }

    /// Adds a white stop at the end of the palette.
    pub fn add_stop(&mut self)
        ensures
            final(self).draft.palette@.len() == old(self).draft.palette@.len() + 1,
            final(self).draft.palette@.drop_last() == old(self).draft.palette@,
            final(self).draft.palette@.last().pos == Single(ONE),
            final(self).draft.palette@.last().rgb@ == seq![0xFFu8, 0xFF, 0xFF],
            final(self).replacing == old(self).replacing,
            final(self).draft == (CustomEffect {
                palette: final(self).draft.palette,
                ..old(self).draft
            }),
    {
        let rgb: [u8; 3] = [0xFF, 0xFF, 0xFF];
        assert(rgb@ =~= seq![0xFFu8, 0xFF, 0xFF]);
        self.draft.palette.push(ColorStop { pos: Single(ONE), rgb });
        assert(self.draft.palette@.drop_last() =~= old(self).draft.palette@);
    }

    /// Whether stops can be removed: a palette keeps its last one.
    pub fn can_remove_stop(&self) -> (r: bool)
        ensures
            r == (self.draft.palette@.len() > 1),
    {
        self.draft.palette.len() > 1
    }

    /// Removes a stop, unless it is the last one. Says whether it did.
    pub fn remove_stop(&mut self, i: usize) -> (r: bool)
        ensures
            r == (old(self).draft.palette@.len() > 1 && i < old(self).draft.palette@.len()),
            final(self).draft.palette@ == (if r {
                old(self).draft.palette@.remove(i as int)
            } else {
                old(self).draft.palette@
            }),
            final(self).replacing == old(self).replacing,
            final(self).draft == (CustomEffect {
                palette: final(self).draft.palette,
                ..old(self).draft
            }),
    {
        if self.draft.palette.len() > 1 && i < self.draft.palette.len() {
            self.draft.palette.remove(i);
            true
        } else {
            false
        }
    }
}

/// A saved draft is in the library under its name; the name that it was renamed
/// from is gone; every other effect is as it was.
pub proof fn saved_drafts_are_looked_up(
    effects: Seq<CustomEffect>,
    replacing: Option<Seq<char>>,
    draft: CustomEffect,
    other: Seq<char>,
)
    ensures
        lookup(saved(effects, replacing, draft), draft.name@) == Some(draft),
        replacing matches Some(was) ==> was != draft.name@ ==> lookup(
            saved(effects, replacing, draft),
            was,
        ) is None,
        other != draft.name@ && replacing != Some(other) ==> lookup(
            saved(effects, replacing, draft),
            other,
        ) == lookup(effects, other),
{
    match replacing {
        Some(was) => {
            if was != draft.name@ {
                upsert_is_looked_up(others(effects, was), draft, was);
                upsert_is_looked_up(others(effects, was), draft, other);
                removed_is_gone(effects, was, other);
            } else {
                upsert_is_looked_up(effects, draft, other);
            }
        },
        None => {
            upsert_is_looked_up(effects, draft, other);
        },
    }
}

/// Only a draft with something other than white space in its name can be saved.
pub proof fn blank_names_are_not_saved(draft: CustomEffect)
    ensures
        draft.name@.len() == 0 ==> !named(draft),
        (forall|i: int| 0 <= i < draft.name@.len() ==> white_space(#[trigger] draft.name@[i]))
            ==> !named(draft),
        (exists|i: int| 0 <= i < draft.name@.len() && !white_space(#[trigger] draft.name@[i]))
            ==> named(draft),
{
    let s = draft.name@;
    let t = trimmed(s);
    trimming_cuts_white_space_alone(s);
    let at = choose|i: int| #[trigger] cut_out(s, i, t);
    if t.len() > 0 {
        assert(s.subrange(at, at + t.len())[0] == s[at]);
    }
}

/// Saving keeps every other effect: an effect of another name than the draft's
/// and the one it replaces is in the library after as before.
pub proof fn saving_keeps_every_other_effect(
    effects: Seq<CustomEffect>,
    replacing: Option<Seq<char>>,
    draft: CustomEffect,
    one: CustomEffect,
)
    requires
        one.name@ != draft.name@,
        replacing != Some(one.name@),
    ensures
        effects.contains(one) ==> saved(effects, replacing, draft).contains(one),
        saved(effects, replacing, draft).contains(draft),
{
    let base = match replacing {
        Some(was) => if was != draft.name@ {
            others(effects, was)
        } else {
            effects
        },
        None => effects,
    };
    if let Some(was) = replacing {
        if was != draft.name@ {
            removals_take_only_the_name(effects, was, one);
        }
    }
    let after = upserted(base, draft);
    assert(saved(effects, replacing, draft) == after);
    if effects.contains(one) {
        let i = choose|i: int| 0 <= i < base.len() && base[i] == one;
        upserts_keep_the_others_in_place(base, draft, i);
        assert(after[i] == one);
    }
    upsert_is_looked_up(base, draft, one.name@);
    lookups_find_the_name(after, draft.name@);
    let k = choose|k: int| 0 <= k < after.len() && #[trigger] after[k] == draft;
    assert(after[k] == draft);
}

} // verus!
