//! Tray presence: what the tray menu asks for.

use vstd::prelude::*;

use crate::text::same;

verus! {

#[derive(Clone, Copy, Debug, PartialEq, Eq, Structural)]
pub enum TrayAction {
    Show,
    Quit,
}

/// What a menu entry asks for.
pub open spec fn action_of(id: Seq<char>, show: Seq<char>, quit: Seq<char>) -> Option<TrayAction> {
    if id == show {
        Some(TrayAction::Show)
    } else if id == quit {
        Some(TrayAction::Quit)
    } else {
        None
    }
}

/// What a run of menu events asks for: the last entry that means anything.
pub open spec fn last_action(
    ids: Seq<String>,
    show: Seq<char>,
    quit: Seq<char>,
) -> Option<TrayAction>
    decreases ids.len(),
{
    if ids.len() == 0 {
        None
    } else {
        match action_of(ids.last()@, show, quit) {
            Some(a) => Some(a),
            None => last_action(ids.drop_last(), show, quit),
        }
    }
}

/// What the pending menu events ask for.
pub fn poll(ids: &Vec<String>, show: &str, quit: &str) -> (r: Option<TrayAction>)
    ensures
        r == last_action(ids@, show@, quit@),
{
    let mut action: Option<TrayAction> = None;
    let mut i: usize = 0;
    while i < ids.len()
        invariant
            i <= ids@.len(),
            action == last_action(ids@.take(i as int), show@, quit@),
        decreases ids@.len() - i,
    {
        proof {
            let next = ids@.take(i + 1);
            assert(next.drop_last() =~= ids@.take(i as int));
            assert(next.last() == ids@[i as int]);
        }
        if same(ids[i].as_str(), show) {
            action = Some(TrayAction::Show);
        } else if same(ids[i].as_str(), quit) {
            action = Some(TrayAction::Quit);
        }
        i += 1;
    }
    assert(ids@.take(i as int) =~= ids@);
    action
}

/// The last click that means anything decides: an entry of the menu behind which
/// only clicks on neither entry follow is what is asked for.
pub proof fn the_last_click_decides(ids: Seq<String>, show: Seq<char>, quit: Seq<char>, i: int)
    requires
        show != quit,
        0 <= i < ids.len(),
        forall|j: int| i < j < ids.len() ==> (#[trigger] ids[j])@ != show && ids[j]@ != quit,
    ensures
        ids[i]@ == show ==> last_action(ids, show, quit) == Some(TrayAction::Show),
        ids[i]@ == quit ==> last_action(ids, show, quit) == Some(TrayAction::Quit),
        i == 0 && ids[0]@ != show && ids[0]@ != quit ==> last_action(ids, show, quit) is None,
    decreases ids.len(),
{
    if i < ids.len() - 1 {
        assert(ids[ids.len() - 1]@ != show);
        the_last_click_decides(ids.drop_last(), show, quit, i);
    } else if i == 0 {
        assert(ids.drop_last().len() == 0);
        assert(last_action(ids.drop_last(), show, quit) is None);
    }
}

} // verus!
