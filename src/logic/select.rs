//! Turning a player's choice of squares into an action: a tile is selected,
//! a square focused, and for a command the commanded tile chosen in between.

use vstd::prelude::*;
use crate::logic::apply::{action_ok, applied_some_draw, do_unsafe_action, owns};
use crate::logic::enumerate::{actions_of_tile, get_actions, get_tile_actions, legal_actions, spawn_defined};
use crate::logic::laws::{all_ok, lemma_legal_actions_ok, lemma_tile_actions_ok};
use crate::logic::{on_board, shaped, tile_at, Action, Coordinate, GameState};

verus! {

/// The squares a player has pointed at.
#[derive(Debug, Clone, Copy, PartialEq, Eq, Structural)]
pub struct Selection {
    /// The square under the cursor.
    pub focus: Coordinate,
    /// The tile chosen to act.
    pub selected: Option<Coordinate>,
    /// The tile chosen to be commanded.
    pub selected_command: Option<Coordinate>,
}

/// Whether `a` commands the tile at `c`.
pub open spec fn commands(a: Action, c: Coordinate) -> bool {
    a matches Action::Command(cd) && cd.command_tile_pos == c
}

/// Whether `a` is what the selection asks for: an ordinary action onto the
/// focus when no tile is chosen to be commanded, or a command of the chosen
/// tile onto the focus.
pub open spec fn chosen(a: Action, sel: Selection) -> bool {
    match a {
        Action::Move(d) => d.target_pos == sel.focus && sel.selected_command is None,
        Action::Jump(d) => d.target_pos == sel.focus && sel.selected_command is None,
        Action::Slide(d) => d.target_pos == sel.focus && sel.selected_command is None,
        Action::JumpSlide(d) => d.target_pos == sel.focus && sel.selected_command is None,
        Action::Strike(d) => d.target_pos == sel.focus && sel.selected_command is None,
        Action::Command(cd) => cd.target_pos == sel.focus && sel.selected_command == Some(cd.command_tile_pos),
        _ => false,
    }
}

/// The index of the first action of `s` that the selection asks for, or
/// `s.len()`.
pub open spec fn first_chosen(s: Seq<Action>, sel: Selection) -> int {
    if exists|i: int| 0 <= i < s.len() && chosen(s[i], sel) {
        choose|i: int| 0 <= i < s.len() && chosen(s[i], sel) && forall|j: int| 0 <= j < i ==> !chosen(s[j], sel)
    } else {
        s.len() as int
    }
}

/// Whether the selection asks for `a`, as `chosen` says.
fn is_chosen(a: &Action, sel: &Selection) -> (r: bool)
    ensures
        r == chosen(*a, *sel),
{
    match *a {
        Action::Move(d) => d.target_pos == sel.focus && sel.selected_command.is_none(),
        Action::Jump(d) => d.target_pos == sel.focus && sel.selected_command.is_none(),
        Action::Slide(d) => d.target_pos == sel.focus && sel.selected_command.is_none(),
        Action::JumpSlide(d) => d.target_pos == sel.focus && sel.selected_command.is_none(),
        Action::Strike(d) => d.target_pos == sel.focus && sel.selected_command.is_none(),
        Action::Command(cd) => cd.target_pos == sel.focus && sel.selected_command == Some(cd.command_tile_pos),
        _ => false,
    }
}

/// Whether the focused tile may be chosen as the one to command: a tile is
/// selected, none is chosen to be commanded yet, and the selected tile has a
/// command of the focused one.
pub fn can_command_tile(state: &GameState, sel: &Selection) -> (r: bool)
    requires
        shaped(state@),
        sel.selected matches Some(p) ==> on_board(p),
    ensures
        r == (sel.selected matches Some(p) && sel.selected_command is None && exists|i: int|
            0 <= i < actions_of_tile(state@, p).len() && commands(
                #[trigger] actions_of_tile(state@, p)[i],
                sel.focus,
            )),
{
    let p = match sel.selected {
        Some(p) => p,
        None => {
            return false;
        },
    };
    if sel.selected_command.is_some() {
        return false;
    }
    let actions = get_tile_actions(state, p);
    let ghost acts = actions@;
    let mut i: usize = 0;
    while i < actions.len() && !is_command_of(&actions[i], sel.focus)
        invariant
            actions@ == acts,
            i <= actions.len(),
            forall|j: int| 0 <= j < i ==> !commands(#[trigger] acts[j], sel.focus),
        decreases actions.len() - i,
    {
        i = i + 1;
    }
    i < actions.len()
}

/// Whether `a` commands the tile at `c`, as `commands` says.
fn is_command_of(a: &Action, c: Coordinate) -> (r: bool)
    ensures
        r == commands(*a, c),
{
    match *a {
        Action::Command(cd) => cd.command_tile_pos == c,
        _ => false,
    }
}

/// Carries out the first action of the selected tile that the selection asks
/// for, if any, and then clears the selection; returns whether one was
/// carried out.
pub fn try_tile_action(state: &mut GameState, sel: &mut Selection) -> (r: bool)
    requires
        shaped(old(state)@),
        old(sel).selected matches Some(p) ==> on_board(p) && (tile_at(old(state)@, p) is None || owns(
            old(state)@,
            p,
            old(state)@.ply,
        )),
    ensures
        shaped(final(state)@),
        r == (old(sel).selected matches Some(p) && first_chosen(actions_of_tile(old(state)@, p), *old(sel))
            < actions_of_tile(old(state)@, p).len()),
        r ==> (old(sel).selected matches Some(p) && applied_some_draw(
            old(state)@,
            actions_of_tile(old(state)@, p)[first_chosen(actions_of_tile(old(state)@, p), *old(sel))],
            final(state)@,
        ) && final(sel).selected is None && final(sel).selected_command is None && final(sel).focus == old(sel).focus),
        !r ==> *final(state) == *old(state) && *final(sel) == *old(sel),
{
    let p = match sel.selected {
        Some(p) => p,
        None => {
            return false;
        },
    };
    if state.square(p).tile.is_none() {
        return false;
    }
    let ghost v = state@;
    let actions = get_tile_actions(state, p);
    proof {
        lemma_tile_actions_ok(v, p);
    }
    let ghost acts = actions@;
    let mut i: usize = 0;
    while i < actions.len() && !is_chosen(&actions[i], sel)
        invariant
            actions@ == acts,
            i <= actions.len(),
            forall|j: int| 0 <= j < i ==> !chosen(#[trigger] acts[j], *sel),
        decreases actions.len() - i,
    {
        i = i + 1;
    }
    if i == actions.len() {
        proof {
            assert(!(exists|j: int| 0 <= j < acts.len() && chosen(acts[j], *sel)));
        }
        return false;
    }
    proof {
        assert(chosen(acts[i as int], *sel));
        assert(first_chosen(acts, *sel) == i) by {
            let k = first_chosen(acts, *sel);
            if k < i {
                assert(!chosen(acts[k], *sel));
            }
            if k > i {
                assert(!chosen(acts[i as int], *sel));
            }
        }
        assert(action_ok(v, acts[i as int]));
    }
    do_unsafe_action(state, &actions[i]);
    sel.selected = None;
    sel.selected_command = None;
    true
}

/// Draws a tile from the bag if that is a legal action; returns whether it
/// was.
pub fn draw_new_tile(state: &mut GameState) -> (r: bool)
    requires
        shaped(old(state)@),
        spawn_defined(old(state)@),
    ensures
        shaped(final(state)@),
        r == legal_actions(old(state)@).contains(Action::NewFromBag),
        r ==> applied_some_draw(old(state)@, Action::NewFromBag, final(state)@),
        !r ==> *final(state) == *old(state),
{
    let ghost v = state@;
    let actions = get_actions(state);
    proof {
        lemma_legal_actions_ok(v);
    }
    let ghost acts = actions@;
    let mut i: usize = 0;
    while i < actions.len()
        invariant
            v == state@,
            *state == *old(state),
            shaped(v),
            actions@ == acts,
            acts == legal_actions(v),
            all_ok(v, acts),
            i <= actions.len(),
            forall|j: int| 0 <= j < i ==> #[trigger] acts[j] != Action::NewFromBag,
        decreases actions.len() - i,
    {
        if actions[i] == Action::NewFromBag {
            proof {
                assert(action_ok(v, acts[i as int]));
                assert(acts.contains(Action::NewFromBag));
            }
            do_unsafe_action(state, &Action::NewFromBag);
            return true;
        }
        i = i + 1;
    }
    proof {
        assert(!acts.contains(Action::NewFromBag));
    }
    false
}

/// Places the drawn tile on the focused square if that is a legal action;
/// returns whether it was.
pub fn place_new_tile(state: &mut GameState, focus: Coordinate) -> (r: bool)
    requires
        shaped(old(state)@),
        spawn_defined(old(state)@),
    ensures
        shaped(final(state)@),
        r == legal_actions(old(state)@).contains(Action::PlaceNew(focus)),
        r ==> applied_some_draw(old(state)@, Action::PlaceNew(focus), final(state)@),
        !r ==> *final(state) == *old(state),
{
    let ghost v = state@;
    let actions = get_actions(state);
    proof {
        lemma_legal_actions_ok(v);
    }
    let ghost acts = actions@;
    let mut i: usize = 0;
    while i < actions.len()
        invariant
            v == state@,
            *state == *old(state),
            shaped(v),
            actions@ == acts,
            acts == legal_actions(v),
            all_ok(v, acts),
            i <= actions.len(),
            forall|j: int| 0 <= j < i ==> #[trigger] acts[j] != Action::PlaceNew(focus),
        decreases actions.len() - i,
    {
        if actions[i] == Action::PlaceNew(focus) {
            proof {
                assert(action_ok(v, acts[i as int]));
                assert(acts.contains(Action::PlaceNew(focus)));
            }
            do_unsafe_action(state, &actions[i]);
            return true;
        }
        i = i + 1;
    }
    proof {
        assert(!acts.contains(Action::PlaceNew(focus)));
    }
    false
}

} // verus!
