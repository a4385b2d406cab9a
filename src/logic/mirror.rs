//! A game turned half a turn with the colours swapped offers the same tile
//! actions, turned the same way.

use vstd::prelude::*;
use crate::logic::catalog::{inverted_action, lemma_catalog_small, black_vocab, vocab};
use crate::logic::catalog::small_offsets;
use crate::logic::enumerate::{actions_of_tile, actions_seq, command_one, command_seq, jump_action, one_action, move_action, opt_seq, outcome, slide_actions, slide_walk, strike_action};
use crate::logic::paths::{blocked, can_act, cell, corner, holds_color, is_straight, segment_blocked, step_blocks, steps};
use crate::logic::{at, direction_of, effects_at, in_board, on_board, opponent, shaped, tile_at, Action, ActionData, ActionType, AvailableAction, CommandActionData, Coordinate, StateView, Tile, TileColor};

verus! {

/// The square half a turn round the centre of the board.
pub open spec fn mirror(c: Coordinate) -> Coordinate {
    at(5 - c.x, 5 - c.y)
}

/// The tile with its colour swapped.
pub open spec fn recolor(t: Tile) -> Tile {
    Tile { color: opponent(t.color), ..t }
}

/// The square's tile with its colour swapped.
pub open spec fn recolor_opt(o: Option<Tile>) -> Option<Tile> {
    match o {
        Some(t) => Some(recolor(t)),
        None => None,
    }
}

/// `w` is `v` turned half a turn with every tile's colour swapped.
pub open spec fn mirrored(v: StateView, w: StateView) -> bool {
    &&& shaped(v)
    &&& shaped(w)
    &&& forall|c: Coordinate| on_board(c) ==> #[trigger] tile_at(w, mirror(c)) == recolor_opt(tile_at(v, c))
    &&& forall|c: Coordinate| on_board(c) ==> #[trigger] effects_at(w, mirror(c)) == effects_at(v, c)
}

proof fn lemma_mirror_steps(a: Coordinate, b: Coordinate)
    requires
        on_board(a),
        on_board(b),
    ensures
        is_straight(mirror(a), mirror(b)) == is_straight(a, b),
        steps(mirror(a), mirror(b)) == steps(a, b),
{
}

proof fn lemma_mirror_cell(a: Coordinate, b: Coordinate, k: int)
    requires
        on_board(a),
        on_board(b),
        is_straight(a, b),
        1 <= k <= steps(a, b),
    ensures
        is_straight(mirror(a), mirror(b)),
        steps(mirror(a), mirror(b)) == steps(a, b),
        on_board(cell(a, b, k)),
        cell(mirror(a), mirror(b), k) == mirror(cell(a, b, k)),
{
}

proof fn lemma_mirror_segment(
    v: StateView,
    w: StateView,
    color: TileColor,
    kind: ActionType,
    a: Coordinate,
    b: Coordinate,
    ends: bool,
)
    requires
        mirrored(v, w),
        on_board(a),
        on_board(b),
        is_straight(a, b),
    ensures
        segment_blocked(w, opponent(color), kind, mirror(a), mirror(b), ends) == segment_blocked(v, color, kind, a, b, ends),
{
    lemma_mirror_steps(a, b);
    if segment_blocked(v, color, kind, a, b, ends) {
        let k = choose|k: int| 1 <= k <= steps(a, b) && step_blocks(v, color, kind, #[trigger] cell(a, b, k), ends && k == steps(a, b));
        lemma_mirror_cell(a, b, k);
        let c = cell(a, b, k);
        assert(tile_at(w, mirror(c)) == recolor_opt(tile_at(v, c)));
        assert(effects_at(w, mirror(c)) == effects_at(v, c));
        assert(step_blocks(w, opponent(color), kind, cell(mirror(a), mirror(b), k), ends && k == steps(mirror(a), mirror(b))));
    }
    if segment_blocked(w, opponent(color), kind, mirror(a), mirror(b), ends) {
        let k = choose|k: int|
            1 <= k <= steps(mirror(a), mirror(b)) && step_blocks(
                w,
                opponent(color),
                kind,
                #[trigger] cell(mirror(a), mirror(b), k),
                ends && k == steps(mirror(a), mirror(b)),
            );
        lemma_mirror_cell(a, b, k);
        let c = cell(a, b, k);
        assert(tile_at(w, mirror(c)) == recolor_opt(tile_at(v, c)));
        assert(effects_at(w, mirror(c)) == effects_at(v, c));
        assert(step_blocks(v, color, kind, cell(a, b, k), ends && k == steps(a, b)));
    }
}

/// Blocking does not change when the game is turned and recoloured.
pub proof fn lemma_mirror_blocked(v: StateView, w: StateView, color: TileColor, kind: ActionType, a: Coordinate, b: Coordinate)
    requires
        mirrored(v, w),
        on_board(a),
        on_board(b),
    ensures
        blocked(w, opponent(color), kind, mirror(a), mirror(b)) == blocked(v, color, kind, a, b),
{
    if is_straight(a, b) {
        lemma_mirror_segment(v, w, color, kind, a, b, true);
    } else {
        lemma_mirror_steps(a, b);
        assert(corner(mirror(a), mirror(b), true) == mirror(corner(a, b, true)));
        assert(corner(mirror(a), mirror(b), false) == mirror(corner(a, b, false)));
        lemma_mirror_segment(v, w, color, kind, a, corner(a, b, true), false);
        lemma_mirror_segment(v, w, color, kind, corner(a, b, true), b, true);
        lemma_mirror_segment(v, w, color, kind, a, corner(a, b, false), false);
        lemma_mirror_segment(v, w, color, kind, corner(a, b, false), b, true);
    }
}

/// The action data turned half a turn.
pub open spec fn mirror_data(d: ActionData) -> ActionData {
    ActionData { tile_pos: mirror(d.tile_pos), target_pos: mirror(d.target_pos), result: d.result }
}

/// The action turned half a turn.
pub open spec fn mirror_action(a: Action) -> Action {
    match a {
        Action::NewFromBag => Action::NewFromBag,
        Action::PlaceNew(c) => Action::PlaceNew(mirror(c)),
        Action::Move(d) => Action::Move(mirror_data(d)),
        Action::Jump(d) => Action::Jump(mirror_data(d)),
        Action::JumpSlide(d) => Action::JumpSlide(mirror_data(d)),
        Action::Slide(d) => Action::Slide(mirror_data(d)),
        Action::Strike(d) => Action::Strike(mirror_data(d)),
        Action::Command(cd) => Action::Command(
            CommandActionData {
                tile_pos: mirror(cd.tile_pos),
                command_tile_pos: mirror(cd.command_tile_pos),
                target_pos: mirror(cd.target_pos),
                result: cd.result,
            },
        ),
    }
}

proof fn lemma_mirror_outcome(v: StateView, w: StateView, color: TileColor, c: Coordinate)
    requires
        mirrored(v, w),
        on_board(c),
    ensures
        outcome(w, opponent(color), mirror(c)) == outcome(v, color, c),
{
    assert(tile_at(w, mirror(c)) == recolor_opt(tile_at(v, c)));
}

proof fn lemma_mirror_single(v: StateView, w: StateView, p: Coordinate, t: Tile, target: Coordinate)
    requires
        mirrored(v, w),
        on_board(p),
        on_board(target),
    ensures
        opt_seq(move_action(w, mirror(p), recolor(t), mirror(target))) == opt_seq(move_action(v, p, t, target)).map_values(
            |a: Action| mirror_action(a),
        ),
        opt_seq(jump_action(w, mirror(p), recolor(t), mirror(target))) == opt_seq(jump_action(v, p, t, target)).map_values(
            |a: Action| mirror_action(a),
        ),
        opt_seq(strike_action(w, mirror(p), recolor(t), mirror(target))) == opt_seq(strike_action(v, p, t, target)).map_values(
            |a: Action| mirror_action(a),
        ),
{
    lemma_mirror_blocked(v, w, t.color, ActionType::Move, p, target);
    lemma_mirror_blocked(v, w, t.color, ActionType::Jump, p, target);
    lemma_mirror_outcome(v, w, t.color, target);
    assert(opt_seq(move_action(w, mirror(p), recolor(t), mirror(target))) =~= opt_seq(move_action(v, p, t, target)).map_values(
        |a: Action| mirror_action(a),
    ));
    assert(opt_seq(jump_action(w, mirror(p), recolor(t), mirror(target))) =~= opt_seq(jump_action(v, p, t, target)).map_values(
        |a: Action| mirror_action(a),
    ));
    assert(opt_seq(strike_action(w, mirror(p), recolor(t), mirror(target))) =~= opt_seq(strike_action(v, p, t, target)).map_values(
        |a: Action| mirror_action(a),
    ));
}

proof fn lemma_mirror_walk(
    v: StateView,
    w: StateView,
    p: Coordinate,
    t: Tile,
    dx: int,
    dy: int,
    x: int,
    y: int,
    js: bool,
    fuel: nat,
)
    requires
        mirrored(v, w),
        on_board(p),
    ensures
        slide_walk(w, mirror(p), recolor(t), -dx, -dy, 5 - x, 5 - y, js, fuel) == slide_walk(v, p, t, dx, dy, x, y, js, fuel).map_values(
            |a: Action| mirror_action(a),
        ),
    decreases fuel,
{
    let lhs = slide_walk(w, mirror(p), recolor(t), -dx, -dy, 5 - x, 5 - y, js, fuel);
    let rhs = slide_walk(v, p, t, dx, dy, x, y, js, fuel);
    if fuel > 0 && in_board(x, y) {
        let c = at(x, y);
        assert(at(5 - x, 5 - y) == mirror(c));
        assert(tile_at(w, mirror(c)) == recolor_opt(tile_at(v, c)));
        assert(effects_at(w, mirror(c)) == effects_at(v, c));
        lemma_mirror_walk(v, w, p, t, dx, dy, x + dx, y + dy, js, (fuel - 1) as nat);
        assert(5 - x + -dx == 5 - (x + dx));
        assert(5 - y + -dy == 5 - (y + dy));
        assert(lhs =~= rhs.map_values(|a: Action| mirror_action(a)));
    } else {
        assert(lhs =~= rhs.map_values(|a: Action| mirror_action(a)));
    }
}

proof fn lemma_mirror_slides(v: StateView, w: StateView, p: Coordinate, t: Tile, js: bool, start: Coordinate)
    requires
        mirrored(v, w),
        on_board(p),
        on_board(start),
    ensures
        slide_actions(w, mirror(p), recolor(t), js, mirror(start)) == slide_actions(v, p, t, js, start).map_values(
            |a: Action| mirror_action(a),
        ),
{
    lemma_mirror_blocked(v, w, t.color, ActionType::Jump, p, start);
    let d = direction_of(p, start);
    let e = direction_of(mirror(p), mirror(start));
    assert(e.x as int == -(d.x as int) && e.y as int == -(d.y as int));
    lemma_mirror_walk(v, w, p, t, d.x as int, d.y as int, start.x as int, start.y as int, js, 6);
    assert(mirror(start).x as int == 5 - start.x && mirror(start).y as int == 5 - start.y);
    if js && blocked(v, t.color, ActionType::Jump, p, start) {
        assert(slide_actions(v, p, t, js, start).map_values(|a: Action| mirror_action(a)) =~= Seq::<Action>::empty());
    }
}

proof fn lemma_mirror_command_seq(v: StateView, w: StateView, p: Coordinate, t: Tile, target: Coordinate, voc: Seq<AvailableAction>)
    requires
        mirrored(v, w),
        on_board(p),
        on_board(target),
        small_offsets(voc),
    ensures
        command_seq(w, mirror(p), recolor(t), mirror(target), voc.map_values(|a: AvailableAction| inverted_action(a)))
            == command_seq(v, p, t, target, voc).map_values(|a: Action| mirror_action(a)),
    decreases voc.len(),
{
    let iv = voc.map_values(|a: AvailableAction| inverted_action(a));
    if voc.len() > 0 {
        let init = voc.drop_last();
        assert(small_offsets(init)) by {
            assert forall|i: int| 0 <= i < init.len() implies #[trigger] init[i] == voc[i] by {}
        }
        lemma_mirror_command_seq(v, w, p, t, target, init);
        assert(iv.drop_last() =~= init.map_values(|a: AvailableAction| inverted_action(a)));
        let a = voc.last();
        assert(a == voc[voc.len() - 1]);
        assert(iv.last() == inverted_action(a));
        let x = p.x + a.offset.x;
        let y = p.y + a.offset.y;
        let ia = inverted_action(a);
        assert(ia.offset.x as int == -(a.offset.x as int) && ia.offset.y as int == -(a.offset.y as int));
        assert(mirror(p).x + ia.offset.x == 5 - x && mirror(p).y + ia.offset.y == 5 - y);
        if in_board(x, y) {
            assert(at(5 - x, 5 - y) == mirror(at(x, y)));
            lemma_mirror_outcome(v, w, t.color, at(x, y));
        }
        let prev = command_seq(v, p, t, target, init);
        let one = command_one(v, p, t, target, a);
        assert(command_one(w, mirror(p), recolor(t), mirror(target), ia) =~= one.map_values(|a: Action| mirror_action(a)));
        assert((prev + one).map_values(|a: Action| mirror_action(a)) =~= prev.map_values(|a: Action| mirror_action(a))
            + one.map_values(|a: Action| mirror_action(a)));
    } else {
        assert(command_seq(v, p, t, target, voc).map_values(|a: Action| mirror_action(a)) =~= Seq::<Action>::empty());
    }
}

/// The vocabulary of the other colour is this one with every offset negated.
proof fn lemma_vocab_recolor(t: Tile)
    ensures
        vocab(recolor(t)) == vocab(t).map_values(|a: AvailableAction| inverted_action(a)),
        small_offsets(vocab(t)),
{
    lemma_catalog_small(t.kind, t.flipped);
    crate::logic::catalog::lemma_vocab_small(t);
    let b = black_vocab(t.kind, t.flipped);
    if t.color == TileColor::White {
        let once = b.map_values(|a: AvailableAction| inverted_action(a));
        let twice = once.map_values(|a: AvailableAction| inverted_action(a));
        assert(twice =~= b) by {
            assert forall|i: int| 0 <= i < b.len() implies #[trigger] twice[i] == b[i] by {
                assert(-2 <= b[i].offset.x <= 2 && -2 <= b[i].offset.y <= 2);
            }
        }
    }
}

proof fn lemma_mirror_actions_seq(v: StateView, w: StateView, p: Coordinate, t: Tile, voc: Seq<AvailableAction>)
    requires
        mirrored(v, w),
        on_board(p),
        small_offsets(voc),
    ensures
        actions_seq(w, mirror(p), recolor(t), voc.map_values(|a: AvailableAction| inverted_action(a)))
            == actions_seq(v, p, t, voc).map_values(|a: Action| mirror_action(a)),
    decreases voc.len(),
{
    let iv = voc.map_values(|a: AvailableAction| inverted_action(a));
    if voc.len() > 0 {
        let init = voc.drop_last();
        assert(small_offsets(init)) by {
            assert forall|i: int| 0 <= i < init.len() implies #[trigger] init[i] == voc[i] by {}
        }
        lemma_mirror_actions_seq(v, w, p, t, init);
        assert(iv.drop_last() =~= init.map_values(|a: AvailableAction| inverted_action(a)));
        let a = voc.last();
        assert(a == voc[voc.len() - 1]);
        assert(iv.last() == inverted_action(a));
        let x = p.x + a.offset.x;
        let y = p.y + a.offset.y;
        let ia = inverted_action(a);
        assert(ia.offset.x as int == -(a.offset.x as int) && ia.offset.y as int == -(a.offset.y as int));
        assert(mirror(p).x + ia.offset.x == 5 - x && mirror(p).y + ia.offset.y == 5 - y);
        let one = one_action(v, p, t, a);
        if in_board(x, y) {
            let target = at(x, y);
            assert(at(5 - x, 5 - y) == mirror(target));
            lemma_mirror_single(v, w, p, t, target);
            lemma_mirror_slides(v, w, p, t, true, target);
            lemma_mirror_slides(v, w, p, t, false, target);
            lemma_vocab_recolor(t);
            lemma_mirror_command_seq(v, w, p, t, target, vocab(t));
            assert(tile_at(w, mirror(target)) == recolor_opt(tile_at(v, target)));
            assert(holds_color(w, mirror(target), opponent(t.color)) == holds_color(v, target, t.color));
            if !holds_color(v, target, t.color) {
                assert(seq![].map_values(|a: Action| mirror_action(a)) =~= Seq::<Action>::empty());
            }
            if a.kind == ActionType::NewFromBag || a.kind == ActionType::PlaceNew {
                assert(one.map_values(|a: Action| mirror_action(a)) =~= Seq::<Action>::empty());
            }
            assert(one_action(w, mirror(p), recolor(t), ia) == one.map_values(|a: Action| mirror_action(a)));
        } else {
            assert(one.map_values(|a: Action| mirror_action(a)) =~= Seq::<Action>::empty());
        }
        let prev = actions_seq(v, p, t, init);
        assert((prev + one).map_values(|a: Action| mirror_action(a)) =~= prev.map_values(|a: Action| mirror_action(a))
            + one.map_values(|a: Action| mirror_action(a)));
    } else {
        assert(actions_seq(v, p, t, voc).map_values(|a: Action| mirror_action(a)) =~= Seq::<Action>::empty());
    }
}

/// Mirror symmetry of a tile's actions: in a game turned half a turn round
/// the centre with every colour swapped, the tile on the turned square has
/// exactly the turned actions, in the same order. (White's vocabulary is
/// Black's with every offset negated.)
pub proof fn lemma_mirror_tile_actions(v: StateView, w: StateView, p: Coordinate)
    requires
        mirrored(v, w),
        w.game_over is Some == v.game_over is Some,
        on_board(p),
    ensures
        actions_of_tile(w, mirror(p)) == actions_of_tile(v, p).map_values(|a: Action| mirror_action(a)),
{
    assert(tile_at(w, mirror(p)) == recolor_opt(tile_at(v, p)));
    assert(effects_at(w, mirror(p)) == effects_at(v, p));
    let acting = v.game_over is None && tile_at(v, p) is Some && can_act(v, p, tile_at(v, p).unwrap());
    if acting {
        let t = tile_at(v, p).unwrap();
        assert(can_act(w, mirror(p), recolor(t)) == can_act(v, p, t));
        lemma_vocab_recolor(t);
        lemma_mirror_actions_seq(v, w, p, t, vocab(t));
    } else {
        if let Some(t) = tile_at(v, p) {
            assert(can_act(w, mirror(p), recolor(t)) == can_act(v, p, t));
        }
        assert(actions_of_tile(v, p).map_values(|a: Action| mirror_action(a)) =~= Seq::<Action>::empty());
    }
}

} // verus!
