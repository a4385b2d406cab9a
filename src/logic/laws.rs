//! Laws of the rules engine, proved over the spec functions that the engine's
//! functions are held to.

use vstd::prelude::*;
use crate::logic::apply::{action_ok, added_effects, applied, cleared_effects, lemma_no_effects, moved, owns, target_ok};
use crate::logic::catalog::{lemma_vocab_small, nonzero_offsets, vocab};
use crate::logic::enumerate::{actions_of_tile, actions_seq, board_actions, cell_actions, command_one, command_seq, data, free_neighbour, legal_actions, move_action, one_action, outcome, slide_act, slide_walk, spawn_squares};
use crate::logic::paths::{blocked, can_act, cell, has_defence, holds_color, is_straight, step_blocks, steps};
use crate::logic::{at, in_board, on_board, opponent, own_bag, own_drawn, own_duke, shaped, tile_at, Action, ActionData, ActionResult, Direction, ActionType, AvailableAction, Coordinate, StateView, Tile};

verus! {

/// Every action of `s` fits the game `v`.
pub open spec fn all_ok(v: StateView, s: Seq<Action>) -> bool {
    forall|i: int| 0 <= i < s.len() ==> action_ok(v, #[trigger] s[i])
}

/// The tile `t` stands at `pos` and belongs to the side to move, in a game
/// that goes on.
pub open spec fn mover(v: StateView, pos: Coordinate, t: Tile) -> bool {
    shaped(v) && on_board(pos) && tile_at(v, pos) == Some(t) && t.color == v.ply && v.game_over is None
}

proof fn lemma_concat_ok(v: StateView, a: Seq<Action>, b: Seq<Action>)
    requires
        all_ok(v, a),
        all_ok(v, b),
    ensures
        all_ok(v, a + b),
{
    assert forall|i: int| 0 <= i < (a + b).len() implies action_ok(v, #[trigger] (a + b)[i]) by {
        if i < a.len() {
            assert((a + b)[i] == a[i]);
        } else {
            assert((a + b)[i] == b[i - a.len()]);
        }
    }
}

proof fn lemma_outcome_ok(v: StateView, t: Tile, c: Coordinate)
    requires
        t.color == v.ply,
        outcome(v, t.color, c) is Some,
    ensures
        target_ok(v, c, outcome(v, t.color, c).unwrap()),
{
    if let Some(b) = tile_at(v, c) {
        assert(b.color == opponent(v.ply));
    }
}

proof fn lemma_slide_walk_ok(
    v: StateView,
    pos: Coordinate,
    t: Tile,
    dx: int,
    dy: int,
    x: int,
    y: int,
    js: bool,
    fuel: nat,
)
    requires
        mover(v, pos, t),
    ensures
        all_ok(v, slide_walk(v, pos, t, dx, dy, x, y, js, fuel)),
    decreases fuel,
{
    if fuel == 0 || !in_board(x, y) {
    } else {
        let c = at(x, y);
        lemma_slide_walk_ok(v, pos, t, dx, dy, x + dx, y + dy, js, (fuel - 1) as nat);
        if let Some(b) = tile_at(v, c) {
            assert(b.color == opponent(v.ply) || b.color == t.color);
        } else {
            let rest = slide_walk(v, pos, t, dx, dy, x + dx, y + dy, js, (fuel - 1) as nat);
            lemma_concat_ok(v, seq![slide_act(js, data(pos, c, ActionResult::Move))], rest);
        }
    }
}

proof fn lemma_command_seq_ok(v: StateView, pos: Coordinate, t: Tile, target: Coordinate, voc: Seq<AvailableAction>)
    requires
        mover(v, pos, t),
        on_board(target),
        target != pos,
        holds_color(v, target, t.color),
    ensures
        all_ok(v, command_seq(v, pos, t, target, voc)),
    decreases voc.len(),
{
    if voc.len() > 0 {
        lemma_command_seq_ok(v, pos, t, target, voc.drop_last());
        let a = voc.last();
        let x = pos.x + a.offset.x;
        let y = pos.y + a.offset.y;
        if a.kind == ActionType::Command && in_board(x, y) {
            if outcome(v, t.color, at(x, y)) is Some {
                lemma_outcome_ok(v, t, at(x, y));
            }
        }
        lemma_concat_ok(v, command_seq(v, pos, t, target, voc.drop_last()), command_one(v, pos, t, target, a));
    }
}

proof fn lemma_one_action_ok(v: StateView, pos: Coordinate, t: Tile, a: AvailableAction)
    requires
        mover(v, pos, t),
        a.offset.x != 0 || a.offset.y != 0,
    ensures
        all_ok(v, one_action(v, pos, t, a)),
{
    let x = pos.x + a.offset.x;
    let y = pos.y + a.offset.y;
    if in_board(x, y) {
        let target = at(x, y);
        if outcome(v, t.color, target) is Some {
            lemma_outcome_ok(v, t, target);
        }
        match a.kind {
            ActionType::JumpSlide | ActionType::Slide => {
                let js = a.kind == ActionType::JumpSlide;
                let d = crate::logic::direction_of(pos, target);
                lemma_slide_walk_ok(v, pos, t, d.x as int, d.y as int, target.x as int, target.y as int, js, 6);
            },
            ActionType::Command => {
                if holds_color(v, target, t.color) {
                    lemma_command_seq_ok(v, pos, t, target, vocab(t));
                }
            },
            _ => {},
        }
    }
}

proof fn lemma_actions_seq_ok(v: StateView, pos: Coordinate, t: Tile, voc: Seq<AvailableAction>)
    requires
        mover(v, pos, t),
        nonzero_offsets(voc),
    ensures
        all_ok(v, actions_seq(v, pos, t, voc)),
    decreases voc.len(),
{
    if voc.len() > 0 {
        assert(nonzero_offsets(voc.drop_last())) by {
            assert forall|i: int| 0 <= i < voc.drop_last().len() implies (#[trigger] voc.drop_last()[i].offset.x
                != 0 || voc.drop_last()[i].offset.y != 0) by {
                assert(voc.drop_last()[i] == voc[i]);
            }
        }
        lemma_actions_seq_ok(v, pos, t, voc.drop_last());
        assert(voc.last() == voc[voc.len() - 1]);
        lemma_one_action_ok(v, pos, t, voc.last());
        lemma_concat_ok(v, actions_seq(v, pos, t, voc.drop_last()), one_action(v, pos, t, voc.last()));
    }
}

/// Every action of a tile of the side to move fits the game.
pub proof fn lemma_tile_actions_ok(v: StateView, pos: Coordinate)
    requires
        shaped(v),
        on_board(pos),
        owns(v, pos, v.ply),
    ensures
        all_ok(v, actions_of_tile(v, pos)),
{
    if v.game_over is None {
        let t = tile_at(v, pos).unwrap();
        lemma_vocab_small(t);
        lemma_actions_seq_ok(v, pos, t, vocab(t));
    }
}

proof fn lemma_board_actions_ok(v: StateView, n: int)
    requires
        shaped(v),
        n <= 36,
    ensures
        all_ok(v, board_actions(v, n)),
    decreases n,
{
    if n > 0 {
        lemma_board_actions_ok(v, n - 1);
        let k = n - 1;
        let c = at(k % 6, k / 6);
        if let Some(t) = tile_at(v, c) {
            if t.color == v.ply {
                lemma_tile_actions_ok(v, c);
            }
        }
        lemma_concat_ok(v, board_actions(v, n - 1), cell_actions(v, n - 1));
    }
}

proof fn lemma_spawn_on_board(v: StateView)
    requires
        shaped(v),
    ensures
        forall|i: int| 0 <= i < spawn_squares(v).len() ==> on_board(#[trigger] spawn_squares(v)[i]),
{
    if v.game_over is None {
        if own_duke(v) is None {
            assert(on_board(at(2, 0)) && on_board(at(3, 0)) && on_board(at(2, 5)) && on_board(at(3, 5)));
        }
        if let Some(d) = own_duke(v) {
            let a = free_neighbour(v, d, 1, 0);
            let b = free_neighbour(v, d, -1, 0);
            let c = free_neighbour(v, d, 0, 1);
            let e = free_neighbour(v, d, 0, -1);
            assert(spawn_squares(v) == a + b + c + e);
            assert forall|i: int| 0 <= i < spawn_squares(v).len() implies on_board(#[trigger] spawn_squares(v)[i]) by {
                let s = spawn_squares(v);
                if i < a.len() {
                    assert(s[i] == a[i]);
                } else if i < a.len() + b.len() {
                    assert(s[i] == b[i - a.len()]);
                } else if i < a.len() + b.len() + c.len() {
                    assert(s[i] == c[i - a.len() - b.len()]);
                } else {
                    assert(s[i] == e[i - a.len() - b.len() - c.len()]);
                }
            }
        }
    }
}

/// Every legal action fits the game: what applying it needs holds.
pub proof fn lemma_legal_actions_ok(v: StateView)
    requires
        shaped(v),
    ensures
        all_ok(v, legal_actions(v)),
{
    if v.game_over is None {
        if own_drawn(v).len() > 0 {
            lemma_spawn_on_board(v);
            let s = legal_actions(v);
            assert forall|i: int| 0 <= i < s.len() implies action_ok(v, #[trigger] s[i]) by {
                assert(s.len() == spawn_squares(v).len());
                assert(s[i] == Action::PlaceNew(spawn_squares(v)[i]));
                assert(on_board(spawn_squares(v)[i]));
            }
        } else {
            lemma_board_actions_ok(v, 36);
            let head = if spawn_squares(v).len() > 0 && own_bag(v).len() > 0 {
                seq![Action::NewFromBag]
            } else {
                seq![]
            };
            lemma_concat_ok(v, head, board_actions(v, 36));
        }
    }
}

/// Every coordinate named by the action lies on the board.
pub open spec fn coordinates_on_board(a: Action) -> bool {
    match a {
        Action::NewFromBag => true,
        Action::PlaceNew(c) => on_board(c),
        Action::Move(d) => on_board(d.tile_pos) && on_board(d.target_pos),
        Action::Jump(d) => on_board(d.tile_pos) && on_board(d.target_pos),
        Action::JumpSlide(d) => on_board(d.tile_pos) && on_board(d.target_pos),
        Action::Slide(d) => on_board(d.tile_pos) && on_board(d.target_pos),
        Action::Strike(d) => on_board(d.tile_pos) && on_board(d.target_pos),
        Action::Command(d) => on_board(d.tile_pos) && on_board(d.command_tile_pos) && on_board(d.target_pos),
    }
}

/// Every coordinate of every legal action lies on the board.
pub proof fn lemma_legal_coordinates(v: StateView)
    requires
        shaped(v),
    ensures
        forall|i: int| 0 <= i < legal_actions(v).len() ==> coordinates_on_board(#[trigger] legal_actions(v)[i]),
{
    lemma_legal_actions_ok(v);
    assert forall|i: int| 0 <= i < legal_actions(v).len() implies coordinates_on_board(#[trigger] legal_actions(v)[i]) by {
        assert(action_ok(v, legal_actions(v)[i]));
    }
}

/// Applying an action passes the turn to the other side, except a draw from
/// the bag, after which the same side places the drawn tile.
pub proof fn lemma_ply_alternation(v: StateView, a: Action, draw: int)
    ensures
        applied(v, a, draw).ply == (if a == Action::NewFromBag {
            v.ply
        } else {
            opponent(v.ply)
        }),
{
    match a {
        Action::NewFromBag => {},
        Action::PlaceNew(c) => {
            lemma_all_no_effects();
        },
        Action::Move(d) => lemma_moved_ply(v, d),
        Action::Jump(d) => lemma_moved_ply(v, d),
        Action::JumpSlide(d) => lemma_moved_ply(v, d),
        Action::Slide(d) => lemma_moved_ply(v, d),
        Action::Command(d) => {
            lemma_all_no_effects();
        },
        Action::Strike(d) => {
            lemma_all_no_effects();
        },
    }
}

/// No effect is ever projected or taken back, for every game and square.
pub proof fn lemma_all_no_effects()
    ensures
        forall|v: StateView, p: Coordinate| #[trigger] added_effects(v, p) == v,
        forall|v: StateView, p: Coordinate| #[trigger] cleared_effects(v, p) == v,
{
    assert forall|v: StateView, p: Coordinate| #[trigger] added_effects(v, p) == v by {
        lemma_no_effects(v, p);
    }
    assert forall|v: StateView, p: Coordinate| #[trigger] cleared_effects(v, p) == v by {
        lemma_no_effects(v, p);
    }
}

proof fn lemma_moved_ply(v: StateView, d: ActionData)
    ensures
        moved(v, d).ply == v.ply,
{
    lemma_all_no_effects();
}

/// A finished game offers no action: no legal action, no spawn square, and
/// no action for any tile.
pub proof fn lemma_finished_game_is_still(v: StateView, pos: Coordinate)
    requires
        v.game_over is Some,
    ensures
        legal_actions(v) == Seq::<Action>::empty(),
        spawn_squares(v) == Seq::<Coordinate>::empty(),
        actions_of_tile(v, pos) == Seq::<Action>::empty(),
{
}

/// The squares strictly between `a` and `b` on the straight path hold no tile.
pub open spec fn clear_between(v: StateView, a: Coordinate, b: Coordinate) -> bool {
    forall|k: int| 1 <= k < steps(a, b) ==> (#[trigger] tile_at(v, cell(a, b, k))) is None
}

/// What the path-blocking law says of one action: a slide crosses only empty
/// squares; a capturing move crosses only empty squares and ends on a tile of
/// the other colour.
pub open spec fn path_law(v: StateView, a: Action) -> bool {
    match a {
        Action::Slide(d) => clear_between(v, d.tile_pos, d.target_pos),
        Action::Move(d) => d.result == ActionResult::Capture ==> (clear_between(v, d.tile_pos, d.target_pos)
            && opposed(v, d.tile_pos, d.target_pos)),
        _ => true,
    }
}

/// Whether tiles of different colours stand at `a` and `b`.
pub open spec fn opposed(v: StateView, a: Coordinate, b: Coordinate) -> bool {
    tile_at(v, a) is Some && tile_at(v, b) is Some && tile_at(v, a).unwrap().color != tile_at(v, b).unwrap().color
}

/// `k` steps from `a` in the unit direction `d`.
pub open spec fn stepped(a: int, d: int, k: int) -> int {
    if d > 0 {
        a + k
    } else if d < 0 {
        a - k
    } else {
        a
    }
}

/// The square `k` steps from `pos` in the direction `(dx, dy)`.
pub open spec fn ray(pos: Coordinate, dx: int, dy: int, k: int) -> Coordinate {
    at(stepped(pos.x as int, dx, k), stepped(pos.y as int, dy, k))
}

proof fn lemma_ray_cell(pos: Coordinate, dx: int, dy: int, j: int)
    requires
        -1 <= dx <= 1,
        -1 <= dy <= 1,
        dx != 0 || dy != 0,
        j >= 1,
        in_board(stepped(pos.x as int, dx, j), stepped(pos.y as int, dy, j)),
    ensures
        steps(pos, ray(pos, dx, dy, j)) == j,
        forall|k: int| 1 <= k <= j ==> #[trigger] cell(pos, ray(pos, dx, dy, j), k) == ray(pos, dx, dy, k),
{
    let q = ray(pos, dx, dy, j);
    assert(q.x == stepped(pos.x as int, dx, j));
    assert(q.y == stepped(pos.y as int, dy, j));
}

proof fn lemma_walk_clear(v: StateView, pos: Coordinate, t: Tile, dx: int, dy: int, j: int, fuel: nat)
    requires
        shaped(v),
        -1 <= dx <= 1,
        -1 <= dy <= 1,
        dx != 0 || dy != 0,
        j >= 1,
        forall|k: int| 1 <= k < j ==> (#[trigger] tile_at(v, ray(pos, dx, dy, k))) is None,
    ensures
        forall|i: int|
            0 <= i < slide_walk(v, pos, t, dx, dy, stepped(pos.x as int, dx, j), stepped(pos.y as int, dy, j), false, fuel).len()
                ==> path_law(v, #[trigger] slide_walk(v, pos, t, dx, dy, stepped(pos.x as int, dx, j), stepped(pos.y as int, dy, j), false, fuel)[i])
                && slide_walk(v, pos, t, dx, dy, stepped(pos.x as int, dx, j), stepped(pos.y as int, dy, j), false, fuel)[i] is Slide,
    decreases fuel,
{
    let x = stepped(pos.x as int, dx, j);
    let y = stepped(pos.y as int, dy, j);
    let w = slide_walk(v, pos, t, dx, dy, x, y, false, fuel);
    if fuel > 0 && in_board(x, y) {
        let q = at(x, y);
        lemma_ray_cell(pos, dx, dy, j);
        assert(q == ray(pos, dx, dy, j));
        assert(clear_between(v, pos, q)) by {
            assert forall|k: int| 1 <= k < steps(pos, q) implies (#[trigger] tile_at(v, cell(pos, q, k))) is None by {
                assert(cell(pos, q, k) == ray(pos, dx, dy, k));
            }
        }
        if !has_defence(v, q) && tile_at(v, q) is None {
            assert forall|k: int| 1 <= k < j + 1 implies (#[trigger] tile_at(v, ray(pos, dx, dy, k))) is None by {
                if k == j {
                    assert(ray(pos, dx, dy, k) == q);
                }
            }
            lemma_walk_clear(v, pos, t, dx, dy, j + 1, (fuel - 1) as nat);
            assert(stepped(pos.x as int, dx, j + 1) == x + dx);
            assert(stepped(pos.y as int, dy, j + 1) == y + dy);
            let rest = slide_walk(v, pos, t, dx, dy, x + dx, y + dy, false, (fuel - 1) as nat);
            let head = seq![slide_act(false, data(pos, q, ActionResult::Move))];
            assert(w == head + rest);
            assert forall|i: int| 0 <= i < w.len() implies path_law(v, #[trigger] w[i]) && w[i] is Slide by {
                if i > 0 {
                    assert(w[i] == rest[i - 1]);
                }
            }
        }
    }
}

proof fn lemma_jumpslide_kinds(v: StateView, pos: Coordinate, t: Tile, dx: int, dy: int, x: int, y: int, fuel: nat)
    ensures
        forall|i: int| 0 <= i < slide_walk(v, pos, t, dx, dy, x, y, true, fuel).len() ==> (#[trigger] slide_walk(
            v,
            pos,
            t,
            dx,
            dy,
            x,
            y,
            true,
            fuel,
        )[i]) is JumpSlide,
    decreases fuel,
{
    if fuel > 0 && in_board(x, y) {
        lemma_jumpslide_kinds(v, pos, t, dx, dy, x + dx, y + dy, (fuel - 1) as nat);
        let w = slide_walk(v, pos, t, dx, dy, x, y, true, fuel);
        let rest = slide_walk(v, pos, t, dx, dy, x + dx, y + dy, true, (fuel - 1) as nat);
        assert forall|i: int| 0 <= i < w.len() implies (#[trigger] w[i]) is JumpSlide by {
            if i > 0 && !has_defence(v, at(x, y)) && tile_at(v, at(x, y)) is None {
                assert(w[i] == rest[i - 1]);
            }
        }
    }
}

proof fn lemma_command_kinds(v: StateView, pos: Coordinate, t: Tile, target: Coordinate, voc: Seq<AvailableAction>)
    ensures
        forall|i: int| 0 <= i < command_seq(v, pos, t, target, voc).len() ==> (#[trigger] command_seq(
            v,
            pos,
            t,
            target,
            voc,
        )[i]) is Command,
    decreases voc.len(),
{
    if voc.len() > 0 {
        lemma_command_kinds(v, pos, t, target, voc.drop_last());
        let prev = command_seq(v, pos, t, target, voc.drop_last());
        let one = command_one(v, pos, t, target, voc.last());
        assert forall|i: int| 0 <= i < (prev + one).len() implies (#[trigger] (prev + one)[i]) is Command by {
            if i < prev.len() {
                assert((prev + one)[i] == prev[i]);
            } else {
                assert((prev + one)[i] == one[i - prev.len()]);
            }
        }
    }
}

proof fn lemma_actions_seq_paths(v: StateView, pos: Coordinate, t: Tile, voc: Seq<AvailableAction>)
    requires
        shaped(v),
        on_board(pos),
        tile_at(v, pos) == Some(t),
        nonzero_offsets(voc),
        crate::logic::catalog::straight_moves(voc),
    ensures
        forall|i: int| 0 <= i < actions_seq(v, pos, t, voc).len() ==> path_law(v, #[trigger] actions_seq(v, pos, t, voc)[i]),
    decreases voc.len(),
{
    if voc.len() > 0 {
        let init = voc.drop_last();
        assert(nonzero_offsets(init) && crate::logic::catalog::straight_moves(init)) by {
            assert forall|i: int| 0 <= i < init.len() implies #[trigger] init[i] == voc[i] by {}
        }
        lemma_actions_seq_paths(v, pos, t, init);
        let a = voc.last();
        assert(a == voc[voc.len() - 1]);
        let one = one_action(v, pos, t, a);
        let x = pos.x + a.offset.x;
        let y = pos.y + a.offset.y;
        if in_board(x, y) {
            let target = at(x, y);
            if a.kind == ActionType::Move {
                assert(is_straight(pos, target));
                if let Some(m) = move_action(v, pos, t, target) {
                    assert(one == seq![m]);
                    if let Action::Move(d) = m {
                        if d.result == ActionResult::Capture {
                            assert(!crate::logic::paths::segment_blocked(v, t.color, ActionType::Move, pos, target, true));
                            assert forall|k: int| 1 <= k < steps(pos, target) implies (#[trigger] tile_at(v, cell(pos, target, k))) is None by {
                                assert(!step_blocks(v, t.color, ActionType::Move, cell(pos, target, k), k == steps(pos, target)));
                            }
                        }
                    }
                    assert(path_law(v, m));
                }
            } else if a.kind == ActionType::Slide {
                let dx = a.offset.x as int;
                let dy = a.offset.y as int;
                assert(crate::logic::direction_of(pos, target) == Direction { x: dx as i8, y: dy as i8 });
                assert(stepped(pos.x as int, dx, 1) == x && stepped(pos.y as int, dy, 1) == y);
                assert(target.x as int == x && target.y as int == y);
                assert(one == slide_walk(v, pos, t, dx, dy, stepped(pos.x as int, dx, 1), stepped(pos.y as int, dy, 1), false, 6));
                lemma_walk_clear(v, pos, t, dx, dy, 1, 6);
            } else if a.kind == ActionType::JumpSlide {
                if !blocked(v, t.color, ActionType::Jump, pos, target) {
                    let d = crate::logic::direction_of(pos, target);
                    lemma_jumpslide_kinds(v, pos, t, d.x as int, d.y as int, target.x as int, target.y as int, 6);
                }
            } else if a.kind == ActionType::Command {
                if holds_color(v, target, t.color) {
                    lemma_command_kinds(v, pos, t, target, vocab(t));
                }
            }
        }
        assert forall|i: int| 0 <= i < one.len() implies path_law(v, #[trigger] one[i]) by {}
        let prev = actions_seq(v, pos, t, init);
        assert(actions_seq(v, pos, t, voc) == prev + one);
        assert forall|i: int| 0 <= i < (prev + one).len() implies path_law(v, #[trigger] (prev + one)[i]) by {
            if i < prev.len() {
                assert((prev + one)[i] == prev[i]);
            } else {
                assert((prev + one)[i] == one[i - prev.len()]);
            }
        }
    }
}

/// Path-blocking law: every slide of a tile crosses only empty squares, and
/// every capturing move crosses only empty squares and ends on a tile of the
/// other colour.
pub proof fn lemma_path_blocking(v: StateView, pos: Coordinate)
    requires
        shaped(v),
        on_board(pos),
    ensures
        forall|i: int| 0 <= i < actions_of_tile(v, pos).len() ==> path_law(v, #[trigger] actions_of_tile(v, pos)[i]),
{
    if v.game_over is None {
        if let Some(t) = tile_at(v, pos) {
            if can_act(v, pos, t) {
                lemma_vocab_small(t);
                lemma_actions_seq_paths(v, pos, t, vocab(t));
            }
        }
    }
}

} // verus!
