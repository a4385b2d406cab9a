//! No tile appears or vanishes: an action only moves tiles between the board,
//! the bags, the drawn queues and the graveyard.

use vstd::prelude::*;
use vstd::multiset::Multiset;
use crate::logic::apply::{action_ok, applied, captured, commanded, drawn_from_bag, end_turn, lemma_no_effects, moved, placed, struck, with_duke, with_tile};
use crate::logic::enumerate::legal_actions;
use crate::logic::laws::{lemma_legal_actions_ok};
use crate::logic::{at, cidx, on_board, own_bag, own_drawn, shaped, tile_at, Action, ActionData, ActionResult, CommandActionData, Coordinate, SquareView, StateView, Tile, WIDTH};

verus! {

broadcast use vstd::multiset::group_multiset_axioms;

/// A tile as it is counted: whichever side is up.
pub open spec fn identity(t: Tile) -> Tile {
    Tile { flipped: false, ..t }
}

/// The tiles of a sequence, counted.
pub open spec fn ids(s: Seq<Tile>) -> Multiset<Tile> {
    s.map_values(|t: Tile| identity(t)).to_multiset()
}

/// The tile of a square, counted.
pub open spec fn square_tiles(o: Option<Tile>) -> Multiset<Tile> {
    match o {
        Some(t) => Multiset::singleton(identity(t)),
        None => Multiset::empty(),
    }
}

/// The tiles on the first `n` squares of the board, counted row by row.
pub open spec fn board_tiles(b: Seq<Seq<SquareView>>, n: int) -> Multiset<Tile>
    decreases n,
{
    if n <= 0 {
        Multiset::empty()
    } else {
        board_tiles(b, n - 1).add(square_tiles(b[(n - 1) / 6][(n - 1) % 6].tile))
    }
}

/// Every tile of the game, counted: on the board, in the bags, in the drawn
/// queues and in the graveyard.
pub open spec fn all_tiles(v: StateView) -> Multiset<Tile> {
    board_tiles(v.board, 36).add(off_board_tiles(v))
}

/// The tiles in the bags, the drawn queues and the graveyard, counted.
pub open spec fn off_board_tiles(v: StateView) -> Multiset<Tile> {
    ids(v.bags[0]).add(ids(v.bags[1])).add(ids(v.drawn[0])).add(ids(v.drawn[1])).add(ids(v.graveyard))
}

proof fn lemma_ids_push(s: Seq<Tile>, t: Tile)
    ensures
        ids(s.push(t)) == ids(s).insert(identity(t)),
{
    assert(s.push(t).map_values(|t: Tile| identity(t)) =~= s.map_values(|t: Tile| identity(t)).push(identity(t)));
    s.map_values(|t: Tile| identity(t)).to_multiset_ensures();
}

proof fn lemma_ids_drop_last(s: Seq<Tile>)
    requires
        s.len() > 0,
    ensures
        ids(s.drop_last()).insert(identity(s.last())) == ids(s),
{
    assert(s.drop_last().push(s.last()) =~= s);
    lemma_ids_push(s.drop_last(), s.last());
}

proof fn lemma_ids_swap_remove(s: Seq<Tile>, i: int)
    requires
        0 <= i < s.len(),
    ensures
        ids(s.update(i, s.last()).drop_last()).insert(identity(s[i])) == ids(s),
{
    let u = s.update(i, s.last());
    lemma_ids_drop_last(u);
    let m = s.map_values(|t: Tile| identity(t));
    assert(u.map_values(|t: Tile| identity(t)) =~= m.update(i, identity(s.last())));
    vstd::seq_lib::to_multiset_update(m, i, identity(s.last()));
    assert(ids(u) == m.to_multiset().insert(identity(s.last())).remove(identity(s[i])));
    assert(u.last() == s.last());
    m.to_multiset_ensures();
    assert(m[i] == identity(s[i]));
    assert(m.contains(identity(s[i])));
    assert(m.to_multiset().count(identity(s[i])) > 0);
    assert forall|e: Tile| #[trigger] ids(u.drop_last()).insert(identity(s[i])).count(e) == ids(s).count(e) by {
        assert(ids(u.drop_last()).insert(identity(s.last())).count(e) == ids(u).count(e));
    }
    assert(ids(u.drop_last()).insert(identity(s[i])) =~= ids(s));
}

/// Replacing the tile at `c` changes the board's count by that tile only.
proof fn lemma_board_tiles_with_tile(v: StateView, c: Coordinate, t: Option<Tile>, n: int)
    requires
        shaped(v),
        on_board(c),
        0 <= n <= 36,
    ensures
        n > c.y * 6 + c.x ==> board_tiles(with_tile(v, c, t).board, n).add(square_tiles(tile_at(v, c)))
            =~= board_tiles(v.board, n).add(square_tiles(t)),
        n <= c.y * 6 + c.x ==> board_tiles(with_tile(v, c, t).board, n) == board_tiles(v.board, n),
    decreases n,
{
    if n > 0 {
        lemma_board_tiles_with_tile(v, c, t, n - 1);
        let k = n - 1;
        let w = with_tile(v, c, t);
        assert(0 <= k / 6 < 6 && 0 <= k % 6 < 6);
        assert(v.board[k / 6].len() == WIDTH);
        let bw = board_tiles(w.board, n - 1);
        let bv = board_tiles(v.board, n - 1);
        let old_t = square_tiles(tile_at(v, c));
        let new_t = square_tiles(t);
        assert(board_tiles(w.board, n) == bw.add(square_tiles(w.board[k / 6][k % 6].tile)));
        assert(board_tiles(v.board, n) == bv.add(square_tiles(v.board[k / 6][k % 6].tile)));
        if k == c.y * 6 + c.x {
            assert(k / 6 == c.y && k % 6 == c.x);
            assert(w.board[k / 6][k % 6].tile == t);
            assert(bw == bv);
            assert forall|e: Tile| #[trigger] board_tiles(w.board, n).add(old_t).count(e) == board_tiles(v.board, n).add(new_t).count(e) by {}
        } else {
            assert(k / 6 != c.y || k % 6 != c.x);
            assert(w.board[k / 6][k % 6] == v.board[k / 6][k % 6]);
            if n > c.y * 6 + c.x {
                assert forall|e: Tile| #[trigger] board_tiles(w.board, n).add(old_t).count(e) == board_tiles(v.board, n).add(new_t).count(e) by {
                    assert(bw.add(old_t).count(e) == bv.add(new_t).count(e));
                }
            }
        }
    }
}

/// Replacing the tile at `c` changes the count by that tile only.
proof fn lemma_all_tiles_with_tile(v: StateView, c: Coordinate, t: Option<Tile>)
    requires
        shaped(v),
        on_board(c),
    ensures
        all_tiles(with_tile(v, c, t)).add(square_tiles(tile_at(v, c))) =~= all_tiles(v).add(square_tiles(t)),
{
    lemma_board_tiles_with_tile(v, c, t, 36);
    let w = with_tile(v, c, t);
    assert(off_board_tiles(w) == off_board_tiles(v));
    let bw = board_tiles(w.board, 36);
    let bv = board_tiles(v.board, 36);
    assert(bw.add(square_tiles(tile_at(v, c))) =~= bv.add(square_tiles(t)));
    assert forall|e: Tile| #[trigger] all_tiles(w).add(square_tiles(tile_at(v, c))).count(e) == all_tiles(v).add(square_tiles(t)).count(e) by {
        assert(bw.add(square_tiles(tile_at(v, c))).count(e) == bv.add(square_tiles(t)).count(e));
    }
}

proof fn lemma_with_tile_shaped(v: StateView, c: Coordinate, t: Option<Tile>)
    requires
        shaped(v),
        on_board(c),
    ensures
        shaped(with_tile(v, c, t)),
        forall|p: Coordinate| on_board(p) && p != c ==> #[trigger] tile_at(with_tile(v, c, t), p) == tile_at(v, p),
        tile_at(with_tile(v, c, t), c) == t,
{
    crate::logic::apply::lemma_with_square_shaped(v, c, SquareView { effects: crate::logic::effects_at(v, c), tile: t });
    let w = with_tile(v, c, t);
    assert forall|p: Coordinate| on_board(p) && p != c implies #[trigger] tile_at(w, p) == tile_at(v, p) by {
        if p.y == c.y {
            assert(p.x != c.x);
        }
    }
}

proof fn lemma_captured(v: StateView, c: Coordinate)
    requires
        shaped(v),
        on_board(c),
        tile_at(v, c) is Some,
    ensures
        all_tiles(captured(v, c)) == all_tiles(v).add(square_tiles(tile_at(v, c))),
        captured(v, c).board == v.board,
        shaped(captured(v, c)),
        captured(v, c).ply == v.ply,
{
    lemma_no_effects(v, c);
    let cap = tile_at(v, c).unwrap();
    lemma_ids_push(v.graveyard, cap);
    assert(all_tiles(captured(v, c)) =~= all_tiles(v).add(square_tiles(tile_at(v, c))));
}

proof fn lemma_end_turn_tiles(v: StateView)
    ensures
        all_tiles(end_turn(v)) == all_tiles(v),
{
}

proof fn lemma_moved_tiles(v: StateView, d: ActionData)
    requires
        shaped(v),
        crate::logic::apply::data_ok(v, d),
    ensures
        all_tiles(moved(v, d)) == all_tiles(v),
{
    let t = tile_at(v, d.tile_pos).unwrap();
    lemma_no_effects(v, d.tile_pos);
    let v1 = with_tile(v, d.tile_pos, None);
    lemma_all_tiles_with_tile(v, d.tile_pos, None);
    lemma_with_tile_shaped(v, d.tile_pos, None);
    let v2 = if d.result == ActionResult::Capture {
        captured(v1, d.target_pos)
    } else {
        v1
    };
    if d.result == ActionResult::Capture {
        lemma_captured(v1, d.target_pos);
    }
    let t2 = Some(crate::logic::flipped(t));
    let v3 = with_tile(v2, d.target_pos, t2);
    lemma_all_tiles_with_tile(v2, d.target_pos, t2);
    lemma_no_effects(v3, d.target_pos);
    assert(identity(crate::logic::flipped(t)) == identity(t));
    if t.kind == crate::logic::TileType::Duke {
        assert(all_tiles(with_duke(v3, v3.ply, Some(d.target_pos))) == all_tiles(v3));
    }
    assert(square_tiles(t2) == square_tiles(Some(t)));
    assert(tile_at(v1, d.target_pos) == tile_at(v, d.target_pos));
    assert(moved(v, d).board == v3.board);
    assert(all_tiles(moved(v, d)) == all_tiles(v3));
    if d.result == ActionResult::Capture {
        assert(tile_at(v2, d.target_pos) == tile_at(v, d.target_pos));
        assert forall|e: Tile| #[trigger] all_tiles(v3).count(e) == all_tiles(v).count(e) by {
            assert(all_tiles(v3).add(square_tiles(tile_at(v2, d.target_pos))).count(e) == all_tiles(v2).add(
                square_tiles(t2),
            ).count(e));
            assert(all_tiles(v1).add(square_tiles(Some(t))).count(e) == all_tiles(v).add(square_tiles(None)).count(e));
        }
    } else {
        assert(tile_at(v2, d.target_pos) is None);
        assert forall|e: Tile| #[trigger] all_tiles(v3).count(e) == all_tiles(v).count(e) by {
            assert(all_tiles(v3).add(square_tiles(tile_at(v2, d.target_pos))).count(e) == all_tiles(v2).add(
                square_tiles(t2),
            ).count(e));
            assert(all_tiles(v1).add(square_tiles(Some(t))).count(e) == all_tiles(v).add(square_tiles(None)).count(e));
        }
    }
    assert(all_tiles(moved(v, d)) =~= all_tiles(v));
}

proof fn lemma_struck_tiles(v: StateView, d: ActionData)
    requires
        shaped(v),
        crate::logic::apply::data_ok(v, d),
        d.result == ActionResult::Capture,
    ensures
        all_tiles(struck(v, d)) == all_tiles(v),
{
    let st = tile_at(v, d.tile_pos).unwrap();
    let h = tile_at(v, d.target_pos);
    lemma_captured(v, d.target_pos);
    let v0 = captured(v, d.target_pos);
    let v1 = with_tile(v0, d.target_pos, None);
    lemma_all_tiles_with_tile(v0, d.target_pos, None);
    lemma_with_tile_shaped(v0, d.target_pos, None);
    lemma_no_effects(v1, d.tile_pos);
    let t2 = Some(crate::logic::flipped(st));
    let v2 = with_tile(v1, d.tile_pos, t2);
    lemma_all_tiles_with_tile(v1, d.tile_pos, t2);
    lemma_no_effects(v2, d.tile_pos);
    assert(square_tiles(t2) == square_tiles(Some(st)));
    assert(tile_at(v1, d.tile_pos) == Some(st));
    assert(struck(v, d) == v2);
    assert forall|e: Tile| #[trigger] all_tiles(v2).count(e) == all_tiles(v).count(e) by {
        assert(all_tiles(v2).add(square_tiles(Some(st))).count(e) == all_tiles(v1).add(square_tiles(t2)).count(e));
        assert(all_tiles(v1).add(square_tiles(h)).count(e) == all_tiles(v0).add(square_tiles(None)).count(e));
    }
    assert(all_tiles(struck(v, d)) =~= all_tiles(v));
}

proof fn lemma_commanded_tiles(v: StateView, d: CommandActionData)
    requires
        shaped(v),
        action_ok(v, Action::Command(d)),
    ensures
        all_tiles(commanded(v, d)) == all_tiles(v),
{
    let cm = tile_at(v, d.tile_pos).unwrap();
    let t = tile_at(v, d.command_tile_pos).unwrap();
    lemma_no_effects(v, d.tile_pos);
    lemma_no_effects(v, d.command_tile_pos);
    let v2 = with_tile(v, d.command_tile_pos, None);
    lemma_all_tiles_with_tile(v, d.command_tile_pos, None);
    lemma_with_tile_shaped(v, d.command_tile_pos, None);
    let v3 = if d.result == ActionResult::Capture {
        captured(v2, d.target_pos)
    } else {
        v2
    };
    if d.result == ActionResult::Capture {
        lemma_captured(v2, d.target_pos);
    }
    assert(tile_at(v2, d.target_pos) == tile_at(v, d.target_pos));
    let v4 = with_tile(v3, d.target_pos, Some(t));
    lemma_all_tiles_with_tile(v3, d.target_pos, Some(t));
    lemma_with_tile_shaped(v3, d.target_pos, Some(t));
    let v5 = if t.kind == crate::logic::TileType::Duke {
        with_duke(v4, v4.ply, Some(d.target_pos))
    } else {
        v4
    };
    assert(all_tiles(v5) == all_tiles(v4));
    assert(v5.board == v4.board);
    let t6 = Some(crate::logic::flipped(cm));
    let v6 = with_tile(v5, d.tile_pos, t6);
    lemma_all_tiles_with_tile(v5, d.tile_pos, t6);
    lemma_with_tile_shaped(v5, d.tile_pos, t6);
    lemma_no_effects(v6, d.tile_pos);
    lemma_no_effects(v6, d.target_pos);
    assert(commanded(v, d) == v6);
    assert(tile_at(v5, d.tile_pos) == Some(cm));
    assert(square_tiles(t6) == square_tiles(Some(cm)));
    assert forall|e: Tile| #[trigger] all_tiles(v6).count(e) == all_tiles(v).count(e) by {
        assert(all_tiles(v6).add(square_tiles(Some(cm))).count(e) == all_tiles(v5).add(square_tiles(t6)).count(e));
        assert(all_tiles(v4).add(square_tiles(tile_at(v3, d.target_pos))).count(e) == all_tiles(v3).add(
            square_tiles(Some(t)),
        ).count(e));
        assert(all_tiles(v2).add(square_tiles(Some(t))).count(e) == all_tiles(v).add(square_tiles(None)).count(e));
    }
    assert(all_tiles(commanded(v, d)) =~= all_tiles(v));
}

proof fn lemma_placed_tiles(v: StateView, c: Coordinate)
    requires
        shaped(v),
        on_board(c),
        own_drawn(v).len() > 0,
        tile_at(v, c) is None,
    ensures
        all_tiles(placed(v, c)) == all_tiles(v),
{
    let p = cidx(v.ply);
    let t = own_drawn(v).last();
    let v1 = StateView { drawn: v.drawn.update(p, own_drawn(v).drop_last()), ..v };
    lemma_ids_drop_last(own_drawn(v));
    assert(off_board_tiles(v1).insert(identity(t)) =~= off_board_tiles(v));
    let v2 = if t.kind == crate::logic::TileType::Duke {
        with_duke(v1, v.ply, Some(c))
    } else {
        v1
    };
    assert(all_tiles(v2) == all_tiles(v1));
    assert(shaped(v2));
    let v3 = with_tile(v2, c, Some(t));
    lemma_all_tiles_with_tile(v2, c, Some(t));
    lemma_no_effects(v3, c);
    assert(placed(v, c) == v3);
    assert forall|e: Tile| #[trigger] all_tiles(v3).count(e) == all_tiles(v).count(e) by {
        assert(all_tiles(v3).add(square_tiles(None)).count(e) == all_tiles(v2).add(square_tiles(Some(t))).count(e));
        assert(off_board_tiles(v1).insert(identity(t)).count(e) == off_board_tiles(v).count(e));
    }
    assert(all_tiles(placed(v, c)) =~= all_tiles(v));
}

proof fn lemma_drawn_tiles(v: StateView, i: int)
    requires
        shaped(v),
        0 <= i < own_bag(v).len(),
    ensures
        all_tiles(drawn_from_bag(v, i)) == all_tiles(v),
{
    let bag = own_bag(v);
    let w = drawn_from_bag(v, i);
    lemma_ids_swap_remove(bag, i);
    lemma_ids_push(own_drawn(v), bag[i]);
    assert(w.board == v.board);
    assert forall|e: Tile| #[trigger] off_board_tiles(w).count(e) == off_board_tiles(v).count(e) by {
        assert(ids(bag.update(i, bag.last()).drop_last()).insert(identity(bag[i])).count(e) == ids(bag).count(e));
    }
    assert(off_board_tiles(w) =~= off_board_tiles(v));
}

/// Tile conservation: applying a legal action keeps every tile of the game,
/// wherever it goes (the side that is up aside). A placement is counted
/// only on an empty square: the opening squares are not checked for tiles.
pub proof fn lemma_tile_conservation(v: StateView, a: Action, draw: int)
    requires
        shaped(v),
        legal_actions(v).contains(a),
        a matches Action::PlaceNew(c) ==> tile_at(v, c) is None,
    ensures
        all_tiles(applied(v, a, draw)) == all_tiles(v),
{
    lemma_legal_actions_ok(v);
    let k = choose|k: int| 0 <= k < legal_actions(v).len() && legal_actions(v)[k] == a;
    assert(action_ok(v, legal_actions(v)[k]));
    match a {
        Action::NewFromBag => {
            lemma_drawn_tiles(v, draw % (own_bag(v).len() as int));
        },
        Action::PlaceNew(c) => {
            lemma_placed_tiles(v, c);
            lemma_end_turn_tiles(placed(v, c));
        },
        Action::Move(d) => {
            lemma_moved_tiles(v, d);
            lemma_end_turn_tiles(moved(v, d));
        },
        Action::Jump(d) => {
            lemma_moved_tiles(v, d);
            lemma_end_turn_tiles(moved(v, d));
        },
        Action::JumpSlide(d) => {
            lemma_moved_tiles(v, d);
            lemma_end_turn_tiles(moved(v, d));
        },
        Action::Slide(d) => {
            lemma_moved_tiles(v, d);
            lemma_end_turn_tiles(moved(v, d));
        },
        Action::Command(d) => {
            lemma_commanded_tiles(v, d);
            lemma_end_turn_tiles(commanded(v, d));
        },
        Action::Strike(d) => {
            lemma_struck_tiles(v, d);
            lemma_end_turn_tiles(struck(v, d));
        },
    }
}

/// Tile conservation in every game reached from the opening: a legal action
/// neither creates nor destroys a tile.
pub proof fn lemma_reachable_tile_conservation(v: StateView, a: Action, draw: int)
    requires
        crate::logic::dukes::reachable_invariant(v),
        legal_actions(v).contains(a),
    ensures
        all_tiles(applied(v, a, draw)) == all_tiles(v),
{
    crate::logic::dukes::lemma_reachable_kept(v, a, draw);
    lemma_tile_conservation(v, a, draw);
}

} // verus!
