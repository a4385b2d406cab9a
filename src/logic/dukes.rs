//! The cached duke positions agree with the board in every reachable game.

use vstd::prelude::*;
use crate::logic::apply::{action_ok, applied, captured, commanded, data_ok, drawn_from_bag, end_turn, lemma_no_effects, moved, placed, struck, with_duke, with_tile};
use crate::logic::enumerate::{free_neighbour, legal_actions, spawn_squares};
use crate::logic::laws::lemma_legal_actions_ok;
use crate::logic::setup::{is_opening, opening_queue, starting_bag};
use crate::logic::{at, cidx, flipped, on_board, own_duke, HEIGHT, opponent, own_bag, own_drawn, shaped, tile_at, Action, ActionData, ActionResult, CommandActionData, Coordinate, SquareView, StateView, Tile, TileColor, TileType};

verus! {

/// Whether `o` is the duke of the colour with index `c`.
pub open spec fn is_duke_of(o: Option<Tile>, c: int) -> bool {
    o matches Some(t) && t.kind == TileType::Duke && cidx(t.color) == c
}

/// The cached position of each colour's duke is exactly where that duke
/// stands: `dukes[c] == Some(p)` if and only if the duke of `c` is at `p`.
pub open spec fn dukes_cached(v: StateView) -> bool {
    forall|c: int, p: Coordinate|
        #![trigger v.dukes[c], tile_at(v, p)]
        0 <= c < 2 && on_board(p) ==> (v.dukes[c] == Some(p) <==> is_duke_of(tile_at(v, p), c))
}

/// What keeps the cache right from one action to the next: drawn and bag
/// tiles have the colour of their owner, no bag holds a duke, and a drawn
/// duke is the only one of its queue and its colour has none on the board.
pub open spec fn duke_invariant(v: StateView) -> bool {
    &&& shaped(v)
    &&& dukes_cached(v)
    &&& forall|c: int, i: int| 0 <= c < 2 && 0 <= i < v.drawn[c].len() ==> cidx(#[trigger] v.drawn[c][i].color) == c
    &&& forall|c: int, i: int| 0 <= c < 2 && 0 <= i < v.bags[c].len() ==> cidx(#[trigger] v.bags[c][i].color) == c
    &&& forall|c: int, i: int| 0 <= c < 2 && 0 <= i < v.bags[c].len() ==> (#[trigger] v.bags[c][i]).kind != TileType::Duke
    &&& forall|c: int, i: int|
        0 <= c < 2 && 0 <= i < v.drawn[c].len() && (#[trigger] v.drawn[c][i]).kind == TileType::Duke ==> v.dukes[c] is None
            && forall|j: int| 0 <= j < v.drawn[c].len() && j != i ==> (#[trigger] v.drawn[c][j]).kind != TileType::Duke
}

/// The opening position satisfies the invariant.
pub proof fn lemma_opening_duke_invariant(v: StateView)
    requires
        is_opening(v),
    ensures
        duke_invariant(v),
{
    assert forall|c: int, p: Coordinate|
        #![trigger v.dukes[c], tile_at(v, p)]
        0 <= c < 2 && on_board(p) implies (v.dukes[c] == Some(p) <==> is_duke_of(tile_at(v, p), c)) by {
        assert(v.board[p.y as int][p.x as int] == crate::logic::setup::empty_square());
    }
    assert forall|c: int, i: int| 0 <= c < 2 && 0 <= i < v.drawn[c].len() implies cidx(#[trigger] v.drawn[c][i].color) == c by {
        if c == 0 {
            assert(v.drawn[c] == opening_queue(TileColor::Black));
        } else {
            assert(v.drawn[c] == opening_queue(TileColor::White));
        }
    }
    assert forall|c: int, i: int| 0 <= c < 2 && 0 <= i < v.bags[c].len() implies cidx(#[trigger] v.bags[c][i].color) == c && v.bags[c][i].kind
        != TileType::Duke by {
        if c == 0 {
            assert(v.bags[c] == starting_bag(TileColor::Black));
        } else {
            assert(v.bags[c] == starting_bag(TileColor::White));
        }
    }
}

/// The effect of `with_tile` on the tiles of the board.
proof fn lemma_tiles_after(v: StateView, c: Coordinate, t: Option<Tile>)
    requires
        shaped(v),
        on_board(c),
    ensures
        shaped(with_tile(v, c, t)),
        forall|p: Coordinate| on_board(p) ==> #[trigger] tile_at(with_tile(v, c, t), p) == (if p == c {
            t
        } else {
            tile_at(v, p)
        }),
        with_tile(v, c, t).dukes == v.dukes,
        with_tile(v, c, t).drawn == v.drawn,
        with_tile(v, c, t).bags == v.bags,
        with_tile(v, c, t).ply == v.ply,
{
    crate::logic::apply::lemma_with_square_shaped(v, c, SquareView { effects: crate::logic::effects_at(v, c), tile: t });
    let w = with_tile(v, c, t);
    assert forall|p: Coordinate| on_board(p) implies #[trigger] tile_at(w, p) == (if p == c {
        t
    } else {
        tile_at(v, p)
    }) by {
        if p.y == c.y && p.x != c.x {
            assert(p != c);
        }
    }
}

/// The colour index of the side to move and of its opponent.
proof fn lemma_colour_indices(c: TileColor)
    ensures
        0 <= cidx(c) < 2,
        0 <= cidx(opponent(c)) < 2,
        cidx(c) != cidx(opponent(c)),
        forall|t: Tile| #[trigger] cidx(t.color) == cidx(c) <==> t.color == c,
        forall|t: Tile| t.color != c ==> #[trigger] t.color == opponent(c),
{
}

proof fn lemma_cached_at(v: StateView, c: int, p: Coordinate)
    requires
        dukes_cached(v),
        0 <= c < 2,
        on_board(p),
    ensures
        v.dukes[c] == Some(p) <==> is_duke_of(tile_at(v, p), c),
{
}

/// After an ordinary move the cache still agrees with the board.
proof fn lemma_moved_dukes(v: StateView, d: ActionData)
    requires
        duke_invariant(v),
        data_ok(v, d),
    ensures
        duke_invariant(moved(v, d)),
{
    let src = d.tile_pos;
    let dst = d.target_pos;
    let t = tile_at(v, src).unwrap();
    let c0 = cidx(v.ply);
    let c1 = cidx(opponent(v.ply));
    lemma_colour_indices(v.ply);
    lemma_no_effects(v, src);
    let v1 = with_tile(v, src, None);
    lemma_tiles_after(v, src, None);
    let v2 = if d.result == ActionResult::Capture {
        captured(v1, dst)
    } else {
        v1
    };
    if d.result == ActionResult::Capture {
        lemma_no_effects(v1, dst);
    }
    assert(shaped(v2));
    let v3 = with_tile(v2, dst, Some(flipped(t)));
    lemma_tiles_after(v2, dst, Some(flipped(t)));
    lemma_no_effects(v3, dst);
    let w = moved(v, d);
    let h = tile_at(v, dst);
    let took_duke = d.result == ActionResult::Capture && is_duke_of(h, c1);
    lemma_cached_at(v, c0, src);
    lemma_cached_at(v, c0, dst);
    lemma_cached_at(v, c1, src);
    lemma_cached_at(v, c1, dst);
    assert(src != dst);
    assert(forall|p: Coordinate| on_board(p) ==> #[trigger] tile_at(w, p) == (if p == dst {
        Some(flipped(t))
    } else if p == src {
        None
    } else {
        tile_at(v, p)
    }));
    assert(w.dukes[c0] == (if t.kind == TileType::Duke {
        Some(dst)
    } else {
        v.dukes[c0]
    }));
    assert(w.dukes[c1] == (if took_duke {
        None
    } else {
        v.dukes[c1]
    }));
    assert(w.drawn == v.drawn && w.bags == v.bags);
    assert(shaped(w));
    assert forall|c: int, p: Coordinate|
        #![trigger w.dukes[c], tile_at(w, p)]
        0 <= c < 2 && on_board(p) implies (w.dukes[c] == Some(p) <==> is_duke_of(tile_at(w, p), c)) by {
        lemma_cached_at(v, c, p);
    }
    assert forall|c: int, i: int|
        0 <= c < 2 && 0 <= i < w.drawn[c].len() && (#[trigger] w.drawn[c][i]).kind == TileType::Duke implies w.dukes[c] is None
            && forall|j: int| 0 <= j < w.drawn[c].len() && j != i ==> (#[trigger] w.drawn[c][j]).kind != TileType::Duke by {
        assert(v.dukes[c] is None);
    }
}

/// After a command the cache still agrees with the board.
proof fn lemma_commanded_dukes(v: StateView, d: CommandActionData)
    requires
        duke_invariant(v),
        action_ok(v, Action::Command(d)),
    ensures
        duke_invariant(commanded(v, d)),
{
    let tp = d.tile_pos;
    let cp = d.command_tile_pos;
    let tg = d.target_pos;
    let cm = tile_at(v, tp).unwrap();
    let t = tile_at(v, cp).unwrap();
    let c0 = cidx(v.ply);
    let c1 = cidx(opponent(v.ply));
    lemma_colour_indices(v.ply);
    lemma_no_effects(v, tp);
    lemma_no_effects(v, cp);
    let v2 = with_tile(v, cp, None);
    lemma_tiles_after(v, cp, None);
    let v3 = if d.result == ActionResult::Capture {
        captured(v2, tg)
    } else {
        v2
    };
    if d.result == ActionResult::Capture {
        lemma_no_effects(v2, tg);
    }
    let v4 = with_tile(v3, tg, Some(t));
    lemma_tiles_after(v3, tg, Some(t));
    let v5 = if t.kind == TileType::Duke {
        with_duke(v4, v4.ply, Some(tg))
    } else {
        v4
    };
    assert(shaped(v5));
    let v6 = with_tile(v5, tp, Some(flipped(cm)));
    lemma_tiles_after(v5, tp, Some(flipped(cm)));
    lemma_no_effects(v6, tp);
    lemma_no_effects(v6, tg);
    let w = commanded(v, d);
    assert(w == v6);
    let h = tile_at(v, tg);
    let took_duke = d.result == ActionResult::Capture && is_duke_of(h, c1);
    lemma_cached_at(v, c0, tp);
    lemma_cached_at(v, c0, cp);
    lemma_cached_at(v, c0, tg);
    lemma_cached_at(v, c1, tp);
    lemma_cached_at(v, c1, cp);
    lemma_cached_at(v, c1, tg);
    assert(tp != tg && cp != tg && tp != cp);
    assert(forall|p: Coordinate| on_board(p) ==> #[trigger] tile_at(w, p) == (if p == tg {
        Some(t)
    } else if p == tp {
        Some(flipped(cm))
    } else if p == cp {
        None
    } else {
        tile_at(v, p)
    }));
    assert(w.dukes[c0] == (if t.kind == TileType::Duke {
        Some(tg)
    } else {
        v.dukes[c0]
    }));
    assert(w.dukes[c1] == (if took_duke {
        None
    } else {
        v.dukes[c1]
    }));
    assert(w.drawn == v.drawn && w.bags == v.bags);
    assert forall|c: int, p: Coordinate|
        #![trigger w.dukes[c], tile_at(w, p)]
        0 <= c < 2 && on_board(p) implies (w.dukes[c] == Some(p) <==> is_duke_of(tile_at(w, p), c)) by {
        lemma_cached_at(v, c, p);
    }
    assert forall|c: int, i: int|
        0 <= c < 2 && 0 <= i < w.drawn[c].len() && (#[trigger] w.drawn[c][i]).kind == TileType::Duke implies w.dukes[c] is None
            && forall|j: int| 0 <= j < w.drawn[c].len() && j != i ==> (#[trigger] w.drawn[c][j]).kind != TileType::Duke by {
        assert(v.dukes[c] is None);
    }
}

/// After a strike the cache still agrees with the board.
proof fn lemma_struck_dukes(v: StateView, d: ActionData)
    requires
        duke_invariant(v),
        data_ok(v, d),
        d.result == ActionResult::Capture,
    ensures
        duke_invariant(struck(v, d)),
{
    let src = d.tile_pos;
    let dst = d.target_pos;
    let st = tile_at(v, src).unwrap();
    let c0 = cidx(v.ply);
    let c1 = cidx(opponent(v.ply));
    lemma_colour_indices(v.ply);
    lemma_no_effects(v, dst);
    let v0 = captured(v, dst);
    assert(shaped(v0));
    let v1 = with_tile(v0, dst, None);
    lemma_tiles_after(v0, dst, None);
    lemma_no_effects(v1, src);
    let v2 = with_tile(v1, src, Some(flipped(st)));
    lemma_tiles_after(v1, src, Some(flipped(st)));
    lemma_no_effects(v2, src);
    let w = struck(v, d);
    assert(w == v2);
    let took_duke = is_duke_of(tile_at(v, dst), c1);
    lemma_cached_at(v, c0, src);
    lemma_cached_at(v, c0, dst);
    lemma_cached_at(v, c1, src);
    lemma_cached_at(v, c1, dst);
    assert(src != dst);
    assert(forall|p: Coordinate| on_board(p) ==> #[trigger] tile_at(w, p) == (if p == dst {
        None
    } else if p == src {
        Some(flipped(st))
    } else {
        tile_at(v, p)
    }));
    assert(w.dukes[c0] == v.dukes[c0]);
    assert(w.dukes[c1] == (if took_duke {
        None
    } else {
        v.dukes[c1]
    }));
    assert(w.drawn == v.drawn && w.bags == v.bags);
    assert forall|c: int, p: Coordinate|
        #![trigger w.dukes[c], tile_at(w, p)]
        0 <= c < 2 && on_board(p) implies (w.dukes[c] == Some(p) <==> is_duke_of(tile_at(w, p), c)) by {
        lemma_cached_at(v, c, p);
    }
    assert forall|c: int, i: int|
        0 <= c < 2 && 0 <= i < w.drawn[c].len() && (#[trigger] w.drawn[c][i]).kind == TileType::Duke implies w.dukes[c] is None
            && forall|j: int| 0 <= j < w.drawn[c].len() && j != i ==> (#[trigger] w.drawn[c][j]).kind != TileType::Duke by {
        assert(v.dukes[c] is None);
    }
}

/// After a placement on an empty square the cache still agrees with the board.
proof fn lemma_placed_dukes(v: StateView, c: Coordinate)
    requires
        duke_invariant(v),
        on_board(c),
        own_drawn(v).len() > 0,
        tile_at(v, c) is None,
    ensures
        duke_invariant(placed(v, c)),
{
    let c0 = cidx(v.ply);
    let c1 = cidx(opponent(v.ply));
    lemma_colour_indices(v.ply);
    let q = own_drawn(v);
    let n = q.len() - 1;
    let t = q.last();
    assert(q[n] == t);
    assert(cidx(t.color) == c0);
    let v1 = StateView { drawn: v.drawn.update(c0, q.drop_last()), ..v };
    let v2 = if t.kind == TileType::Duke {
        with_duke(v1, v.ply, Some(c))
    } else {
        v1
    };
    assert(shaped(v2));
    let v3 = with_tile(v2, c, Some(t));
    lemma_tiles_after(v2, c, Some(t));
    lemma_no_effects(v3, c);
    let w = placed(v, c);
    assert(w == v3);
    lemma_cached_at(v, c0, c);
    lemma_cached_at(v, c1, c);
    assert(forall|p: Coordinate| on_board(p) ==> #[trigger] tile_at(w, p) == (if p == c {
        Some(t)
    } else {
        tile_at(v, p)
    }));
    assert(w.dukes[c0] == (if t.kind == TileType::Duke {
        Some(c)
    } else {
        v.dukes[c0]
    }));
    assert(w.dukes[c1] == v.dukes[c1]);
    assert(w.bags == v.bags);
    assert(w.drawn[c1] == v.drawn[c1]);
    assert(w.drawn[c0] == q.drop_last());
    assert forall|k: int, p: Coordinate|
        #![trigger w.dukes[k], tile_at(w, p)]
        0 <= k < 2 && on_board(p) implies (w.dukes[k] == Some(p) <==> is_duke_of(tile_at(w, p), k)) by {
        lemma_cached_at(v, k, p);
        if t.kind == TileType::Duke && k == c0 {
            assert(v.dukes[c0] is None);
        }
    }
    assert forall|k: int, i: int| 0 <= k < 2 && 0 <= i < w.drawn[k].len() implies cidx(#[trigger] w.drawn[k][i].color) == k by {
        if k == c0 {
            assert(w.drawn[k][i] == q[i]);
        }
    }
    assert forall|k: int, i: int|
        0 <= k < 2 && 0 <= i < w.drawn[k].len() && (#[trigger] w.drawn[k][i]).kind == TileType::Duke implies w.dukes[k] is None
            && forall|j: int| 0 <= j < w.drawn[k].len() && j != i ==> (#[trigger] w.drawn[k][j]).kind != TileType::Duke by {
        if k == c0 {
            assert(w.drawn[k][i] == q[i]);
            assert(v.dukes[c0] is None);
            assert(t.kind != TileType::Duke);
            assert forall|j: int| 0 <= j < w.drawn[k].len() && j != i implies (#[trigger] w.drawn[k][j]).kind != TileType::Duke by {
                assert(w.drawn[k][j] == q[j]);
            }
        }
    }
}

/// After a draw from the bag the cache still agrees with the board.
proof fn lemma_drawn_dukes(v: StateView, i: int)
    requires
        duke_invariant(v),
        0 <= i < own_bag(v).len(),
    ensures
        duke_invariant(drawn_from_bag(v, i)),
{
    let c0 = cidx(v.ply);
    lemma_colour_indices(v.ply);
    let bag = own_bag(v);
    let nb = bag.update(i, bag.last()).drop_last();
    let q = own_drawn(v);
    let w = drawn_from_bag(v, i);
    assert(w.board == v.board && w.dukes == v.dukes);
    assert(w.bags[c0] == nb && w.drawn[c0] == q.push(bag[i]));
    assert(bag[i].kind != TileType::Duke);
    assert(cidx(bag[i].color) == c0);
    assert(dukes_cached(w)) by {
        assert forall|k: int, p: Coordinate|
            #![trigger w.dukes[k], tile_at(w, p)]
            0 <= k < 2 && on_board(p) implies (w.dukes[k] == Some(p) <==> is_duke_of(tile_at(w, p), k)) by {
            lemma_cached_at(v, k, p);
        }
    }
    assert forall|k: int, j: int| 0 <= k < 2 && 0 <= j < w.bags[k].len() implies cidx(#[trigger] w.bags[k][j].color) == k
        && w.bags[k][j].kind != TileType::Duke by {
        if k == c0 {
            assert(bag.len() > 0);
            if j == i {
                assert(nb[j] == bag[bag.len() - 1]);
            } else {
                assert(nb[j] == bag[j]);
            }
        }
    }
    assert forall|k: int, j: int| 0 <= k < 2 && 0 <= j < w.drawn[k].len() implies cidx(#[trigger] w.drawn[k][j].color) == k by {
        if k == c0 && j < q.len() {
            assert(w.drawn[k][j] == q[j]);
        }
    }
    assert forall|k: int, j: int|
        0 <= k < 2 && 0 <= j < w.drawn[k].len() && (#[trigger] w.drawn[k][j]).kind == TileType::Duke implies w.dukes[k] is None
            && forall|m: int| 0 <= m < w.drawn[k].len() && m != j ==> (#[trigger] w.drawn[k][m]).kind != TileType::Duke by {
        if k == c0 {
            assert(j < q.len());
            assert(w.drawn[k][j] == q[j]);
            assert forall|m: int| 0 <= m < w.drawn[k].len() && m != j implies (#[trigger] w.drawn[k][m]).kind != TileType::Duke by {
                if m < q.len() {
                    assert(w.drawn[k][m] == q[m]);
                }
            }
        }
    }
}

proof fn lemma_end_turn_dukes(v: StateView)
    requires
        duke_invariant(v),
    ensures
        duke_invariant(end_turn(v)),
{
    let w = end_turn(v);
    assert forall|k: int, p: Coordinate|
        #![trigger w.dukes[k], tile_at(w, p)]
        0 <= k < 2 && on_board(p) implies (w.dukes[k] == Some(p) <==> is_duke_of(tile_at(w, p), k)) by {
        lemma_cached_at(v, k, p);
    }
}

/// Duke cache consistency: a legal action keeps the invariant, so in every
/// game reached from the opening each colour's cached duke position is
/// exactly where its duke stands. A placement is taken on an empty square:
/// the opening squares are not checked for tiles.
pub proof fn lemma_duke_invariant_kept(v: StateView, a: Action, draw: int)
    requires
        duke_invariant(v),
        legal_actions(v).contains(a),
        a matches Action::PlaceNew(c) ==> tile_at(v, c) is None,
    ensures
        duke_invariant(applied(v, a, draw)),
{
    lemma_legal_actions_ok(v);
    let k = choose|k: int| 0 <= k < legal_actions(v).len() && legal_actions(v)[k] == a;
    assert(action_ok(v, legal_actions(v)[k]));
    match a {
        Action::NewFromBag => {
            lemma_drawn_dukes(v, draw % (own_bag(v).len() as int));
        },
        Action::PlaceNew(c) => {
            lemma_placed_dukes(v, c);
            lemma_end_turn_dukes(placed(v, c));
        },
        Action::Move(d) => {
            lemma_moved_dukes(v, d);
            lemma_end_turn_dukes(moved(v, d));
        },
        Action::Jump(d) => {
            lemma_moved_dukes(v, d);
            lemma_end_turn_dukes(moved(v, d));
        },
        Action::JumpSlide(d) => {
            lemma_moved_dukes(v, d);
            lemma_end_turn_dukes(moved(v, d));
        },
        Action::Slide(d) => {
            lemma_moved_dukes(v, d);
            lemma_end_turn_dukes(moved(v, d));
        },
        Action::Command(d) => {
            lemma_commanded_dukes(v, d);
            lemma_end_turn_dukes(commanded(v, d));
        },
        Action::Strike(d) => {
            lemma_struck_dukes(v, d);
            lemma_end_turn_dukes(struck(v, d));
        },
    }
}

/// The opening squares of `c` hold no tile.
pub open spec fn opening_clear(v: StateView, c: TileColor) -> bool {
    if c == TileColor::Black {
        tile_at(v, at(2, 0)) is None && tile_at(v, at(3, 0)) is None
    } else {
        tile_at(v, at(2, HEIGHT - 1)) is None && tile_at(v, at(3, HEIGHT - 1)) is None
    }
}

/// While the game goes on, a side without a duke on the board is still in
/// its opening: its duke is the next tile it places, its opening squares are
/// empty, and if the other side is to move, that side has no duke either.
pub open spec fn opening_side(v: StateView, c: TileColor) -> bool {
    v.dukes[cidx(c)] is None && v.game_over is None ==> {
        &&& v.drawn[cidx(c)].len() > 0
        &&& v.drawn[cidx(c)].last().kind == TileType::Duke
        &&& opening_clear(v, c)
        &&& c != v.ply ==> v.dukes[cidx(v.ply)] is None
    }
}

/// What holds of every game reached from the opening by legal actions.
pub open spec fn reachable_invariant(v: StateView) -> bool {
    duke_invariant(v) && opening_side(v, TileColor::Black) && opening_side(v, TileColor::White)
}

/// The opening position satisfies the reachable invariant.
pub proof fn lemma_opening_reachable(v: StateView)
    requires
        is_opening(v),
    ensures
        reachable_invariant(v),
{
    lemma_opening_duke_invariant(v);
    assert(v.board[0][2] == crate::logic::setup::empty_square());
    assert(v.board[0][3] == crate::logic::setup::empty_square());
    assert(v.board[5][2] == crate::logic::setup::empty_square());
    assert(v.board[5][3] == crate::logic::setup::empty_square());
    assert(v.drawn[0] == opening_queue(TileColor::Black));
    assert(v.drawn[1] == opening_queue(TileColor::White));
}

/// What membership in the legal actions tells of an action: the game goes
/// on; a placement goes to a spawn square of a side with a drawn tile; any
/// other action needs an empty drawn queue.
proof fn lemma_legal_shape(v: StateView, a: Action)
    requires
        shaped(v),
        legal_actions(v).contains(a),
    ensures
        v.game_over is None,
        a matches Action::PlaceNew(c) ==> own_drawn(v).len() > 0 && spawn_squares(v).contains(c),
        !(a is PlaceNew) ==> own_drawn(v).len() == 0,
{
    lemma_legal_actions_ok(v);
    let k = choose|k: int| 0 <= k < legal_actions(v).len() && legal_actions(v)[k] == a;
    assert(action_ok(v, legal_actions(v)[k]));
    if own_drawn(v).len() > 0 {
        let sp = spawn_squares(v);
        assert(legal_actions(v)[k] == Action::PlaceNew(sp[k]));
        if let Action::PlaceNew(c) = a {
            assert(sp[k] == c);
        }
    }
}

/// A spawn square of a side whose duke stands on the board is empty; with no
/// duke it is one of the side's opening squares.
proof fn lemma_spawn_square(v: StateView, c: Coordinate)
    requires
        shaped(v),
        spawn_squares(v).contains(c),
    ensures
        own_duke(v) is Some ==> tile_at(v, c) is None,
        own_duke(v) is None ==> (if v.ply == TileColor::Black {
            c == at(2, 0) || c == at(3, 0)
        } else {
            c == at(2, HEIGHT - 1) || c == at(3, HEIGHT - 1)
        }),
{
    let s = spawn_squares(v);
    let i = choose|i: int| 0 <= i < s.len() && s[i] == c;
    if let Some(d) = own_duke(v) {
        let a = free_neighbour(v, d, 1, 0);
        let b = free_neighbour(v, d, -1, 0);
        let e = free_neighbour(v, d, 0, 1);
        let f = free_neighbour(v, d, 0, -1);
        assert(s == a + b + e + f);
        if i < a.len() {
            assert(s[i] == a[i]);
        } else if i < a.len() + b.len() {
            assert(s[i] == b[i - a.len()]);
        } else if i < a.len() + b.len() + e.len() {
            assert(s[i] == e[i - a.len() - b.len()]);
        } else {
            assert(s[i] == f[i - a.len() - b.len() - e.len()]);
        }
    }
}

/// Every legal action of a reachable game keeps it reachable.
pub proof fn lemma_reachable_kept(v: StateView, a: Action, draw: int)
    requires
        reachable_invariant(v),
        legal_actions(v).contains(a),
    ensures
        reachable_invariant(applied(v, a, draw)),
        a matches Action::PlaceNew(c) ==> tile_at(v, c) is None,
{
    lemma_legal_shape(v, a);
    lemma_colour_indices(v.ply);
    crate::logic::laws::lemma_all_no_effects();
    let c0 = cidx(v.ply);
    let c1 = cidx(opponent(v.ply));
    let me = v.ply;
    let them = opponent(v.ply);
    if let Action::PlaceNew(c) = a {
        lemma_spawn_square(v, c);
        if own_drawn(v).len() > 0 && own_duke(v) is None {
            assert(opening_side(v, me));
        }
    }
    lemma_duke_invariant_kept(v, a, draw);
    let w = applied(v, a, draw);
    match a {
        Action::PlaceNew(c) => {
            let t = own_drawn(v).last();
            let p = placed(v, c);
            lemma_tiles_after(
                StateView {
                    dukes: if t.kind == TileType::Duke {
                        v.dukes.update(c0, Some(c))
                    } else {
                        v.dukes
                    },
                    drawn: v.drawn.update(c0, own_drawn(v).drop_last()),
                    ..v
                },
                c,
                Some(t),
            );
            assert(p.drawn[c1] == v.drawn[c1]);
            assert(p.ply == me && p.game_over == v.game_over);
            if v.dukes[c0] is None {
                assert(opening_side(v, me));
                assert(p.dukes[c0] == Some(c));
                assert(p.dukes[c1] == v.dukes[c1]);
                if v.dukes[c1] is None {
                    assert(opening_side(v, them));
                    assert(opening_clear(p, them));
                }
            } else {
                if v.dukes[c1] is None {
                    assert(opening_side(v, them));
                }
                assert(v.dukes[c1] is Some);
                assert(t.kind != TileType::Duke) by {
                    let n = own_drawn(v).len() - 1;
                    assert(own_drawn(v)[n] == t);
                }
                assert(p.dukes == v.dukes);
            }
            assert(w == end_turn(p));
        },
        Action::NewFromBag => {
            assert(opening_side(v, me));
            assert(opening_side(v, them));
            assert(v.dukes[c0] is Some && v.dukes[c1] is Some);
            assert(w.dukes == v.dukes);
        },
        _ => {
            assert(opening_side(v, me));
            assert(opening_side(v, them));
            assert(v.dukes[c0] is Some && v.dukes[c1] is Some);
            let pre = match a {
                Action::Move(d) => moved(v, d),
                Action::Jump(d) => moved(v, d),
                Action::JumpSlide(d) => moved(v, d),
                Action::Slide(d) => moved(v, d),
                Action::Command(d) => commanded(v, d),
                Action::Strike(d) => struck(v, d),
                _ => v,
            };
            assert(w == end_turn(pre));
            assert(pre.drawn == v.drawn && pre.ply == me && pre.dukes[c0] is Some);
            assert(pre.dukes[c1] is None || pre.dukes[c1] == v.dukes[c1]);
            if pre.dukes[c1] is None {
                assert forall|i: int| 0 <= i < v.drawn[c1].len() implies (#[trigger] v.drawn[c1][i]).kind != TileType::Duke by {}
                let q = v.drawn[c1];
                if q.len() > 0 {
                    assert(q.last() == q[q.len() - 1]);
                }
                assert(w.game_over is Some);
            }
        },
    }
}

} // verus!
