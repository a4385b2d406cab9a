//! How an action changes a game.

use vstd::prelude::*;
use crate::logic::catalog::{effect_vocab, side_effects};
use crate::logic::enumerate::{get_actions, legal_actions};
use crate::logic::{at, cidx, effects_at, in_board, on_board, opponent, other_color, color_index, own_bag, own_drawn, own_duke, shaped, tile_at, flipped, Action, ActionData, ActionResult, AvailableEffect, CommandActionData, Coordinate, Effect, GameState, Square, SquareView, StateView, Tile, TileColor, TileType, Winner, HEIGHT, WIDTH};

verus! {

/// `v` with the square at `c` replaced by `q`.
pub open spec fn with_square(v: StateView, c: Coordinate, q: SquareView) -> StateView {
    StateView { board: v.board.update(c.y as int, v.board[c.y as int].update(c.x as int, q)), ..v }
}

/// `v` with the tile at `c` replaced by `t`.
pub open spec fn with_tile(v: StateView, c: Coordinate, t: Option<Tile>) -> StateView {
    with_square(v, c, SquareView { effects: effects_at(v, c), tile: t })
}

/// `v` with the effects at `c` replaced by `e`.
pub open spec fn with_effects(v: StateView, c: Coordinate, e: Seq<Effect>) -> StateView {
    with_square(v, c, SquareView { effects: e, tile: tile_at(v, c) })
}

/// `v` with the duke position of `color` replaced by `p`.
pub open spec fn with_duke(v: StateView, color: TileColor, p: Option<Coordinate>) -> StateView {
    StateView { dukes: v.dukes.update(cidx(color), p), ..v }
}

/// The index of the first `e` in `s` at or after `i`, or -1.
pub open spec fn first_from(s: Seq<Effect>, e: Effect, i: int) -> int
    decreases s.len() - i,
{
    if i < 0 || i >= s.len() {
        -1
    } else if s[i] == e {
        i
    } else {
        first_from(s, e, i + 1)
    }
}

/// `s` with one `e` taken out, the last effect taking its place.
pub open spec fn remove_one(s: Seq<Effect>, e: Effect) -> Seq<Effect> {
    let i = first_from(s, e, 0);
    if i < 0 {
        s
    } else {
        s.update(i, s.last()).drop_last()
    }
}

/// The square that the effect entry `e` of a tile at `pos` reaches, if on the board.
pub open spec fn effect_square(pos: Coordinate, e: AvailableEffect) -> Option<Coordinate> {
    let x = pos.x + e.offset.x;
    let y = pos.y + e.offset.y;
    if in_board(x, y) {
        Some(at(x, y))
    } else {
        None
    }
}

/// `v` with the effects of the entries of `voc`, projected from `pos`, added.
pub open spec fn add_effect_seq(v: StateView, pos: Coordinate, voc: Seq<AvailableEffect>) -> StateView
    decreases voc.len(),
{
    if voc.len() == 0 {
        v
    } else {
        let v1 = add_effect_seq(v, pos, voc.drop_last());
        match effect_square(pos, voc.last()) {
            Some(c) => with_effects(v1, c, effects_at(v1, c).push(voc.last().kind)),
            None => v1,
        }
    }
}

/// `v` with one occurrence of each effect of the entries of `voc`,
/// projected from `pos`, taken out.
pub open spec fn clear_effect_seq(v: StateView, pos: Coordinate, voc: Seq<AvailableEffect>) -> StateView
    decreases voc.len(),
{
    if voc.len() == 0 {
        v
    } else {
        let v1 = clear_effect_seq(v, pos, voc.drop_last());
        match effect_square(pos, voc.last()) {
            Some(c) => with_effects(v1, c, remove_one(effects_at(v1, c), voc.last().kind)),
            None => v1,
        }
    }
}

/// `v` with the effects of the tile at `pos` projected.
pub open spec fn added_effects(v: StateView, pos: Coordinate) -> StateView {
    match tile_at(v, pos) {
        Some(t) => add_effect_seq(v, pos, effect_vocab(t)),
        None => v,
    }
}

/// `v` with the effects of the tile at `pos` taken back.
pub open spec fn cleared_effects(v: StateView, pos: Coordinate) -> StateView {
    match tile_at(v, pos) {
        Some(t) => clear_effect_seq(v, pos, effect_vocab(t)),
        None => v,
    }
}

/// The hostile tile at `c` taken: its effects go, a captured duke leaves its
/// cached position, and the tile goes to the graveyard (it still stands on
/// its square until something replaces it).
pub open spec fn captured(v: StateView, c: Coordinate) -> StateView {
    let v1 = cleared_effects(v, c);
    let cap = tile_at(v1, c).unwrap();
    let v2 = if cap.kind == TileType::Duke {
        with_duke(v1, opponent(v1.ply), None)
    } else {
        v1
    };
    StateView { graveyard: v2.graveyard.push(cap), ..v2 }
}

/// Whether the side that is about to move has lost: its duke is neither on
/// the board nor the next tile to place, or it has no legal action.
pub open spec fn has_lost(v: StateView) -> bool {
    match own_duke(v) {
        None => !(own_drawn(v).len() > 0 && own_drawn(v).last().kind == TileType::Duke),
        Some(_) => legal_actions(v).len() == 0,
    }
}

/// The turn passed to the other side, and the game ended if that side has lost.
pub open spec fn end_turn(v: StateView) -> StateView {
    let v1 = StateView { ply: opponent(v.ply), ..v };
    if has_lost(v1) {
        StateView { game_over: Some(Winner::Color(v.ply)), ..v1 }
    } else {
        v1
    }
}

/// The tile at `d.tile_pos` moved to `d.target_pos`, turned over, taking the
/// tile there if `d.result` is a capture.
pub open spec fn moved(v: StateView, d: ActionData) -> StateView {
    let t = tile_at(v, d.tile_pos).unwrap();
    let v1 = with_tile(cleared_effects(v, d.tile_pos), d.tile_pos, None);
    let v2 = if d.result == ActionResult::Capture {
        captured(v1, d.target_pos)
    } else {
        v1
    };
    let v3 = added_effects(with_tile(v2, d.target_pos, Some(flipped(t))), d.target_pos);
    if t.kind == TileType::Duke {
        with_duke(v3, v3.ply, Some(d.target_pos))
    } else {
        v3
    }
}

/// The tile at `d.command_tile_pos` moved to `d.target_pos` on the order of
/// the tile at `d.tile_pos`, which turns over.
pub open spec fn commanded(v: StateView, d: CommandActionData) -> StateView {
    let commander = tile_at(v, d.tile_pos).unwrap();
    let t = tile_at(v, d.command_tile_pos).unwrap();
    let v1 = cleared_effects(cleared_effects(v, d.tile_pos), d.command_tile_pos);
    let v2 = with_tile(v1, d.command_tile_pos, None);
    let v3 = if d.result == ActionResult::Capture {
        captured(v2, d.target_pos)
    } else {
        v2
    };
    let v4 = with_tile(v3, d.target_pos, Some(t));
    let v5 = if t.kind == TileType::Duke {
        with_duke(v4, v4.ply, Some(d.target_pos))
    } else {
        v4
    };
    let v6 = with_tile(v5, d.tile_pos, Some(flipped(commander)));
    added_effects(added_effects(v6, d.tile_pos), d.target_pos)
}

/// The tile at `d.target_pos` taken from afar by the tile at `d.tile_pos`,
/// which stays and turns over.
pub open spec fn struck(v: StateView, d: ActionData) -> StateView {
    let striker = tile_at(v, d.tile_pos).unwrap();
    let v1 = with_tile(captured(v, d.target_pos), d.target_pos, None);
    let v2 = with_tile(cleared_effects(v1, d.tile_pos), d.tile_pos, Some(flipped(striker)));
    added_effects(v2, d.tile_pos)
}

/// The drawn tile of the side to move placed at `c`.
pub open spec fn placed(v: StateView, c: Coordinate) -> StateView {
    let p = cidx(v.ply);
    let t = own_drawn(v).last();
    let v1 = StateView { drawn: v.drawn.update(p, own_drawn(v).drop_last()), ..v };
    let v2 = if t.kind == TileType::Duke {
        with_duke(v1, v.ply, Some(c))
    } else {
        v1
    };
    added_effects(with_tile(v2, c, Some(t)), c)
}

/// The tile at index `i` of the bag of the side to move taken out (the last
/// tile taking its place) and put on its drawn queue.
pub open spec fn drawn_from_bag(v: StateView, i: int) -> StateView {
    let p = cidx(v.ply);
    let bag = own_bag(v);
    StateView {
        bags: v.bags.update(p, bag.update(i, bag.last()).drop_last()),
        drawn: v.drawn.update(p, own_drawn(v).push(bag[i])),
        ..v
    }
}

/// The game after `a`; `draw` picks the bag tile of a `NewFromBag`, which
/// alone leaves the turn with the same side.
pub open spec fn applied(v: StateView, a: Action, draw: int) -> StateView {
    match a {
        Action::NewFromBag => drawn_from_bag(v, draw % (own_bag(v).len() as int)),
        Action::PlaceNew(c) => end_turn(placed(v, c)),
        Action::Move(d) => end_turn(moved(v, d)),
        Action::Jump(d) => end_turn(moved(v, d)),
        Action::JumpSlide(d) => end_turn(moved(v, d)),
        Action::Slide(d) => end_turn(moved(v, d)),
        Action::Command(d) => end_turn(commanded(v, d)),
        Action::Strike(d) => end_turn(struck(v, d)),
    }
}

/// Whether the tile at `c` belongs to `color`.
pub open spec fn owns(v: StateView, c: Coordinate, color: TileColor) -> bool {
    tile_at(v, c) matches Some(t) && t.color == color
}

/// Whether the target of an action by the side to move suits its result: a
/// capture needs a hostile tile there, a move an empty square.
pub open spec fn target_ok(v: StateView, c: Coordinate, result: ActionResult) -> bool {
    match result {
        ActionResult::Capture => owns(v, c, opponent(v.ply)),
        ActionResult::Move => tile_at(v, c) is None,
    }
}

/// Whether an ordinary action fits the game: its tile belongs to the side to
/// move and its target suits its result.
pub open spec fn data_ok(v: StateView, d: ActionData) -> bool {
    on_board(d.tile_pos) && on_board(d.target_pos) && owns(v, d.tile_pos, v.ply) && target_ok(
        v,
        d.target_pos,
        d.result,
    )
}

/// Whether `a` fits the game `v`: what every legal action satisfies, and what
/// applying it needs.
pub open spec fn action_ok(v: StateView, a: Action) -> bool {
    v.game_over is None && match a {
        Action::NewFromBag => own_bag(v).len() > 0,
        Action::PlaceNew(c) => on_board(c) && own_drawn(v).len() > 0,
        Action::Move(d) => data_ok(v, d),
        Action::Jump(d) => data_ok(v, d),
        Action::JumpSlide(d) => data_ok(v, d),
        Action::Slide(d) => data_ok(v, d),
        Action::Strike(d) => data_ok(v, d) && d.result == ActionResult::Capture,
        Action::Command(d) => on_board(d.tile_pos) && on_board(d.command_tile_pos) && on_board(d.target_pos)
            && owns(v, d.tile_pos, v.ply) && owns(v, d.command_tile_pos, v.ply) && d.tile_pos
            != d.command_tile_pos && target_ok(v, d.target_pos, d.result),
    }
}

/// Replacing a square keeps the shape of the game.
pub proof fn lemma_with_square_shaped(v: StateView, c: Coordinate, q: SquareView)
    requires
        shaped(v),
        on_board(c),
    ensures
        shaped(with_square(v, c, q)),
{
    let w = with_square(v, c, q);
    assert forall|y: int| 0 <= y < HEIGHT implies #[trigger] w.board[y].len() == WIDTH by {
        if y != c.y {
            assert(w.board[y] == v.board[y]);
        }
    }
}

/// No tile type of the catalog projects an effect, so projecting or taking
/// back the effects of a tile leaves the game as it is.
pub proof fn lemma_no_effects(v: StateView, pos: Coordinate)
    ensures
        added_effects(v, pos) == v,
        cleared_effects(v, pos) == v,
{
    if let Some(t) = tile_at(v, pos) {
        assert(effect_vocab(t) =~= Seq::<AvailableEffect>::empty());
    }
}

/// Puts `t` at `c`.
fn set_tile(state: &mut GameState, c: Coordinate, t: Option<Tile>)
    requires
        shaped(old(state)@),
        on_board(c),
    ensures
        final(state)@ == with_tile(old(state)@, c, t),
        shaped(final(state)@),
{
    let ghost v = state@;
    state.mut_square(c).tile = t;
    proof {
        assert(state@.board[c.y as int] =~= with_tile(v, c, t).board[c.y as int]);
        assert(state@.board =~= with_tile(v, c, t).board);
        assert(state@ =~= with_tile(v, c, t));
        lemma_with_square_shaped(v, c, SquareView { effects: effects_at(v, c), tile: t });
    }
}

/// Records `p` as the duke position of `color`.
fn set_duke(state: &mut GameState, color: TileColor, p: Option<Coordinate>)
    requires
        shaped(old(state)@),
        p matches Some(q) ==> on_board(q),
    ensures
        final(state)@ == with_duke(old(state)@, color, p),
        shaped(final(state)@),
{
    let ghost v = state@;
    let i = color_index(color);
    let r = &mut state.dukes[i];
    *r = p;
    proof {
        assert(state@.dukes =~= with_duke(v, color, p).dukes);
        assert(state@ =~= with_duke(v, color, p));
    }
}

/// Adds `e` to the effects at `c`.
fn push_effect(state: &mut GameState, c: Coordinate, e: Effect)
    requires
        shaped(old(state)@),
        on_board(c),
    ensures
        final(state)@ == with_effects(old(state)@, c, effects_at(old(state)@, c).push(e)),
        shaped(final(state)@),
{
    let ghost v = state@;
    let ghost w = with_effects(v, c, effects_at(v, c).push(e));
    state.mut_square(c).effects.push(e);
    proof {
        assert(state@.board[c.y as int][c.x as int] =~= w.board[c.y as int][c.x as int]);
        assert(state@.board[c.y as int] =~= w.board[c.y as int]);
        assert(state@.board =~= w.board);
        assert(state@ =~= w);
        lemma_with_square_shaped(v, c, SquareView { effects: effects_at(v, c).push(e), tile: tile_at(v, c) });
    }
}

/// Takes one `e`, if any, out of the effects at `c`.
fn remove_effect(state: &mut GameState, c: Coordinate, e: Effect)
    requires
        shaped(old(state)@),
        on_board(c),
    ensures
        final(state)@ == with_effects(old(state)@, c, remove_one(effects_at(old(state)@, c), e)),
        shaped(final(state)@),
{
    let ghost v = state@;
    let ghost s = effects_at(v, c);
    let ghost w = with_effects(v, c, remove_one(s, e));
    let effects = &state.square(c).effects;
    let mut i: usize = 0;
    while i < effects.len() && effects[i] != e
        invariant
            effects@ == s,
            i <= s.len(),
            first_from(s, e, 0) == first_from(s, e, i as int),
        decreases s.len() - i,
    {
        i = i + 1;
    }
    if i < effects.len() {
        assert(first_from(s, e, 0) == i);
        assert(v.board[c.y as int].len() == WIDTH);
        assert(s == state.board@[c.y as int]@[c.x as int].effects@);
        let sq = state.mut_square(c);
        assert(sq.effects@ == s);
        sq.effects.swap_remove(i);
        proof {
            assert(state@.board[c.y as int][c.x as int] =~= w.board[c.y as int][c.x as int]);
            assert(state@.board[c.y as int] =~= w.board[c.y as int]);
            assert(state@.board =~= w.board);
            assert(state@ =~= w);
        }
    } else {
        proof {
            assert(first_from(s, e, 0) == -1);
            assert(remove_one(s, e) == s);
            assert(v.board[c.y as int][c.x as int] =~= w.board[c.y as int][c.x as int]);
            assert(v.board[c.y as int] =~= w.board[c.y as int]);
            assert(v.board =~= w.board);
            assert(v =~= w);
        }
    }
    proof {
        lemma_with_square_shaped(v, c, SquareView { effects: remove_one(s, e), tile: tile_at(v, c) });
    }
}

/// Projects the effects of the tile at `pos` onto the squares they reach.
fn add_tile_effects(state: &mut GameState, pos: Coordinate)
    requires
        shaped(old(state)@),
        on_board(pos),
    ensures
        final(state)@ == added_effects(old(state)@, pos),
        shaped(final(state)@),
{
    let ghost v = state@;
    let t = match state.square(pos).tile {
        Some(t) => t,
        None => {
            return;
        },
    };
    let voc = side_effects(t.kind, t.flipped, t.color);
    let mut i: usize = 0;
    while i < voc.len()
        invariant
            shaped(state@),
            on_board(pos),
            voc@ == effect_vocab(t),
            tile_at(v, pos) == Some(t),
            i <= voc.len(),
            state@ == add_effect_seq(v, pos, voc@.take(i as int)),
        decreases voc.len() - i,
    {
        let e = voc[i];
        proof {
            assert(voc@.take(i as int + 1).drop_last() =~= voc@.take(i as int));
        }
        let x: i16 = pos.x as i16 + e.offset.x as i16;
        let y: i16 = pos.y as i16 + e.offset.y as i16;
        if 0 <= x && x < WIDTH as i16 && 0 <= y && y < HEIGHT as i16 {
            let c = Coordinate { x: x as u8, y: y as u8 };
            assert(c == at(x as int, y as int));
            push_effect(state, c, e.kind);
        }
        i = i + 1;
    }
    proof {
        assert(voc@.take(voc.len() as int) =~= voc@);
    }
}

/// Takes back the effects of the tile at `pos` from the squares they reach.
fn clear_tile_effects(state: &mut GameState, pos: Coordinate)
    requires
        shaped(old(state)@),
        on_board(pos),
    ensures
        final(state)@ == cleared_effects(old(state)@, pos),
        shaped(final(state)@),
{
    let ghost v = state@;
    let t = match state.square(pos).tile {
        Some(t) => t,
        None => {
            return;
        },
    };
    let voc = side_effects(t.kind, t.flipped, t.color);
    let mut i: usize = 0;
    while i < voc.len()
        invariant
            shaped(state@),
            on_board(pos),
            voc@ == effect_vocab(t),
            tile_at(v, pos) == Some(t),
            i <= voc.len(),
            state@ == clear_effect_seq(v, pos, voc@.take(i as int)),
        decreases voc.len() - i,
    {
        let e = voc[i];
        proof {
            assert(voc@.take(i as int + 1).drop_last() =~= voc@.take(i as int));
        }
        let x: i16 = pos.x as i16 + e.offset.x as i16;
        let y: i16 = pos.y as i16 + e.offset.y as i16;
        if 0 <= x && x < WIDTH as i16 && 0 <= y && y < HEIGHT as i16 {
            let c = Coordinate { x: x as u8, y: y as u8 };
            assert(c == at(x as int, y as int));
            remove_effect(state, c, e.kind);
        }
        i = i + 1;
    }
    proof {
        assert(voc@.take(voc.len() as int) =~= voc@);
    }
}

/// Takes the tile at `c` to the graveyard, as `captured` says.
fn capture_tile(state: &mut GameState, c: Coordinate)
    requires
        shaped(old(state)@),
        on_board(c),
        tile_at(old(state)@, c) is Some,
    ensures
        final(state)@ == captured(old(state)@, c),
        shaped(final(state)@),
{
    proof {
        lemma_no_effects(state@, c);
    }
    clear_tile_effects(state, c);
    let cap = state.square(c).tile.unwrap();
    if cap.kind == TileType::Duke {
        let opp = other_color(state.ply);
        set_duke(state, opp, None);
    }
    let ghost v = state@;
    state.graveyard.push(cap);
    proof {
        assert(state@ =~= StateView { graveyard: v.graveyard.push(cap), ..v });
    }
}

/// Moves the tile at `d.tile_pos` to `d.target_pos`, as `moved` says.
fn standard_action(state: &mut GameState, d: &ActionData)
    requires
        shaped(old(state)@),
        data_ok(old(state)@, *d),
    ensures
        final(state)@ == moved(old(state)@, *d),
        shaped(final(state)@),
{
    let ghost v0 = state@;
    proof {
        lemma_no_effects(state@, d.tile_pos);
    }
    let mut tile = state.square(d.tile_pos).tile.unwrap();
    clear_tile_effects(state, d.tile_pos);
    tile.flip();
    set_tile(state, d.tile_pos, None);
    if d.result == ActionResult::Capture {
        capture_tile(state, d.target_pos);
    }
    set_tile(state, d.target_pos, Some(tile));
    add_tile_effects(state, d.target_pos);
    if tile.kind == TileType::Duke {
        let ply = state.ply;
        set_duke(state, ply, Some(d.target_pos));
    }
}

/// Carries out a command, as `commanded` says.
fn command_action(state: &mut GameState, d: &CommandActionData)
    requires
        shaped(old(state)@),
        on_board(d.tile_pos),
        on_board(d.command_tile_pos),
        on_board(d.target_pos),
        owns(old(state)@, d.tile_pos, old(state)@.ply),
        owns(old(state)@, d.command_tile_pos, old(state)@.ply),
        d.tile_pos != d.command_tile_pos,
        target_ok(old(state)@, d.target_pos, d.result),
    ensures
        final(state)@ == commanded(old(state)@, *d),
        shaped(final(state)@),
{
    proof {
        lemma_no_effects(state@, d.tile_pos);
        lemma_no_effects(state@, d.command_tile_pos);
    }
    let mut commander = state.square(d.tile_pos).tile.unwrap();
    let tile = state.square(d.command_tile_pos).tile.unwrap();
    clear_tile_effects(state, d.tile_pos);
    clear_tile_effects(state, d.command_tile_pos);
    set_tile(state, d.command_tile_pos, None);
    if d.result == ActionResult::Capture {
        capture_tile(state, d.target_pos);
    }
    set_tile(state, d.target_pos, Some(tile));
    if tile.kind == TileType::Duke {
        let ply = state.ply;
        set_duke(state, ply, Some(d.target_pos));
    }
    commander.flip();
    set_tile(state, d.tile_pos, Some(commander));
    add_tile_effects(state, d.tile_pos);
    add_tile_effects(state, d.target_pos);
}

/// Carries out a strike, as `struck` says.
fn strike_action(state: &mut GameState, d: &ActionData)
    requires
        shaped(old(state)@),
        data_ok(old(state)@, *d),
        d.result == ActionResult::Capture,
    ensures
        final(state)@ == struck(old(state)@, *d),
        shaped(final(state)@),
{
    let mut striker = state.square(d.tile_pos).tile.unwrap();
    capture_tile(state, d.target_pos);
    set_tile(state, d.target_pos, None);
    proof {
        lemma_no_effects(state@, d.tile_pos);
    }
    clear_tile_effects(state, d.tile_pos);
    striker.flip();
    set_tile(state, d.tile_pos, Some(striker));
    add_tile_effects(state, d.tile_pos);
}

/// Places the drawn tile of the side to move at `c`, as `placed` says.
fn place_new_tile(state: &mut GameState, c: Coordinate)
    requires
        shaped(old(state)@),
        on_board(c),
        own_drawn(old(state)@).len() > 0,
    ensures
        final(state)@ == placed(old(state)@, c),
        shaped(final(state)@),
{
    let ghost v = state@;
    let p = color_index(state.ply);
    assert(state.drawn_tiles@[p as int]@ == own_drawn(v));
    let tile = state.mut_drawn().pop().unwrap();
    proof {
        assert(state@.drawn =~= v.drawn.update(p as int, own_drawn(v).drop_last()));
        assert(state@ =~= StateView { drawn: v.drawn.update(p as int, own_drawn(v).drop_last()), ..v });
    }
    if tile.kind == TileType::Duke {
        let ply = state.ply;
        set_duke(state, ply, Some(c));
    }
    set_tile(state, c, Some(tile));
    add_tile_effects(state, c);
}

/// Moves the bag tile at index `draw % len` of the side to move to its drawn
/// queue, as `drawn_from_bag` says.
fn draw_new_tile(state: &mut GameState, draw: u64)
    requires
        shaped(old(state)@),
        own_bag(old(state)@).len() > 0,
    ensures
        final(state)@ == drawn_from_bag(old(state)@, draw as int % (own_bag(old(state)@).len() as int)),
        shaped(final(state)@),
{
    let ghost v = state@;
    let p = color_index(state.ply);
    assert(state.bags@[p as int]@ == own_bag(v));
    assert(state.drawn_tiles@[p as int]@ == own_drawn(v));
    let len = state.bags[p].len();
    let i = (draw % (len as u64)) as usize;
    let tile = state.mut_bag().swap_remove(i);
    state.mut_drawn().push(tile);
    proof {
        let w = drawn_from_bag(v, draw as int % (own_bag(v).len() as int));
        assert(state@.bags =~= w.bags);
        assert(state@.drawn =~= w.drawn);
        assert(state@ =~= w);
    }
}

/// Passes the turn and ends the game if the side now to move has lost, as
/// `end_turn` says.
fn end_turn_exec(state: &mut GameState)
    requires
        shaped(old(state)@),
        old(state)@.game_over is None,
    ensures
        final(state)@ == end_turn(old(state)@),
        shaped(final(state)@),
{
    let ghost v = state@;
    let mover = state.ply;
    state.ply = other_color(mover);
    assert(state@ =~= StateView { ply: opponent(v.ply), ..v });
    let lost = match *state.own_duke_pos() {
        None => {
            let drawn = state.drawn();
            !(drawn.len() > 0 && drawn[drawn.len() - 1].kind == TileType::Duke)
        },
        Some(_) => get_actions(state).len() == 0,
    };
    if lost {
        state.game_over = Some(Winner::Color(mover));
    }
    proof {
        assert(state@ =~= end_turn(v));
    }
}

/// Relies on `rand::random`, the draw of a value from the thread's generator:
/// nothing is known of the value.
pub assume_specification<T>[ rand::random::<T> ]() -> (r: T)
    where
        rand::distributions::Standard: rand::distributions::Distribution<T>,
;

/// Applies `action`, which must fit the game; `draw` picks the bag tile of a
/// `NewFromBag`: the one at index `draw % len`.
pub fn do_unsafe_action_with_draw(state: &mut GameState, action: &Action, draw: u64)
    requires
        shaped(old(state)@),
        action_ok(old(state)@, *action),
    ensures
        final(state)@ == applied(old(state)@, *action, draw as int),
        shaped(final(state)@),
{
    match *action {
        Action::NewFromBag => {
            draw_new_tile(state, draw);
            return;
        },
        Action::PlaceNew(c) => {
            place_new_tile(state, c);
        },
        Action::Move(d) => {
            standard_action(state, &d);
        },
        Action::Jump(d) => {
            standard_action(state, &d);
        },
        Action::JumpSlide(d) => {
            standard_action(state, &d);
        },
        Action::Slide(d) => {
            standard_action(state, &d);
        },
        Action::Command(d) => {
            command_action(state, &d);
        },
        Action::Strike(d) => {
            strike_action(state, &d);
        },
    }
    end_turn_exec(state);
}

/// What applying `a` to `v` may give: for a draw from the bag, any tile of
/// the bag may be drawn; every other action has one outcome.
pub open spec fn applied_some_draw(v: StateView, a: Action, w: StateView) -> bool {
    if a == Action::NewFromBag {
        exists|i: int| 0 <= i < own_bag(v).len() && w == drawn_from_bag(v, i)
    } else {
        w == applied(v, a, 0)
    }
}

/// Applies `action`, which must fit the game, drawing a bag tile at random
/// for a `NewFromBag`.
pub fn do_unsafe_action(state: &mut GameState, action: &Action)
    requires
        shaped(old(state)@),
        action_ok(old(state)@, *action),
    ensures
        applied_some_draw(old(state)@, *action, final(state)@),
        shaped(final(state)@),
{
    let ghost v = state@;
    let draw: u64 = if *action == Action::NewFromBag {
        rand::random::<u64>()
    } else {
        0
    };
    do_unsafe_action_with_draw(state, action, draw);
    proof {
        if *action == Action::NewFromBag {
            let i = draw as int % (own_bag(v).len() as int);
            assert(0 <= i < own_bag(v).len() && state@ == drawn_from_bag(v, i));
        }
    }
}

/// A copy of `v`.
fn copy_vec<T: Copy>(v: &Vec<T>) -> (r: Vec<T>)
    ensures
        r@ == v@,
{
    let mut r: Vec<T> = Vec::new();
    let mut i: usize = 0;
    while i < v.len()
        invariant
            i <= v.len(),
            r@ =~= v@.take(i as int),
        decreases v.len() - i,
    {
        r.push(v[i]);
        proof {
            assert(v@.take(i as int + 1) =~= v@.take(i as int).push(v@[i as int]));
        }
        i = i + 1;
    }
    proof {
        assert(v@.take(v.len() as int) =~= v@);
    }
    r
}

/// A copy of a vector of vectors.
fn copy_nested<T: Copy>(v: &Vec<Vec<T>>) -> (r: Vec<Vec<T>>)
    ensures
        r@.len() == v@.len(),
        forall|i: int| 0 <= i < v@.len() ==> (#[trigger] r@[i])@ == v@[i]@,
{
    let mut r: Vec<Vec<T>> = Vec::new();
    let mut i: usize = 0;
    while i < v.len()
        invariant
            i <= v.len(),
            r@.len() == i,
            forall|j: int| 0 <= j < i ==> (#[trigger] r@[j])@ == v@[j]@,
        decreases v.len() - i,
    {
        r.push(copy_vec(&v[i]));
        i = i + 1;
    }
    r
}

/// A copy of a square.
fn copy_square(q: &Square) -> (r: Square)
    ensures
        r@ == q@,
{
    Square { effects: copy_vec(&q.effects), tile: q.tile }
}

/// A copy of the board.
fn copy_board(b: &Vec<Vec<Square>>) -> (r: Vec<Vec<Square>>)
    ensures
        r@.len() == b@.len(),
        forall|i: int| 0 <= i < b@.len() ==> (#[trigger] r@[i])@.map_values(|q: Square| q@) =~= b@[i]@.map_values(|q: Square| q@),
{
    let mut r: Vec<Vec<Square>> = Vec::new();
    let mut i: usize = 0;
    while i < b.len()
        invariant
            i <= b.len(),
            r@.len() == i,
            forall|j: int| 0 <= j < i ==> (#[trigger] r@[j])@.map_values(|q: Square| q@) =~= b@[j]@.map_values(|q: Square| q@),
        decreases b.len() - i,
    {
        let row = &b[i];
        let mut nr: Vec<Square> = Vec::new();
        let mut k: usize = 0;
        while k < row.len()
            invariant
                k <= row.len(),
                nr@.len() == k,
                forall|j: int| 0 <= j < k ==> (#[trigger] nr@[j])@ == row@[j]@,
            decreases row.len() - k,
        {
            nr.push(copy_square(&row[k]));
            k = k + 1;
        }
        r.push(nr);
        i = i + 1;
    }
    r
}

/// A copy of the whole game.
fn copy_state(state: &GameState) -> (r: GameState)
    ensures
        r@ == state@,
{
    let r = GameState {
        board: copy_board(&state.board),
        bags: copy_nested(&state.bags),
        drawn_tiles: copy_nested(&state.drawn_tiles),
        graveyard: copy_vec(&state.graveyard),
        ply: state.ply,
        game_over: state.game_over,
        dukes: copy_vec(&state.dukes),
    };
    proof {
        assert(r@.board =~= state@.board);
        assert(r@.bags =~= state@.bags);
        assert(r@.drawn =~= state@.drawn);
        assert(r@ =~= state@);
    }
    r
}

/// The game after `action`, which must fit it; `state` is left as it is.
pub fn do_unsafe_action_copy(state: &GameState, action: &Action) -> (r: GameState)
    requires
        shaped(state@),
        action_ok(state@, *action),
    ensures
        applied_some_draw(state@, *action, r@),
        shaped(r@),
{
    let mut new_state = copy_state(state);
    do_unsafe_action(&mut new_state, action);
    new_state
}

} // verus!
