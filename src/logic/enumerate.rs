//! The legal actions of a position.

use vstd::prelude::*;
use crate::logic::catalog::{side_actions, vocab};
use crate::logic::paths::{blocked, can_act, has_defence, has_effect, holds_color, path_blocked, tile_can_act};
use crate::logic::{
    at, direction_of, get_direction, in_board, on_board, own_bag, own_drawn, own_duke, shaped,
    tile_at, Action, ActionData, ActionResult, ActionType, AvailableAction, CommandActionData,
    Coordinate, Effect, GameState, StateView, Tile, TileColor, TileType, HEIGHT, WIDTH,
};

verus! {

/// The data of an ordinary action.
pub open spec fn data(pos: Coordinate, target: Coordinate, result: ActionResult) -> ActionData {
    ActionData { tile_pos: pos, target_pos: target, result }
}

/// The sequence holding the action, if any.
pub open spec fn opt_seq(o: Option<Action>) -> Seq<Action> {
    match o {
        Some(a) => seq![a],
        None => seq![],
    }
}

/// What an unblocked action of a tile of colour `color` does on `target`:
/// nothing if a friendly tile stands there, a capture if a hostile one does.
pub open spec fn outcome(v: StateView, color: TileColor, target: Coordinate) -> Option<ActionResult> {
    match tile_at(v, target) {
        Some(b) => if b.color != color {
            Some(ActionResult::Capture)
        } else {
            None
        },
        None => Some(ActionResult::Move),
    }
}

/// The `Move` of the tile `t` at `pos` to `target`, if it is legal.
pub open spec fn move_action(v: StateView, pos: Coordinate, t: Tile, target: Coordinate) -> Option<Action> {
    if blocked(v, t.color, ActionType::Move, pos, target) {
        None
    } else {
        match outcome(v, t.color, target) {
            Some(r) => Some(Action::Move(data(pos, target, r))),
            None => None,
        }
    }
}

/// The `Jump` of the tile `t` at `pos` to `target`, if it is legal.
pub open spec fn jump_action(v: StateView, pos: Coordinate, t: Tile, target: Coordinate) -> Option<Action> {
    if blocked(v, t.color, ActionType::Jump, pos, target) {
        None
    } else {
        match outcome(v, t.color, target) {
            Some(r) => Some(Action::Jump(data(pos, target, r))),
            None => None,
        }
    }
}

/// The `Strike` of the tile `t` at `pos` on `target`, if it is legal: only a
/// hostile tile can be struck.
pub open spec fn strike_action(v: StateView, pos: Coordinate, t: Tile, target: Coordinate) -> Option<Action> {
    if blocked(v, t.color, ActionType::Jump, pos, target) {
        None
    } else if outcome(v, t.color, target) == Some(ActionResult::Capture) {
        Some(Action::Strike(data(pos, target, ActionResult::Capture)))
    } else {
        None
    }
}

/// A slide step, or a jump-slide step.
pub open spec fn slide_act(js: bool, d: ActionData) -> Action {
    if js {
        Action::JumpSlide(d)
    } else {
        Action::Slide(d)
    }
}

/// The slide steps of the tile `t` at `pos`, walking from `(x, y)` by
/// `(dx, dy)` for at most `fuel` squares: each empty square gives a step, a
/// defence stops the walk, a tile stops it with a capture if it is hostile.
pub open spec fn slide_walk(
    v: StateView,
    pos: Coordinate,
    t: Tile,
    dx: int,
    dy: int,
    x: int,
    y: int,
    js: bool,
    fuel: nat,
) -> Seq<Action>
    decreases fuel,
{
    if fuel == 0 || !in_board(x, y) {
        seq![]
    } else if has_defence(v, at(x, y)) {
        seq![]
    } else {
        match tile_at(v, at(x, y)) {
            Some(b) => if b.color != t.color {
                seq![slide_act(js, data(pos, at(x, y), ActionResult::Capture))]
            } else {
                seq![]
            },
            None => seq![slide_act(js, data(pos, at(x, y), ActionResult::Move))] + slide_walk(
                v,
                pos,
                t,
                dx,
                dy,
                x + dx,
                y + dy,
                js,
                (fuel - 1) as nat,
            ),
        }
    }
}

/// The slide (or, with `js`, jump-slide) actions of the tile `t` at `pos`
/// whose walk starts at `start`, heading away from `pos`. A jump-slide first
/// jumps to `start`, and gives nothing if that jump is blocked.
pub open spec fn slide_actions(v: StateView, pos: Coordinate, t: Tile, js: bool, start: Coordinate) -> Seq<Action> {
    if js && blocked(v, t.color, ActionType::Jump, pos, start) {
        seq![]
    } else {
        let d = direction_of(pos, start);
        slide_walk(v, pos, t, d.x as int, d.y as int, start.x as int, start.y as int, js, 6)
    }
}

/// The command of one vocabulary entry: the tile `t` at `pos` sends the tile
/// at `target` to the square of the entry's offset, if that square is on the
/// board and holds no friendly tile.
pub open spec fn command_one(v: StateView, pos: Coordinate, t: Tile, target: Coordinate, a: AvailableAction) -> Seq<Action> {
    let x = pos.x + a.offset.x;
    let y = pos.y + a.offset.y;
    if a.kind != ActionType::Command || !in_board(x, y) {
        seq![]
    } else {
        match outcome(v, t.color, at(x, y)) {
            Some(r) => seq![
                Action::Command(
                    CommandActionData { tile_pos: pos, command_tile_pos: target, target_pos: at(x, y), result: r },
                ),
            ],
            None => seq![],
        }
    }
}

/// The commands of the entries of `voc`, in order.
pub open spec fn command_seq(v: StateView, pos: Coordinate, t: Tile, target: Coordinate, voc: Seq<AvailableAction>) -> Seq<Action>
    decreases voc.len(),
{
    if voc.len() == 0 {
        seq![]
    } else {
        command_seq(v, pos, t, target, voc.drop_last()) + command_one(v, pos, t, target, voc.last())
    }
}

/// The commands by the tile `t` at `pos` of the tile at `target`, which must
/// be friendly.
pub open spec fn command_actions(v: StateView, pos: Coordinate, t: Tile, target: Coordinate) -> Seq<Action> {
    if holds_color(v, target, t.color) {
        command_seq(v, pos, t, target, vocab(t))
    } else {
        seq![]
    }
}

/// The actions that one vocabulary entry gives the tile `t` at `pos`.
pub open spec fn one_action(v: StateView, pos: Coordinate, t: Tile, a: AvailableAction) -> Seq<Action> {
    let x = pos.x + a.offset.x;
    let y = pos.y + a.offset.y;
    if !in_board(x, y) {
        seq![]
    } else {
        let target = at(x, y);
        match a.kind {
            ActionType::Move => opt_seq(move_action(v, pos, t, target)),
            ActionType::Jump => opt_seq(jump_action(v, pos, t, target)),
            ActionType::JumpSlide => slide_actions(v, pos, t, true, target),
            ActionType::Slide => slide_actions(v, pos, t, false, target),
            ActionType::Command => command_actions(v, pos, t, target),
            ActionType::Strike => opt_seq(strike_action(v, pos, t, target)),
            _ => seq![],
        }
    }
}

/// The actions of the entries of `voc`, in order.
pub open spec fn actions_seq(v: StateView, pos: Coordinate, t: Tile, voc: Seq<AvailableAction>) -> Seq<Action>
    decreases voc.len(),
{
    if voc.len() == 0 {
        seq![]
    } else {
        actions_seq(v, pos, t, voc.drop_last()) + one_action(v, pos, t, voc.last())
    }
}

/// The actions of the tile at `pos`: none when the game is over, when no
/// tile stands there, or when a dread holds it.
pub open spec fn actions_of_tile(v: StateView, pos: Coordinate) -> Seq<Action> {
    if v.game_over is Some {
        seq![]
    } else {
        match tile_at(v, pos) {
            None => seq![],
            Some(t) => if !can_act(v, pos, t) {
                seq![]
            } else {
                actions_seq(v, pos, t, vocab(t))
            },
        }
    }
}

/// `d + (dx, dy)` if it is on the board and empty.
pub open spec fn free_neighbour(v: StateView, d: Coordinate, dx: int, dy: int) -> Seq<Coordinate> {
    if in_board(d.x + dx, d.y + dy) && tile_at(v, at(d.x + dx, d.y + dy)) is None {
        seq![at(d.x + dx, d.y + dy)]
    } else {
        seq![]
    }
}

/// Where the side to move can be given its spawn squares: the game is over,
/// its duke stands on the board, or its duke is the next tile to place.
pub open spec fn spawn_defined(v: StateView) -> bool {
    v.game_over is Some || own_duke(v) is Some || (own_drawn(v).len() > 0 && own_drawn(v).last().kind
        == TileType::Duke)
}

/// The squares where the side to move may place a drawn tile: the two opening
/// squares before its duke stands on the board, else the empty squares right,
/// left, above and below its duke.
pub open spec fn spawn_squares(v: StateView) -> Seq<Coordinate> {
    if v.game_over is Some {
        seq![]
    } else {
        match own_duke(v) {
            None => if v.ply == TileColor::Black {
                seq![at(2, 0), at(3, 0)]
            } else {
                seq![at(2, HEIGHT - 1), at(3, HEIGHT - 1)]
            },
            Some(d) => free_neighbour(v, d, 1, 0) + free_neighbour(v, d, -1, 0) + free_neighbour(v, d, 0, 1)
                + free_neighbour(v, d, 0, -1),
        }
    }
}

/// The actions of the square number `k`, counted row by row: those of its
/// tile if the tile belongs to the side to move.
pub open spec fn cell_actions(v: StateView, k: int) -> Seq<Action> {
    let c = at(k % 6, k / 6);
    match tile_at(v, c) {
        Some(t) => if t.color == v.ply {
            actions_of_tile(v, c)
        } else {
            seq![]
        },
        None => seq![],
    }
}

/// The actions of the first `n` squares, counted row by row.
pub open spec fn board_actions(v: StateView, n: int) -> Seq<Action>
    decreases n,
{
    if n <= 0 {
        seq![]
    } else {
        board_actions(v, n - 1) + cell_actions(v, n - 1)
    }
}

/// All legal actions of the side to move. When the game is over there are
/// none; with a drawn tile, only its placements; else a draw from the bag if
/// the bag and the spawn squares allow it, then the tiles' actions square by
/// square.
pub open spec fn legal_actions(v: StateView) -> Seq<Action> {
    if v.game_over is Some {
        seq![]
    } else if own_drawn(v).len() > 0 {
        spawn_squares(v).map_values(|c: Coordinate| Action::PlaceNew(c))
    } else {
        (if spawn_squares(v).len() > 0 && own_bag(v).len() > 0 {
            seq![Action::NewFromBag]
        } else {
            seq![]
        }) + board_actions(v, 36)
    }
}

/// What an unblocked action does on `target`, as `outcome` says.
fn outcome_exec(state: &GameState, color: TileColor, target: Coordinate) -> (r: Option<ActionResult>)
    requires
        shaped(state@),
        on_board(target),
    ensures
        r == outcome(state@, color, target),
{
    match state.square(target).tile {
        Some(b) => if b.color != color {
            Some(ActionResult::Capture)
        } else {
            None
        },
        None => Some(ActionResult::Move),
    }
}

/// The legal `Move` of `tile` at `pos` to `target`, if any.
fn get_move_action(state: &GameState, pos: Coordinate, tile: &Tile, target: Coordinate) -> (r: Option<Action>)
    requires
        shaped(state@),
        on_board(pos),
        on_board(target),
    ensures
        r == move_action(state@, pos, *tile, target),
{
    if path_blocked(state, tile.color, ActionType::Move, pos, target) {
        return None;
    }
    match outcome_exec(state, tile.color, target) {
        Some(r) => Some(Action::Move(ActionData { tile_pos: pos, target_pos: target, result: r })),
        None => None,
    }
}

/// The legal `Jump` of `tile` at `pos` to `target`, if any.
fn get_jump_action(state: &GameState, pos: Coordinate, tile: &Tile, target: Coordinate) -> (r: Option<Action>)
    requires
        shaped(state@),
        on_board(pos),
        on_board(target),
    ensures
        r == jump_action(state@, pos, *tile, target),
{
    if path_blocked(state, tile.color, ActionType::Jump, pos, target) {
        return None;
    }
    match outcome_exec(state, tile.color, target) {
        Some(r) => Some(Action::Jump(ActionData { tile_pos: pos, target_pos: target, result: r })),
        None => None,
    }
}

/// The legal `Strike` of `tile` at `pos` on `target`, if any.
fn get_strike_action(state: &GameState, pos: Coordinate, tile: &Tile, target: Coordinate) -> (r: Option<Action>)
    requires
        shaped(state@),
        on_board(pos),
        on_board(target),
    ensures
        r == strike_action(state@, pos, *tile, target),
{
    if path_blocked(state, tile.color, ActionType::Jump, pos, target) {
        return None;
    }
    match outcome_exec(state, tile.color, target) {
        Some(ActionResult::Capture) => Some(
            Action::Strike(ActionData { tile_pos: pos, target_pos: target, result: ActionResult::Capture }),
        ),
        _ => None,
    }
}

/// The slide (or jump-slide, with `jumpslide`) actions of `tile` at `pos`
/// whose walk starts at `start`.
fn get_slide_actions(state: &GameState, pos: Coordinate, tile: &Tile, jumpslide: bool, start: Coordinate) -> (r: Vec<Action>)
    requires
        shaped(state@),
        on_board(pos),
        on_board(start),
    ensures
        r@ == slide_actions(state@, pos, *tile, jumpslide, start),
{
    let mut actions: Vec<Action> = Vec::new();
    if jumpslide && path_blocked(state, tile.color, ActionType::Jump, pos, start) {
        return actions;
    }
    let dir = get_direction(pos, start);
    let dx: i16 = dir.x as i16;
    let dy: i16 = dir.y as i16;
    let mut x: i16 = start.x as i16;
    let mut y: i16 = start.y as i16;
    let mut fuel: u8 = 6;
    let ghost total = slide_walk(state@, pos, *tile, dx as int, dy as int, x as int, y as int, jumpslide, 6);
    while fuel > 0 && 0 <= x && x < WIDTH as i16 && 0 <= y && y < HEIGHT as i16
        invariant
            shaped(state@),
            -1 <= dx <= 1,
            -1 <= dy <= 1,
            -8 <= x <= 8,
            -8 <= y <= 8,
            fuel <= 6,
            total == slide_actions(state@, pos, *tile, jumpslide, start),
            total == actions@ + slide_walk(state@, pos, *tile, dx as int, dy as int, x as int, y as int, jumpslide, fuel as nat),
        decreases fuel,
    {
        let c = Coordinate { x: x as u8, y: y as u8 };
        assert(c == at(x as int, y as int));
        let square = state.square(c);
        if has_effect(&square.effects, Effect::Defence) {
            assert(actions@ + seq![] =~= actions@);
            return actions;
        }
        match square.tile {
            Some(b) => {
                if b.color != tile.color {
                    let d = ActionData { tile_pos: pos, target_pos: c, result: ActionResult::Capture };
                    if jumpslide {
                        actions.push(Action::JumpSlide(d));
                    } else {
                        actions.push(Action::Slide(d));
                    }
                    assert(total =~= actions@);
                } else {
                    assert(actions@ + seq![] =~= actions@);
                }
                return actions;
            },
            None => {
                let d = ActionData { tile_pos: pos, target_pos: c, result: ActionResult::Move };
                if jumpslide {
                    actions.push(Action::JumpSlide(d));
                } else {
                    actions.push(Action::Slide(d));
                }
                assert(total =~= actions@ + slide_walk(state@, pos, *tile, dx as int, dy as int, (x + dx) as int, (y + dy) as int, jumpslide, (fuel - 1) as nat));
            },
        }
        x = x + dx;
        y = y + dy;
        fuel = fuel - 1;
    }
    proof {
        assert(actions@ + seq![] =~= actions@);
    }
    actions
}

/// The commands by `tile` at `pos` of the tile at `target`.
fn get_command_actions(state: &GameState, pos: Coordinate, tile: &Tile, target: Coordinate) -> (r: Vec<Action>)
    requires
        shaped(state@),
        on_board(pos),
        on_board(target),
    ensures
        r@ == command_actions(state@, pos, *tile, target),
{
    let mut actions: Vec<Action> = Vec::new();
    match state.square(target).tile {
        Some(b) => {
            if b.color != tile.color {
                return actions;
            }
        },
        None => {
            return actions;
        },
    }
    let voc = side_actions(tile.kind, tile.flipped, tile.color);
    let mut i: usize = 0;
    while i < voc.len()
        invariant
            shaped(state@),
            on_board(pos),
            holds_color(state@, target, tile.color),
            voc@ == vocab(*tile),
            i <= voc.len(),
            actions@ == command_seq(state@, pos, *tile, target, voc@.take(i as int)),
        decreases voc.len() - i,
    {
        let a = voc[i];
        proof {
            assert(voc@.take(i as int + 1).drop_last() =~= voc@.take(i as int));
        }
        if a.kind == ActionType::Command {
            let x: i16 = pos.x as i16 + a.offset.x as i16;
            let y: i16 = pos.y as i16 + a.offset.y as i16;
            if 0 <= x && x < WIDTH as i16 && 0 <= y && y < HEIGHT as i16 {
                let c = Coordinate { x: x as u8, y: y as u8 };
                assert(c == at(x as int, y as int));
                match outcome_exec(state, tile.color, c) {
                    Some(r) => {
                        actions.push(
                            Action::Command(
                                CommandActionData { tile_pos: pos, command_tile_pos: target, target_pos: c, result: r },
                            ),
                        );
                    },
                    None => {},
                }
            }
        }
        proof {
            assert(actions@ =~= command_seq(state@, pos, *tile, target, voc@.take(i as int + 1)));
        }
        i = i + 1;
    }
    proof {
        assert(voc@.take(voc.len() as int) =~= voc@);
    }
    actions
}

/// The actions of the tile at `tile_pos`, also when it does not belong to the
/// side to move: none when the game is over, the square is empty, or a dread
/// holds the tile.
pub fn get_tile_actions(state: &GameState, tile_pos: Coordinate) -> (r: Vec<Action>)
    requires
        shaped(state@),
        on_board(tile_pos),
    ensures
        r@ == actions_of_tile(state@, tile_pos),
{
    let mut actions: Vec<Action> = Vec::new();
    if state.game_over.is_some() {
        return actions;
    }
    let tile = match state.square(tile_pos).tile {
        Some(t) => t,
        None => {
            return actions;
        },
    };
    if !tile_can_act(state, tile_pos, &tile) {
        return actions;
    }
    let voc = side_actions(tile.kind, tile.flipped, tile.color);
    let mut i: usize = 0;
    while i < voc.len()
        invariant
            shaped(state@),
            on_board(tile_pos),
            voc@ == vocab(tile),
            i <= voc.len(),
            actions@ == actions_seq(state@, tile_pos, tile, voc@.take(i as int)),
        decreases voc.len() - i,
    {
        let a = voc[i];
        proof {
            assert(voc@.take(i as int + 1).drop_last() =~= voc@.take(i as int));
        }
        let x: i16 = tile_pos.x as i16 + a.offset.x as i16;
        let y: i16 = tile_pos.y as i16 + a.offset.y as i16;
        if 0 <= x && x < WIDTH as i16 && 0 <= y && y < HEIGHT as i16 {
            let target = Coordinate { x: x as u8, y: y as u8 };
            assert(target == at(x as int, y as int));
            let mut more: Vec<Action> = match a.kind {
                ActionType::Move => match get_move_action(state, tile_pos, &tile, target) {
                    Some(m) => vec![m],
                    None => Vec::new(),
                },
                ActionType::Jump => match get_jump_action(state, tile_pos, &tile, target) {
                    Some(m) => vec![m],
                    None => Vec::new(),
                },
                ActionType::JumpSlide => get_slide_actions(state, tile_pos, &tile, true, target),
                ActionType::Slide => get_slide_actions(state, tile_pos, &tile, false, target),
                ActionType::Command => get_command_actions(state, tile_pos, &tile, target),
                ActionType::Strike => match get_strike_action(state, tile_pos, &tile, target) {
                    Some(m) => vec![m],
                    None => Vec::new(),
                },
                _ => Vec::new(),
            };
            assert(more@ =~= one_action(state@, tile_pos, tile, a));
            actions.append(&mut more);
        }
        proof {
            assert(actions@ =~= actions_seq(state@, tile_pos, tile, voc@.take(i as int + 1)));
        }
        i = i + 1;
    }
    proof {
        assert(voc@.take(voc.len() as int) =~= voc@);
    }
    actions
}

/// Appends `d + (dx, dy)` to `squares` if it is on the board and empty.
fn push_if_free(state: &GameState, squares: &mut Vec<Coordinate>, d: Coordinate, dx: i16, dy: i16)
    requires
        shaped(state@),
        on_board(d),
        -1 <= dx <= 1,
        -1 <= dy <= 1,
    ensures
        final(squares)@ == old(squares)@ + free_neighbour(state@, d, dx as int, dy as int),
{
    let x: i16 = d.x as i16 + dx;
    let y: i16 = d.y as i16 + dy;
    if 0 <= x && x < WIDTH as i16 && 0 <= y && y < HEIGHT as i16 {
        let c = Coordinate { x: x as u8, y: y as u8 };
        assert(c == at(x as int, y as int));
        if state.square(c).tile.is_none() {
            squares.push(c);
            return;
        }
    }
    assert(squares@ + seq![] =~= squares@);
}

/// The squares where the side to move may place a drawn tile.
pub fn get_spawn_squares(state: &GameState) -> (r: Vec<Coordinate>)
    requires
        shaped(state@),
        spawn_defined(state@),
    ensures
        r@ == spawn_squares(state@),
{
    let mut squares: Vec<Coordinate> = Vec::new();
    if state.game_over.is_some() {
        return squares;
    }
    match *state.own_duke_pos() {
        None => {
            if state.ply == TileColor::Black {
                vec![Coordinate { x: 2, y: 0 }, Coordinate { x: 3, y: 0 }]
            } else {
                vec![Coordinate { x: 2, y: HEIGHT - 1 }, Coordinate { x: 3, y: HEIGHT - 1 }]
            }
        },
        Some(d) => {
            push_if_free(state, &mut squares, d, 1, 0);
            push_if_free(state, &mut squares, d, -1, 0);
            push_if_free(state, &mut squares, d, 0, 1);
            push_if_free(state, &mut squares, d, 0, -1);
            assert(squares@ =~= spawn_squares(state@));
            squares
        },
    }
}

/// All legal actions of the side to move.
pub fn get_actions(state: &GameState) -> (r: Vec<Action>)
    requires
        shaped(state@),
        spawn_defined(state@),
    ensures
        r@ == legal_actions(state@),
{
    let mut actions: Vec<Action> = Vec::new();
    if state.game_over.is_some() {
        return actions;
    }
    let spawn = get_spawn_squares(state);
    if !state.drawn().is_empty() {
        let mut i: usize = 0;
        while i < spawn.len()
            invariant
                i <= spawn.len(),
                actions@ =~= spawn@.take(i as int).map_values(|c: Coordinate| Action::PlaceNew(c)),
            decreases spawn.len() - i,
        {
            actions.push(Action::PlaceNew(spawn[i]));
            proof {
                assert(spawn@.take(i as int + 1) =~= spawn@.take(i as int).push(spawn@[i as int]));
            }
            i = i + 1;
        }
        proof {
            assert(spawn@.take(spawn.len() as int) =~= spawn@);
        }
        return actions;
    }
    if !spawn.is_empty() && !state.bag().is_empty() {
        actions.push(Action::NewFromBag);
    }
    let ghost head = actions@;
    let mut k: u8 = 0;
    while k < 36
        invariant
            shaped(state@),
            state.game_over is None,
            k <= 36,
            actions@ == head + board_actions(state@, k as int),
        decreases 36 - k,
    {
        let c = Coordinate { x: k % 6, y: k / 6 };
        assert(c == at(k as int % 6, k as int / 6));
        match state.square(c).tile {
            Some(t) => {
                if t.color == state.ply {
                    let mut more = get_tile_actions(state, c);
                    actions.append(&mut more);
                }
            },
            None => {},
        }
        proof {
            assert(actions@ =~= head + board_actions(state@, k as int + 1));
        }
        k = k + 1;
    }
    actions
}

/// Whether the legal actions of `state` can be listed: the game has its
/// shape and the side to move has its spawn squares defined.
pub fn actions_defined(state: &GameState) -> (r: bool)
    ensures
        r == (shaped(state@) && spawn_defined(state@)),
{
    if state.board.len() != 6 || state.bags.len() != 2 || state.drawn_tiles.len() != 2 || state.dukes.len() != 2 {
        return false;
    }
    let mut y: usize = 0;
    while y < 6
        invariant
            state.board.len() == 6,
            y <= 6,
            forall|j: int| 0 <= j < y ==> (#[trigger] state@.board[j]).len() == WIDTH,
        decreases 6 - y,
    {
        if state.board[y].len() != 6 {
            assert(state@.board[y as int].len() != WIDTH);
            return false;
        }
        y = y + 1;
    }
    let mut i: usize = 0;
    while i < 2
        invariant
            state.dukes.len() == 2,
            i <= 2,
            forall|j: int| 0 <= j < i ==> (#[trigger] state@.dukes[j] matches Some(p) ==> on_board(p)),
        decreases 2 - i,
    {
        if let Some(p) = state.dukes[i] {
            if !Coordinate::legal(p.x, p.y) {
                return false;
            }
        }
        i = i + 1;
    }
    assert(shaped(state@));
    if state.game_over.is_some() || state.own_duke_pos().is_some() {
        return true;
    }
    let drawn = state.drawn();
    drawn.len() > 0 && drawn[drawn.len() - 1].kind == TileType::Duke
}

} // verus!
