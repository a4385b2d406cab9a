//! Which squares an action path crosses, and when the path is blocked.

use vstd::prelude::*;
use crate::logic::{at, effects_at, on_board, shaped, tile_at, ActionType, Coordinate, Effect, GameState, StateView, Tile, TileColor, TileType};

verus! {

/// Absolute value.
pub open spec fn abs(i: int) -> int {
    if i < 0 {
        -i
    } else {
        i
    }
}

/// The value `k` steps from `a` towards `b`.
pub open spec fn along(a: int, b: int, k: int) -> int {
    if a < b {
        a + k
    } else if a > b {
        a - k
    } else {
        a
    }
}

/// Number of steps of the straight path from `a` to `b`.
pub open spec fn steps(a: Coordinate, b: Coordinate) -> int {
    let dx = abs(b.x - a.x);
    let dy = abs(b.y - a.y);
    if dx < dy {
        dy
    } else {
        dx
    }
}

/// The square `k` steps from `a` on the straight path towards `b`.
pub open spec fn cell(a: Coordinate, b: Coordinate, k: int) -> Coordinate {
    at(along(a.x as int, b.x as int, k), along(a.y as int, b.y as int, k))
}

/// A vertical, horizontal or diagonal path.
pub open spec fn is_straight(a: Coordinate, b: Coordinate) -> bool {
    a.x == b.x || a.y == b.y || abs(a.x - b.x) == abs(a.y - b.y)
}

/// Whether the square at `c` carries a `Defence` effect.
pub open spec fn has_defence(v: StateView, c: Coordinate) -> bool {
    effects_at(v, c).contains(Effect::Defence)
}

/// Whether a tile of colour `color` stands at `c`.
pub open spec fn holds_color(v: StateView, c: Coordinate, color: TileColor) -> bool {
    tile_at(v, c) matches Some(t) && t.color == color
}

/// Whether the square `c` of a path stops an action of kind `kind` by a tile
/// of colour `color`: a defence always does; inside the path any tile stops a
/// `Move`; the final square is closed by a tile of the same colour.
pub open spec fn step_blocks(v: StateView, color: TileColor, kind: ActionType, c: Coordinate, last: bool) -> bool {
    has_defence(v, c) || (!last && kind == ActionType::Move && tile_at(v, c) is Some) || (last
        && holds_color(v, c, color))
}

/// Whether the straight segment from `a` (excluded) to `b` is blocked; `b` is
/// the final square of the path when `ends_path` holds.
pub open spec fn segment_blocked(
    v: StateView,
    color: TileColor,
    kind: ActionType,
    a: Coordinate,
    b: Coordinate,
    ends_path: bool,
) -> bool {
    exists|k: int|
        1 <= k <= steps(a, b) && step_blocks(v, color, kind, #[trigger] cell(a, b, k), ends_path && k == steps(a, b))
}

/// The corner of the L-shaped route from `a` to `b` that goes along `x` first
/// (`x_first`) or along `y` first.
pub open spec fn corner(a: Coordinate, b: Coordinate, x_first: bool) -> Coordinate {
    if x_first {
        Coordinate { x: b.x, y: a.y }
    } else {
        Coordinate { x: a.x, y: b.y }
    }
}

/// Whether the L-shaped route through `corner(a, b, x_first)` is blocked.
pub open spec fn route_blocked(
    v: StateView,
    color: TileColor,
    kind: ActionType,
    a: Coordinate,
    b: Coordinate,
    x_first: bool,
) -> bool {
    segment_blocked(v, color, kind, a, corner(a, b, x_first), false) || segment_blocked(
        v,
        color,
        kind,
        corner(a, b, x_first),
        b,
        true,
    )
}

/// Whether an action of kind `kind` from `start` to `end` is blocked. A
/// path that is not straight is blocked only when both L-shaped routes are.
pub open spec fn blocked(v: StateView, color: TileColor, kind: ActionType, start: Coordinate, end: Coordinate) -> bool {
    if is_straight(start, end) {
        segment_blocked(v, color, kind, start, end, true)
    } else {
        route_blocked(v, color, kind, start, end, true) && route_blocked(v, color, kind, start, end, false)
    }
}

/// Whether a tile of type `kind` may act despite the effects on `pos`.
pub open spec fn can_act(v: StateView, pos: Coordinate, t: Tile) -> bool {
    t.kind == TileType::Duke || !effects_at(v, pos).contains(Effect::Dread)
}

/// Whether `effects` holds `e`.
pub fn has_effect(effects: &Vec<Effect>, e: Effect) -> (r: bool)
    ensures
        r == effects@.contains(e),
{
    let mut i: usize = 0;
    while i < effects.len()
        invariant
            i <= effects.len(),
            forall|j: int| 0 <= j < i ==> effects@[j] != e,
        decreases effects.len() - i,
    {
        if effects[i] == e {
            return true;
        }
        i = i + 1;
    }
    false
}

/// Whether the tile `tile` at `pos` may act: a `Dread` effect on its square
/// holds every tile but the duke.
pub fn tile_can_act(state: &GameState, pos: Coordinate, tile: &Tile) -> (r: bool)
    requires
        shaped(state@),
        on_board(pos),
    ensures
        r == can_act(state@, pos, *tile),
{
    let square = state.square(pos);
    if tile.kind == TileType::Duke {
        return true;
    }
    !has_effect(&square.effects, Effect::Dread)
}

/// Whether the path from `start` to `end` is vertical, horizontal or diagonal.
pub fn straight_path(start: &Coordinate, end: &Coordinate) -> (r: bool)
    ensures
        r == is_straight(*start, *end),
{
    if start.x == end.x || start.y == end.y {
        return true;
    }
    let dx: i16 = end.x as i16 - start.x as i16;
    let dy: i16 = end.y as i16 - start.y as i16;
    let ax: i16 = if dx < 0 { -dx } else { dx };
    let ay: i16 = if dy < 0 { -dy } else { dy };
    ax == ay
}

/// The value `k` steps from `a` towards `b`.
fn step_along(a: u8, b: u8, k: u8) -> (r: u8)
    requires
        a < b ==> a + k <= b,
        a > b ==> k <= a - b,
    ensures
        r == along(a as int, b as int, k as int),
{
    if a < b {
        a + k
    } else if a > b {
        a - k
    } else {
        a
    }
}

/// Whether `c` stops the action, as `step_blocks` says.
fn square_blocks(state: &GameState, color: TileColor, kind: ActionType, c: Coordinate, last: bool) -> (r: bool)
    requires
        shaped(state@),
        on_board(c),
    ensures
        r == step_blocks(state@, color, kind, c, last),
{
    let square = state.square(c);
    if has_effect(&square.effects, Effect::Defence) {
        return true;
    }
    match square.tile {
        Some(t) => if last {
            t.color == color
        } else {
            kind == ActionType::Move
        },
        None => false,
    }
}

/// Whether the straight segment from `a` to `b` is blocked, as
/// `segment_blocked` says.
fn segment_blocked_exec(
    state: &GameState,
    color: TileColor,
    kind: ActionType,
    a: Coordinate,
    b: Coordinate,
    ends_path: bool,
) -> (r: bool)
    requires
        shaped(state@),
        on_board(a),
        on_board(b),
        is_straight(a, b),
    ensures
        r == segment_blocked(state@, color, kind, a, b, ends_path),
{
    let dx: u8 = if a.x < b.x { b.x - a.x } else { a.x - b.x };
    let dy: u8 = if a.y < b.y { b.y - a.y } else { a.y - b.y };
    let n: u8 = if dx < dy { dy } else { dx };
    assert(n == steps(a, b));
    let mut k: u8 = 1;
    while k <= n
        invariant
            shaped(state@),
            on_board(a),
            on_board(b),
            is_straight(a, b),
            n == steps(a, b),
            n <= 5,
            1 <= k <= n + 1,
            forall|j: int|
                1 <= j < k ==> !step_blocks(state@, color, kind, #[trigger] cell(a, b, j), ends_path && j == n),
        decreases n + 1 - k,
    {
        let c = Coordinate { x: step_along(a.x, b.x, k), y: step_along(a.y, b.y, k) };
        assert(c == cell(a, b, k as int));
        if square_blocks(state, color, kind, c, ends_path && k == n) {
            return true;
        }
        k = k + 1;
    }
    false
}

/// Whether an action of kind `kind` by a tile of colour `color` from `start`
/// to `end` is blocked, as `blocked` says.
pub fn path_blocked(
    state: &GameState,
    color: TileColor,
    kind: ActionType,
    start: Coordinate,
    end: Coordinate,
) -> (r: bool)
    requires
        shaped(state@),
        on_board(start),
        on_board(end),
    ensures
        r == blocked(state@, color, kind, start, end),
{
    if straight_path(&start, &end) {
        segment_blocked_exec(state, color, kind, start, end, true)
    } else {
        let cx = Coordinate { x: end.x, y: start.y };
        let cy = Coordinate { x: start.x, y: end.y };
        let x_first = segment_blocked_exec(state, color, kind, start, cx, false) || segment_blocked_exec(
            state,
            color,
            kind,
            cx,
            end,
            true,
        );
        let y_first = segment_blocked_exec(state, color, kind, start, cy, false) || segment_blocked_exec(
            state,
            color,
            kind,
            cy,
            end,
            true,
        );
        x_first && y_first
    }
}

} // verus!
