//! Game model of The Duke: coordinates, tiles, squares and the game state.

pub mod apply;
pub mod catalog;
pub mod enumerate;
pub mod conservation;
pub mod dukes;
pub mod laws;
pub mod mirror;
pub mod paths;
pub mod select;
pub mod setup;


pub use apply::{do_unsafe_action, do_unsafe_action_copy, do_unsafe_action_with_draw};
pub use catalog::{tile_actions, tile_effects};
pub use enumerate::{actions_defined, get_actions, get_spawn_squares, get_tile_actions};


use vstd::prelude::*;

verus! {

/// Width of the game board in squares.
pub const WIDTH: u8 = 6;

/// Height of the game board in squares.
pub const HEIGHT: u8 = 6;

/// A square of the board: column `x`, row `y`.
#[derive(Debug, Clone, Copy, PartialEq, Eq, Structural)]
pub struct Coordinate {
    pub x: u8,
    pub y: u8,
}

/// True when `(x, y)` names a square of the board.
pub open spec fn in_board(x: int, y: int) -> bool {
    0 <= x < WIDTH && 0 <= y < HEIGHT
}

/// The coordinate with the given column and row (meaningful on the board).
pub open spec fn at(x: int, y: int) -> Coordinate {
    Coordinate { x: x as u8, y: y as u8 }
}

/// True when `c` lies on the board.
pub open spec fn on_board(c: Coordinate) -> bool {
    c.x < WIDTH && c.y < HEIGHT
}

impl Coordinate {
    /// Whether `(x, y)` is a square of the board.
    pub fn legal(x: u8, y: u8) -> (r: bool)
        ensures
            r == in_board(x as int, y as int),
    {
        x < WIDTH && y < HEIGHT
    }

    /// The coordinate `(x, y)`, which must lie on the board.
    pub fn new(x: u8, y: u8) -> (r: Coordinate)
        requires
            in_board(x as int, y as int),
        ensures
            r == (Coordinate { x, y }),
    {
        Coordinate { x, y }
    }
}

/// Step direction between two squares, each component in -1..=1.
#[derive(Debug, Clone, Copy, PartialEq, Eq, Structural)]
pub struct Direction {
    pub x: i8,
    pub y: i8,
}

/// Offset of a square relative to a tile.
#[derive(Debug, Clone, Copy, PartialEq, Eq, Structural)]
pub struct Offset {
    pub x: i8,
    pub y: i8,
}

/// The offset pointing the other way, used for the White side of the board.
pub open spec fn inverted(o: Offset) -> Offset {
    Offset { x: (-o.x) as i8, y: (-o.y) as i8 }
}

/// The offset pointing the other way.
pub fn invert_offset(offset: &Offset) -> (r: Offset)
    requires
        offset.x > i8::MIN,
        offset.y > i8::MIN,
    ensures
        r == inverted(*offset),
{
    Offset { x: -offset.x, y: -offset.y }
}

/// The sign of `b - a`.
pub open spec fn sign(a: int, b: int) -> int {
    if a < b {
        1
    } else if a > b {
        -1
    } else {
        0
    }
}

/// Component-wise direction from `start` towards `end`.
pub open spec fn direction_of(start: Coordinate, end: Coordinate) -> Direction {
    Direction { x: sign(start.x as int, end.x as int) as i8, y: sign(start.y as int, end.y as int) as i8 }
}

/// Direction from `start` towards `end`, component by component.
pub fn get_direction(start: Coordinate, end: Coordinate) -> (r: Direction)
    ensures
        r == direction_of(start, end),
{
    let mut dir = Direction { x: 0, y: 0 };
    if start.x < end.x {
        dir.x = 1;
    } else if start.x > end.x {
        dir.x = -1;
    }
    if start.y < end.y {
        dir.y = 1;
    } else if start.y > end.y {
        dir.y = -1;
    }
    dir
}

/// Effect imposed by a tile on a square.
#[derive(Debug, Clone, Copy, PartialEq, Eq, Structural)]
pub enum Effect {
    /// Tiles other than the duke on this square cannot act.
    Dread,
    /// No action path may pass through or end on this square.
    Defence,
}

/// Kind of an action, as listed in a tile's vocabulary.
#[derive(Debug, Clone, Copy, PartialEq, Eq, Structural)]
pub enum ActionType {
    NewFromBag,
    PlaceNew,
    Move,
    Jump,
    JumpSlide,
    Slide,
    Command,
    Strike,
}

/// What an action does to the tile on its target square.
#[derive(Debug, Clone, Copy, PartialEq, Eq, Structural)]
pub enum ActionResult {
    Move,
    Capture,
}

/// Data of an ordinary tile action.
#[derive(Debug, Clone, Copy, PartialEq, Eq, Structural)]
pub struct ActionData {
    pub tile_pos: Coordinate,
    pub target_pos: Coordinate,
    pub result: ActionResult,
}

/// Data of a command: the tile at `tile_pos` sends the friendly tile at
/// `command_tile_pos` to `target_pos`.
#[derive(Debug, Clone, Copy, PartialEq, Eq, Structural)]
pub struct CommandActionData {
    pub tile_pos: Coordinate,
    pub command_tile_pos: Coordinate,
    pub target_pos: Coordinate,
    pub result: ActionResult,
}

/// An action that the side to move can take.
#[derive(Debug, Clone, Copy, PartialEq, Eq, Structural)]
pub enum Action {
    NewFromBag,
    PlaceNew(Coordinate),
    Move(ActionData),
    Jump(ActionData),
    JumpSlide(ActionData),
    Slide(ActionData),
    Command(CommandActionData),
    Strike(ActionData),
}

/// An entry of a tile side's action vocabulary.
#[derive(Debug, Clone, Copy, PartialEq, Eq, Structural)]
pub struct AvailableAction {
    pub kind: ActionType,
    pub offset: Offset,
}

/// An entry of a tile side's effect vocabulary.
#[derive(Debug, Clone, Copy, PartialEq, Eq, Structural)]
pub struct AvailableEffect {
    pub kind: Effect,
    pub offset: Offset,
}

/// Colour of a tile, and of a side.
#[derive(Debug, Clone, Copy, PartialEq, Eq, Structural)]
pub enum TileColor {
    Black,
    White,
}

/// The winner of a finished game.
#[derive(Debug, Clone, Copy, PartialEq, Eq, Structural)]
pub enum Winner {
    Color(TileColor),
}

/// Tile type.
#[derive(Debug, Clone, Copy, PartialEq, Eq, Structural, Hash)]
pub enum TileType {
    Duke,
    Footman,
    Pikeman,
    Knight,
    Bowman,
    LightHorse,
    Wizard,
    Seer,
    Champion,
    Arbalist,
    General,
    Marshall,
    Countess,
    Ranger,
    Sage,
    RoyalAssassin,
}

/// Both sides' action vocabularies of a tile type.
pub struct AvailableActions {
    pub front: Vec<AvailableAction>,
    pub back: Vec<AvailableAction>,
}

/// Both sides' effect vocabularies of a tile type.
pub struct AvailableEffects {
    pub front: Vec<AvailableEffect>,
    pub back: Vec<AvailableEffect>,
}

/// A tile. At any moment it is held by exactly one of a bag, the board,
/// a drawn queue or the graveyard.
#[derive(Debug, Clone, Copy, PartialEq, Eq, Structural)]
pub struct Tile {
    pub kind: TileType,
    pub flipped: bool,
    pub color: TileColor,
}

/// The tile turned over to its other side.
pub open spec fn flipped(t: Tile) -> Tile {
    Tile { flipped: !t.flipped, ..t }
}

impl Tile {
    /// A tile of the given type and colour, front side up.
    pub fn new(kind: TileType, color: TileColor) -> (r: Tile)
        ensures
            r == (Tile { kind, flipped: false, color }),
    {
        Tile { kind, flipped: false, color }
    }

    /// Turns the tile over.
    pub fn flip(&mut self)
        ensures
            *final(self) == flipped(*old(self)),
    {
        self.flipped = !self.flipped;
    }
}

/// What a square holds, as a mathematical value.
#[verifier::ext_equal]
pub struct SquareView {
    pub effects: Seq<Effect>,
    pub tile: Option<Tile>,
}

/// Square of the board: a tile, if any, and the effects projected onto it.
/// An effect appears once for every tile that projects it.
#[derive(Debug, Clone)]
pub struct Square {
    pub effects: Vec<Effect>,
    pub tile: Option<Tile>,
}

impl View for Square {
    type V = SquareView;

    open spec fn view(&self) -> SquareView {
        SquareView { effects: self.effects@, tile: self.tile }
    }
}

impl Default for Square {
    fn default() -> (r: Square)
        ensures
            r@.effects == Seq::<Effect>::empty(),
            r@.tile is None,
    {
        Square { effects: Vec::new(), tile: None }
    }
}

/// A game, as a mathematical value. Rows of `board` are indexed by `y`,
/// the squares of a row by `x`; the other sequences are indexed by colour.
#[verifier::ext_equal]
pub struct StateView {
    pub board: Seq<Seq<SquareView>>,
    pub bags: Seq<Seq<Tile>>,
    pub drawn: Seq<Seq<Tile>>,
    pub graveyard: Seq<Tile>,
    pub ply: TileColor,
    pub game_over: Option<Winner>,
    pub dukes: Seq<Option<Coordinate>>,
}

/// Complete state of a game. Bags, board, drawn queues and graveyard own
/// the tiles.
#[derive(Debug, Clone)]
pub struct GameState {
    /// Game board, `board[y][x]`.
    pub board: Vec<Vec<Square>>,
    /// Tiles not yet drawn, one bag per colour.
    pub bags: Vec<Vec<Tile>>,
    /// Tiles drawn and waiting to be placed, one queue per colour; the
    /// last one is placed first.
    pub drawn_tiles: Vec<Vec<Tile>>,
    /// Captured tiles.
    pub graveyard: Vec<Tile>,
    /// Colour of the side to move.
    pub ply: TileColor,
    /// The winner, once the game is over.
    pub game_over: Option<Winner>,
    /// Board position of each colour's duke, kept to avoid a search.
    pub dukes: Vec<Option<Coordinate>>,
}

impl View for GameState {
    type V = StateView;

    open spec fn view(&self) -> StateView {
        StateView {
            board: self.board@.map_values(|row: Vec<Square>| row@.map_values(|q: Square| q@)),
            bags: self.bags@.map_values(|b: Vec<Tile>| b@),
            drawn: self.drawn_tiles@.map_values(|d: Vec<Tile>| d@),
            graveyard: self.graveyard@,
            ply: self.ply,
            game_over: self.game_over,
            dukes: self.dukes@,
        }
    }
}

/// Index of a colour in the per-colour sequences.
pub open spec fn cidx(c: TileColor) -> int {
    match c {
        TileColor::Black => 0,
        TileColor::White => 1,
    }
}

/// The other colour.
pub open spec fn opponent(c: TileColor) -> TileColor {
    match c {
        TileColor::Black => TileColor::White,
        TileColor::White => TileColor::Black,
    }
}

/// Index of a colour in the per-colour vectors.
pub fn color_index(c: TileColor) -> (r: usize)
    ensures
        r == cidx(c),
{
    match c {
        TileColor::Black => 0,
        TileColor::White => 1,
    }
}

/// The other colour.
pub fn other_color(c: TileColor) -> (r: TileColor)
    ensures
        r == opponent(c),
{
    match c {
        TileColor::Black => TileColor::White,
        TileColor::White => TileColor::Black,
    }
}

/// The square at `c`.
pub open spec fn square_at(v: StateView, c: Coordinate) -> SquareView {
    v.board[c.y as int][c.x as int]
}

/// The tile at `c`, if any.
pub open spec fn tile_at(v: StateView, c: Coordinate) -> Option<Tile> {
    square_at(v, c).tile
}

/// The effects projected onto the square at `c`.
pub open spec fn effects_at(v: StateView, c: Coordinate) -> Seq<Effect> {
    square_at(v, c).effects
}

/// The bag of the side to move.
pub open spec fn own_bag(v: StateView) -> Seq<Tile> {
    v.bags[cidx(v.ply)]
}

/// The drawn queue of the side to move.
pub open spec fn own_drawn(v: StateView) -> Seq<Tile> {
    v.drawn[cidx(v.ply)]
}

/// The cached duke position of the side to move.
pub open spec fn own_duke(v: StateView) -> Option<Coordinate> {
    v.dukes[cidx(v.ply)]
}

/// The cached duke position of the side not to move.
pub open spec fn opponent_duke(v: StateView) -> Option<Coordinate> {
    v.dukes[cidx(opponent(v.ply))]
}

/// The shape every game has: a 6 by 6 board, two bags, two drawn queues
/// and two duke positions, each on the board.
pub open spec fn shaped(v: StateView) -> bool {
    &&& v.board.len() == HEIGHT
    &&& forall|y: int| 0 <= y < HEIGHT ==> #[trigger] v.board[y].len() == WIDTH
    &&& v.bags.len() == 2
    &&& v.drawn.len() == 2
    &&& v.dukes.len() == 2
    &&& forall|i: int| 0 <= i < 2 ==> (#[trigger] v.dukes[i] matches Some(p) ==> on_board(p))
}

/// Every field but the bags is kept.
pub open spec fn same_but_bags(a: &GameState, b: &GameState) -> bool {
    a.board == b.board && a.drawn_tiles == b.drawn_tiles && a.graveyard == b.graveyard
        && a.ply == b.ply && a.game_over == b.game_over && a.dukes == b.dukes
}

/// Every field but the drawn queues is kept.
pub open spec fn same_but_drawn(a: &GameState, b: &GameState) -> bool {
    a.board == b.board && a.bags == b.bags && a.graveyard == b.graveyard && a.ply == b.ply
        && a.game_over == b.game_over && a.dukes == b.dukes
}

/// Every field but the duke positions is kept.
pub open spec fn same_but_dukes(a: &GameState, b: &GameState) -> bool {
    a.board == b.board && a.bags == b.bags && a.drawn_tiles == b.drawn_tiles
        && a.graveyard == b.graveyard && a.ply == b.ply && a.game_over == b.game_over
}

/// Every field but the board is kept.
pub open spec fn same_but_board(a: &GameState, b: &GameState) -> bool {
    a.bags == b.bags && a.drawn_tiles == b.drawn_tiles && a.graveyard == b.graveyard
        && a.ply == b.ply && a.game_over == b.game_over && a.dukes == b.dukes
}

impl GameState {
    /// The bag of the side to move.
    pub fn bag(&self) -> (r: &Vec<Tile>)
        requires
            shaped(self@),
        ensures
            r@ == own_bag(self@),
    {
        &self.bags[color_index(self.ply)]
    }

    /// The drawn queue of the side to move.
    pub fn drawn(&self) -> (r: &Vec<Tile>)
        requires
            shaped(self@),
        ensures
            r@ == own_drawn(self@),
    {
        &self.drawn_tiles[color_index(self.ply)]
    }

    /// The duke position of the side to move.
    pub fn own_duke_pos(&self) -> (r: &Option<Coordinate>)
        requires
            shaped(self@),
        ensures
            *r == own_duke(self@),
    {
        &self.dukes[color_index(self.ply)]
    }

    /// The duke position of the side not to move.
    pub fn opponent_duke_pos(&self) -> (r: &Option<Coordinate>)
        requires
            shaped(self@),
        ensures
            *r == opponent_duke(self@),
    {
        &self.dukes[color_index(other_color(self.ply))]
    }

    /// The square at `cord`.
    pub fn square(&self, cord: Coordinate) -> (r: &Square)
        requires
            shaped(self@),
            on_board(cord),
        ensures
            r@ == square_at(self@, cord),
    {
        proof {
            assert(self@.board[cord.y as int].len() == WIDTH);
        }
        &self.board[cord.y as usize][cord.x as usize]
    }

    /// The bag of the side to move, for changing.
    pub fn mut_bag(&mut self) -> (r: &mut Vec<Tile>)
        requires
            old(self).bags.len() == 2,
        ensures
            *r == old(self).bags@[cidx(old(self).ply)],
            final(self).bags@ == old(self).bags@.update(cidx(old(self).ply), *final(r)),
            same_but_bags(final(self), old(self)),
    {
        let i = color_index(self.ply);
        &mut self.bags[i]
    }

    /// The drawn queue of the side to move, for changing.
    pub fn mut_drawn(&mut self) -> (r: &mut Vec<Tile>)
        requires
            old(self).drawn_tiles.len() == 2,
        ensures
            *r == old(self).drawn_tiles@[cidx(old(self).ply)],
            final(self).drawn_tiles@ == old(self).drawn_tiles@.update(cidx(old(self).ply), *final(r)),
            same_but_drawn(final(self), old(self)),
    {
        let i = color_index(self.ply);
        &mut self.drawn_tiles[i]
    }

    /// The duke position of the side to move, for changing.
    pub fn mut_own_duke_pos(&mut self) -> (r: &mut Option<Coordinate>)
        requires
            old(self).dukes.len() == 2,
        ensures
            *r == old(self).dukes@[cidx(old(self).ply)],
            final(self).dukes@ == old(self).dukes@.update(cidx(old(self).ply), *final(r)),
            same_but_dukes(final(self), old(self)),
    {
        let i = color_index(self.ply);
        &mut self.dukes[i]
    }

    /// The duke position of the side not to move, for changing.
    pub fn mut_opponent_duke_pos(&mut self) -> (r: &mut Option<Coordinate>)
        requires
            old(self).dukes.len() == 2,
        ensures
            *r == old(self).dukes@[cidx(opponent(old(self).ply))],
            final(self).dukes@ == old(self).dukes@.update(cidx(opponent(old(self).ply)), *final(r)),
            same_but_dukes(final(self), old(self)),
    {
        let i = color_index(other_color(self.ply));
        &mut self.dukes[i]
    }

    /// The square at `cord`, for changing.
    pub fn mut_square(&mut self, cord: Coordinate) -> (r: &mut Square)
        requires
            shaped(old(self)@),
            on_board(cord),
        ensures
            *r == old(self).board@[cord.y as int]@[cord.x as int],
            final(self).board@ == old(self).board@.update(
                cord.y as int,
                final(self).board@[cord.y as int],
            ),
            final(self).board@[cord.y as int]@ == old(self).board@[cord.y as int]@.update(
                cord.x as int,
                *final(r),
            ),
            same_but_board(final(self), old(self)),
    {
        proof {
            assert(self@.board[cord.y as int].len() == WIDTH);
        }
        &mut self.board[cord.y as usize][cord.x as usize]
    }
}

} // verus!
