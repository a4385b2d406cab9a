//! The opening position.

use vstd::prelude::*;
use crate::logic::{
    shaped, GameState, Square, SquareView, StateView, Tile, TileColor, TileType, HEIGHT, WIDTH,
};

verus! {

/// A tile of type `kind` and colour `color`, front side up.
pub open spec fn fresh(kind: TileType, color: TileColor) -> Tile {
    Tile { kind, flipped: false, color }
}

/// The tiles of a bag at the start: one footman, three pikemen, and one of
/// each other type but the duke.
pub open spec fn starting_bag(c: TileColor) -> Seq<Tile> {
    seq![
        fresh(TileType::Footman, c),
        fresh(TileType::Pikeman, c),
        fresh(TileType::Pikeman, c),
        fresh(TileType::Pikeman, c),
        fresh(TileType::Knight, c),
        fresh(TileType::Bowman, c),
        fresh(TileType::LightHorse, c),
        fresh(TileType::Wizard, c),
        fresh(TileType::Seer, c),
        fresh(TileType::Champion, c),
        fresh(TileType::Arbalist, c),
        fresh(TileType::General, c),
        fresh(TileType::Marshall, c),
        fresh(TileType::Countess, c),
        fresh(TileType::Ranger, c),
        fresh(TileType::Sage, c),
        fresh(TileType::RoyalAssassin, c),
    ]
}

/// The drawn queue at the start: the duke is placed first, then two footmen.
pub open spec fn opening_queue(c: TileColor) -> Seq<Tile> {
    seq![fresh(TileType::Footman, c), fresh(TileType::Footman, c), fresh(TileType::Duke, c)]
}

/// An empty square without effects.
pub open spec fn empty_square() -> SquareView {
    SquareView { effects: Seq::empty(), tile: None }
}

/// The opening position: an empty board, full bags, the opening queues, Black
/// to move.
pub open spec fn is_opening(v: StateView) -> bool {
    &&& shaped(v)
    &&& forall|y: int, x: int| 0 <= y < HEIGHT && 0 <= x < WIDTH ==> #[trigger] v.board[y][x] == empty_square()
    &&& v.bags == seq![starting_bag(TileColor::Black), starting_bag(TileColor::White)]
    &&& v.drawn == seq![opening_queue(TileColor::Black), opening_queue(TileColor::White)]
    &&& v.graveyard == Seq::<Tile>::empty()
    &&& v.ply == TileColor::Black
    &&& v.game_over is None
    &&& v.dukes == seq![None::<crate::logic::Coordinate>, None]
}

impl GameState {
    /// The starting bag of `color`.
    fn init_tiles(color: TileColor) -> (r: Vec<Tile>)
        ensures
            r@ == starting_bag(color),
    {
        let v = vec![
            Tile::new(TileType::Footman, color),
            Tile::new(TileType::Pikeman, color),
            Tile::new(TileType::Pikeman, color),
            Tile::new(TileType::Pikeman, color),
            Tile::new(TileType::Knight, color),
            Tile::new(TileType::Bowman, color),
            Tile::new(TileType::LightHorse, color),
            Tile::new(TileType::Wizard, color),
            Tile::new(TileType::Seer, color),
            Tile::new(TileType::Champion, color),
            Tile::new(TileType::Arbalist, color),
            Tile::new(TileType::General, color),
            Tile::new(TileType::Marshall, color),
            Tile::new(TileType::Countess, color),
            Tile::new(TileType::Ranger, color),
            Tile::new(TileType::Sage, color),
            Tile::new(TileType::RoyalAssassin, color),
        ];
        proof {
            assert(v@ =~= starting_bag(color));
        }
        v
    }

    /// The opening queue of `color`.
    fn opening_tiles(color: TileColor) -> (r: Vec<Tile>)
        ensures
            r@ == opening_queue(color),
    {
        let v = vec![
            Tile::new(TileType::Footman, color),
            Tile::new(TileType::Footman, color),
            Tile::new(TileType::Duke, color),
        ];
        proof {
            assert(v@ =~= opening_queue(color));
        }
        v
    }

    /// A new game in its opening position.
    pub fn new() -> (r: GameState)
        ensures
            is_opening(r@),
    {
        let mut board: Vec<Vec<Square>> = Vec::new();
        let mut y: u8 = 0;
        while y < HEIGHT
            invariant
                y <= HEIGHT,
                board@.len() == y,
                forall|j: int, x: int|
                    0 <= j < y && 0 <= x < WIDTH ==> (#[trigger] board@[j]@[x])@ == empty_square(),
                forall|j: int| 0 <= j < y ==> (#[trigger] board@[j])@.len() == WIDTH,
            decreases HEIGHT - y,
        {
            let mut row: Vec<Square> = Vec::new();
            let mut x: u8 = 0;
            while x < WIDTH
                invariant
                    x <= WIDTH,
                    row@.len() == x,
                    forall|i: int| 0 <= i < x ==> (#[trigger] row@[i])@ == empty_square(),
                decreases WIDTH - x,
            {
                let q = Square::default();
                assert(q@ =~= empty_square());
                row.push(q);
                x = x + 1;
            }
            board.push(row);
            y = y + 1;
        }
        let r = GameState {
            board,
            bags: vec![GameState::init_tiles(TileColor::Black), GameState::init_tiles(TileColor::White)],
            drawn_tiles: vec![
                GameState::opening_tiles(TileColor::Black),
                GameState::opening_tiles(TileColor::White),
            ],
            graveyard: Vec::new(),
            ply: TileColor::Black,
            game_over: None,
            dukes: vec![None, None],
        };
        proof {
            assert(r@.bags =~= seq![starting_bag(TileColor::Black), starting_bag(TileColor::White)]);
            assert(r@.drawn =~= seq![opening_queue(TileColor::Black), opening_queue(TileColor::White)]);
            assert(r@.dukes =~= seq![None::<crate::logic::Coordinate>, None]);
            assert(r@.graveyard =~= Seq::<Tile>::empty());
        }
        r
    }
}

} // verus!
