use rusty_duke::logic::select::{can_command_tile, draw_new_tile, place_new_tile, try_tile_action, Selection};
use rusty_duke::logic::{
    actions_defined, get_actions, get_direction, invert_offset, tile_actions, Action, ActionType,
    Coordinate, Direction, GameState, Offset, Tile, TileColor, TileType,
};

fn c(x: u8, y: u8) -> Coordinate {
    Coordinate::new(x, y)
}

fn put(state: &mut GameState, x: u8, y: u8, kind: TileType, color: TileColor, flipped: bool) {
    let mut t = Tile::new(kind, color);
    if flipped {
        t.flip();
    }
    state.board[y as usize][x as usize].tile = Some(t);
}

fn midgame() -> GameState {
    let mut s = GameState::new();
    s.drawn_tiles[0].clear();
    s.drawn_tiles[1].clear();
    put(&mut s, 2, 0, TileType::Duke, TileColor::Black, false);
    put(&mut s, 2, 5, TileType::Duke, TileColor::White, false);
    s.dukes = vec![Some(c(2, 0)), Some(c(2, 5))];
    s
}

#[test]
fn coordinate_legality() {
    assert!(Coordinate::legal(0, 0));
    assert!(Coordinate::legal(5, 5));
    assert!(!Coordinate::legal(6, 0));
    assert!(!Coordinate::legal(0, 6));
}

#[test]
fn direction_and_inversion() {
    assert_eq!(get_direction(c(1, 1), c(4, 1)), Direction { x: 1, y: 0 });
    assert_eq!(get_direction(c(4, 4), c(1, 1)), Direction { x: -1, y: -1 });
    assert_eq!(invert_offset(&Offset { x: 1, y: -2 }), Offset { x: -1, y: 2 });
}

#[test]
fn catalog_footman_and_white_orientation() {
    let a = tile_actions(TileType::Footman);
    let front: Vec<(ActionType, i8, i8)> = a.front.iter().map(|e| (e.kind, e.offset.x, e.offset.y)).collect();
    assert_eq!(
        front,
        vec![(ActionType::Move, 0, 1), (ActionType::Move, 1, 0), (ActionType::Move, 0, -1), (ActionType::Move, -1, 0)]
    );
    assert_eq!(a.back.len(), 5);
    let w = Tile::new(TileType::Knight, TileColor::White).actions();
    assert_eq!((w.front[0].kind, w.front[0].offset.x, w.front[0].offset.y), (ActionType::Jump, -1, -2));
    let g = tile_actions(TileType::General);
    assert_eq!(g.back.iter().filter(|e| e.kind == ActionType::Command).count(), 5);
}

#[test]
fn actions_defined_checks_shape() {
    let s = GameState::new();
    assert!(actions_defined(&s));
    let mut t = GameState::new();
    t.drawn_tiles[0].clear();
    assert!(!actions_defined(&t));
    let mut u = GameState::new();
    u.board.pop();
    assert!(!actions_defined(&u));
}

#[test]
fn command_selection_flow() {
    let mut s = midgame();
    put(&mut s, 3, 3, TileType::General, TileColor::Black, true);
    put(&mut s, 4, 3, TileType::Footman, TileColor::Black, false);
    let mut sel = Selection { focus: c(4, 3), selected: Some(c(3, 3)), selected_command: None };
    assert!(can_command_tile(&s, &sel));
    sel.focus = c(5, 5);
    assert!(!can_command_tile(&s, &sel));
    sel.selected_command = Some(c(4, 3));
    sel.focus = c(4, 2);
    assert!(try_tile_action(&mut s, &mut sel));
    assert_eq!(sel.selected, None);
    assert_eq!(sel.selected_command, None);
    assert_eq!(s.board[2][4].tile, Some(Tile::new(TileType::Footman, TileColor::Black)));
    assert_eq!(s.board[3][4].tile, None);
    assert_eq!(s.ply, TileColor::White);
}

#[test]
fn move_selection_flow() {
    let mut s = midgame();
    put(&mut s, 0, 1, TileType::Footman, TileColor::Black, false);
    let mut sel = Selection { focus: c(4, 4), selected: Some(c(0, 1)), selected_command: None };
    assert!(!try_tile_action(&mut s, &mut sel));
    assert_eq!(sel.selected, Some(c(0, 1)));
    assert_eq!(s.ply, TileColor::Black);
    sel.focus = c(0, 2);
    assert!(try_tile_action(&mut s, &mut sel));
    let mut moved = Tile::new(TileType::Footman, TileColor::Black);
    moved.flip();
    assert_eq!(s.board[2][0].tile, Some(moved));
}

#[test]
fn draw_and_place_flow() {
    let mut s = midgame();
    assert!(!place_new_tile(&mut s, c(1, 0)));
    assert!(draw_new_tile(&mut s));
    assert_eq!(s.drawn_tiles[0].len(), 1);
    assert_eq!(s.bags[0].len(), 16);
    assert!(!draw_new_tile(&mut s));
    assert!(!place_new_tile(&mut s, c(4, 4)));
    assert!(place_new_tile(&mut s, c(1, 0)));
    assert!(s.board[0][1].tile.is_some());
    assert_eq!(s.ply, TileColor::White);
    assert!(get_actions(&s).contains(&Action::NewFromBag));
}
