use rusty_duke::logic::{
    do_unsafe_action, do_unsafe_action_copy, do_unsafe_action_with_draw, get_actions,
    get_spawn_squares, get_tile_actions, Action, ActionData, ActionResult, CommandActionData,
    Coordinate, Effect, GameState, Tile, TileColor, TileType, Winner,
};

fn c(x: u8, y: u8) -> Coordinate {
    Coordinate::new(x, y)
}

fn put(state: &mut GameState, x: u8, y: u8, kind: TileType, color: TileColor, flipped: bool) {
    let mut t = Tile::new(kind, color);
    if flipped {
        t.flip();
    }
    state.board[y as usize][x as usize].tile = Some(t);
}

/// A game with an empty board and nothing drawn, Black to move.
fn empty_game() -> GameState {
    let mut s = GameState::new();
    s.drawn_tiles[0].clear();
    s.drawn_tiles[1].clear();
    s
}

fn all_tiles(s: &GameState) -> Vec<Tile> {
    let mut v = Vec::new();
    for row in &s.board {
        for sq in row {
            if let Some(t) = sq.tile {
                v.push(t);
            }
        }
    }
    for b in &s.bags {
        v.extend(b.iter().copied());
    }
    for d in &s.drawn_tiles {
        v.extend(d.iter().copied());
    }
    v.extend(s.graveyard.iter().copied());
    v.sort_by_key(|t| (t.kind as u8, t.color as u8, t.flipped));
    v
}

fn coords(a: &Action) -> Vec<Coordinate> {
    match a {
        Action::NewFromBag => vec![],
        Action::PlaceNew(p) => vec![*p],
        Action::Move(d) | Action::Jump(d) | Action::JumpSlide(d) | Action::Slide(d) | Action::Strike(d) => {
            vec![d.tile_pos, d.target_pos]
        }
        Action::Command(d) => vec![d.tile_pos, d.command_tile_pos, d.target_pos],
    }
}

/// Plays the first legal action a number of times, drawing the first bag tile.
fn play_first(s: &mut GameState, plies: usize) {
    for _ in 0..plies {
        let acts = get_actions(s);
        if acts.is_empty() {
            break;
        }
        do_unsafe_action_with_draw(s, &acts[0], 0);
    }
}

#[test]
fn opening_deployment_for_black() {
    let s = GameState::new();
    assert_eq!(get_actions(&s), vec![Action::PlaceNew(c(2, 0)), Action::PlaceNew(c(3, 0))]);
    assert_eq!(get_spawn_squares(&s), vec![c(2, 0), c(3, 0)]);
}

#[test]
fn duke_placed_footman_drawn_next() {
    let mut s = GameState::new();
    do_unsafe_action(&mut s, &Action::PlaceNew(c(3, 0)));
    assert_eq!(
        s.drawn_tiles[0],
        vec![Tile::new(TileType::Footman, TileColor::Black), Tile::new(TileType::Footman, TileColor::Black)]
    );
    assert_eq!(s.dukes[0], Some(c(3, 0)));
    assert_eq!(s.ply, TileColor::White);
    let acts = get_actions(&s);
    assert_eq!(acts[0], Action::PlaceNew(c(2, 5)));
    assert_eq!(acts[1], Action::PlaceNew(c(3, 5)));
    assert_eq!(s.board[0][3].tile, Some(Tile::new(TileType::Duke, TileColor::Black)));
}

#[test]
fn footman_front_side_moves() {
    let mut s = empty_game();
    put(&mut s, 2, 2, TileType::Footman, TileColor::Black, false);
    let acts = get_tile_actions(&s, c(2, 2));
    let expect: Vec<Action> = [c(2, 3), c(3, 2), c(2, 1), c(1, 2)]
        .iter()
        .map(|t| Action::Move(ActionData { tile_pos: c(2, 2), target_pos: *t, result: ActionResult::Move }))
        .collect();
    assert_eq!(acts, expect);
}

#[test]
fn defence_blocks_slide() {
    let mut s = empty_game();
    put(&mut s, 0, 2, TileType::Duke, TileColor::Black, false);
    put(&mut s, 5, 2, TileType::Footman, TileColor::White, false);
    s.board[2][3].effects.push(Effect::Defence);
    let acts = get_tile_actions(&s, c(0, 2));
    let expect: Vec<Action> = [c(1, 2), c(2, 2)]
        .iter()
        .map(|t| Action::Slide(ActionData { tile_pos: c(0, 2), target_pos: *t, result: ActionResult::Move }))
        .collect();
    assert_eq!(acts, expect);
    // Without the defence the slide reaches the White footman and takes it.
    s.board[2][3].effects.clear();
    let acts = get_tile_actions(&s, c(0, 2));
    assert_eq!(acts.len(), 5);
    assert_eq!(
        acts[4],
        Action::Slide(ActionData { tile_pos: c(0, 2), target_pos: c(5, 2), result: ActionResult::Capture })
    );
}

#[test]
fn general_commands_footman() {
    let mut s = empty_game();
    put(&mut s, 2, 2, TileType::General, TileColor::Black, true);
    put(&mut s, 3, 2, TileType::Footman, TileColor::Black, false);
    put(&mut s, 1, 1, TileType::Pikeman, TileColor::White, false);
    let acts = get_tile_actions(&s, c(2, 2));
    let commands: Vec<CommandActionData> = acts
        .iter()
        .filter_map(|a| match a {
            Action::Command(d) => Some(d.clone()),
            _ => None,
        })
        .collect();
    let expect: Vec<CommandActionData> = [
        (c(3, 1), ActionResult::Move),
        (c(2, 1), ActionResult::Move),
        (c(1, 1), ActionResult::Capture),
        (c(1, 2), ActionResult::Move),
    ]
    .iter()
    .map(|(t, r)| CommandActionData { tile_pos: c(2, 2), command_tile_pos: c(3, 2), target_pos: *t, result: *r })
    .collect();
    assert_eq!(commands, expect);
}

#[test]
fn command_moves_commanded_and_flips_commander() {
    let mut s = empty_game();
    put(&mut s, 2, 2, TileType::General, TileColor::Black, true);
    put(&mut s, 3, 2, TileType::Footman, TileColor::Black, false);
    put(&mut s, 0, 0, TileType::Duke, TileColor::Black, false);
    put(&mut s, 5, 5, TileType::Duke, TileColor::White, false);
    s.dukes = vec![Some(c(0, 0)), Some(c(5, 5))];
    let a = Action::Command(CommandActionData {
        tile_pos: c(2, 2),
        command_tile_pos: c(3, 2),
        target_pos: c(2, 1),
        result: ActionResult::Move,
    });
    let t = do_unsafe_action_copy(&s, &a);
    assert_eq!(t.board[2][3].tile, None);
    assert_eq!(t.board[1][2].tile, Some(Tile::new(TileType::Footman, TileColor::Black)));
    assert_eq!(t.board[2][2].tile, Some(Tile::new(TileType::General, TileColor::Black)));
    assert_eq!(t.ply, TileColor::White);
}

#[test]
fn duke_capture_ends_game() {
    let mut s = empty_game();
    put(&mut s, 0, 0, TileType::Duke, TileColor::Black, false);
    put(&mut s, 1, 0, TileType::Duke, TileColor::White, false);
    s.dukes = vec![Some(c(0, 0)), Some(c(1, 0))];
    let capture = Action::Slide(ActionData { tile_pos: c(0, 0), target_pos: c(1, 0), result: ActionResult::Capture });
    let acts = get_actions(&s);
    assert_eq!(acts.iter().filter(|a| **a == capture).count(), 1);
    do_unsafe_action(&mut s, &capture);
    assert_eq!(s.game_over, Some(Winner::Color(TileColor::Black)));
    assert_eq!(s.dukes, vec![Some(c(1, 0)), None]);
    assert_eq!(s.graveyard, vec![Tile::new(TileType::Duke, TileColor::White)]);
    assert!(get_actions(&s).is_empty());
    assert!(get_spawn_squares(&s).is_empty());
    assert!(get_tile_actions(&s, c(1, 0)).is_empty());
}

#[test]
fn legal_action_coordinates_on_board() {
    let mut s = GameState::new();
    for _ in 0..40 {
        let acts = get_actions(&s);
        for a in &acts {
            for p in coords(a) {
                assert!(Coordinate::legal(p.x, p.y));
            }
        }
        if acts.is_empty() {
            break;
        }
        let pick = acts.len() - 1;
        do_unsafe_action_with_draw(&mut s, &acts[pick], 7);
    }
}

#[test]
fn tiles_are_conserved() {
    let mut s = GameState::new();
    let before = all_tiles(&s);
    assert_eq!(before.len(), 2 * (17 + 3));
    for _ in 0..30 {
        let acts = get_actions(&s);
        if acts.is_empty() {
            break;
        }
        let a = acts[acts.len() / 2];
        let t = do_unsafe_action_copy(&s, &a);
        let mut x = all_tiles(&t);
        let mut y = all_tiles(&s);
        x.iter_mut().for_each(|t| t.flipped = false);
        y.iter_mut().for_each(|t| t.flipped = false);
        x.sort_by_key(|t| (t.kind as u8, t.color as u8));
        y.sort_by_key(|t| (t.kind as u8, t.color as u8));
        assert_eq!(x, y);
        s = t;
    }
}

#[test]
fn duke_cache_matches_board() {
    let mut s = GameState::new();
    for step in 0..40 {
        for color in 0..2usize {
            let mut found = None;
            for y in 0..6u8 {
                for x in 0..6u8 {
                    if let Some(t) = s.board[y as usize][x as usize].tile {
                        if t.kind == TileType::Duke && t.color as usize == color {
                            found = Some(c(x, y));
                        }
                    }
                }
            }
            assert_eq!(s.dukes[color], found, "step {}", step);
        }
        let acts = get_actions(&s);
        if acts.is_empty() {
            break;
        }
        do_unsafe_action_with_draw(&mut s, &acts[step % acts.len()], step as u64);
    }
}

#[test]
fn ply_alternates_except_after_draw() {
    let mut s = GameState::new();
    play_first(&mut s, 6);
    assert!(s.drawn_tiles[s.ply as usize].is_empty());
    let acts = get_actions(&s);
    assert_eq!(acts[0], Action::NewFromBag);
    let ply = s.ply;
    let bag_len = s.bags[ply as usize].len();
    do_unsafe_action_with_draw(&mut s, &Action::NewFromBag, 3);
    assert_eq!(s.ply, ply);
    assert_eq!(s.bags[ply as usize].len(), bag_len - 1);
    assert_eq!(s.drawn_tiles[ply as usize].len(), 1);
    let acts = get_actions(&s);
    assert!(acts.iter().all(|a| matches!(a, Action::PlaceNew(_))));
    do_unsafe_action(&mut s, &acts[0]);
    assert_ne!(s.ply, ply);
}

#[test]
fn draw_takes_indexed_tile() {
    let mut s = GameState::new();
    play_first(&mut s, 6);
    let ply = s.ply as usize;
    let bag = s.bags[ply].clone();
    do_unsafe_action_with_draw(&mut s, &Action::NewFromBag, 20);
    let i = 20 % bag.len();
    assert_eq!(s.drawn_tiles[ply], vec![bag[i]]);
    let mut expect = bag.clone();
    expect.swap_remove(i);
    assert_eq!(s.bags[ply], expect);
}

#[test]
fn finished_game_has_no_actions() {
    let mut s = GameState::new();
    s.game_over = Some(Winner::Color(TileColor::White));
    assert!(get_actions(&s).is_empty());
    assert!(get_spawn_squares(&s).is_empty());
    put(&mut s, 2, 2, TileType::Footman, TileColor::Black, false);
    assert!(get_tile_actions(&s, c(2, 2)).is_empty());
}

#[test]
fn mirrored_footman_moves() {
    let mut s = empty_game();
    put(&mut s, 2, 1, TileType::Footman, TileColor::Black, true);
    let mut m = empty_game();
    m.ply = TileColor::White;
    put(&mut m, 3, 4, TileType::Footman, TileColor::White, true);
    let a = get_tile_actions(&s, c(2, 1));
    let b = get_tile_actions(&m, c(3, 4));
    assert_eq!(a.len(), b.len());
    for (x, y) in a.iter().zip(b.iter()) {
        match (x, y) {
            (Action::Move(p), Action::Move(q)) => {
                assert_eq!(q.tile_pos, c(5 - p.tile_pos.x, 5 - p.tile_pos.y));
                assert_eq!(q.target_pos, c(5 - p.target_pos.x, 5 - p.target_pos.y));
                assert_eq!(p.result, q.result);
            }
            _ => panic!("unexpected action"),
        }
    }
}

#[test]
fn dread_holds_all_but_duke() {
    let mut s = empty_game();
    put(&mut s, 2, 2, TileType::Footman, TileColor::Black, false);
    put(&mut s, 4, 4, TileType::Duke, TileColor::Black, false);
    s.board[2][2].effects.push(Effect::Dread);
    s.board[4][4].effects.push(Effect::Dread);
    assert!(get_tile_actions(&s, c(2, 2)).is_empty());
    assert!(!get_tile_actions(&s, c(4, 4)).is_empty());
}

#[test]
fn slide_squares_between_are_empty() {
    let mut s = empty_game();
    put(&mut s, 0, 0, TileType::Duke, TileColor::Black, false);
    put(&mut s, 3, 0, TileType::Pikeman, TileColor::White, false);
    put(&mut s, 2, 2, TileType::Footman, TileColor::Black, true);
    put(&mut s, 2, 3, TileType::Sage, TileColor::White, false);
    let acts = get_tile_actions(&s, c(0, 0));
    assert_eq!(
        acts,
        vec![
            Action::Slide(ActionData { tile_pos: c(0, 0), target_pos: c(1, 0), result: ActionResult::Move }),
            Action::Slide(ActionData { tile_pos: c(0, 0), target_pos: c(2, 0), result: ActionResult::Move }),
            Action::Slide(ActionData { tile_pos: c(0, 0), target_pos: c(3, 0), result: ActionResult::Capture }),
        ]
    );
    // The flipped footman's move two squares up is blocked by the sage in between.
    let acts = get_tile_actions(&s, c(2, 2));
    assert!(acts.iter().all(|a| match a {
        Action::Move(d) => d.target_pos != c(2, 4),
        _ => true,
    }));
}

#[test]
fn jump_ignores_tiles_in_between() {
    let mut s = empty_game();
    put(&mut s, 2, 0, TileType::Champion, TileColor::Black, false);
    put(&mut s, 2, 1, TileType::Footman, TileColor::Black, false);
    put(&mut s, 2, 2, TileType::Footman, TileColor::White, false);
    let acts = get_tile_actions(&s, c(2, 0));
    assert!(acts.contains(&Action::Jump(ActionData {
        tile_pos: c(2, 0),
        target_pos: c(2, 2),
        result: ActionResult::Capture
    })));
    // A defence on the square in between stops the jump.
    s.board[1][2].effects.push(Effect::Defence);
    let acts = get_tile_actions(&s, c(2, 0));
    assert!(!acts.iter().any(|a| matches!(a, Action::Jump(d) if d.target_pos == c(2, 2))));
}

#[test]
fn strike_needs_hostile_target() {
    let mut s = empty_game();
    put(&mut s, 2, 2, TileType::Champion, TileColor::Black, true);
    put(&mut s, 2, 3, TileType::Footman, TileColor::White, false);
    let acts = get_tile_actions(&s, c(2, 2));
    let strikes: Vec<&Action> = acts.iter().filter(|a| matches!(a, Action::Strike(_))).collect();
    assert_eq!(
        strikes,
        vec![&Action::Strike(ActionData { tile_pos: c(2, 2), target_pos: c(2, 3), result: ActionResult::Capture })]
    );
}

#[test]
fn strike_leaves_striker_in_place() {
    let mut s = empty_game();
    put(&mut s, 2, 2, TileType::Champion, TileColor::Black, true);
    put(&mut s, 2, 3, TileType::Footman, TileColor::White, false);
    put(&mut s, 0, 0, TileType::Duke, TileColor::Black, false);
    put(&mut s, 5, 5, TileType::Duke, TileColor::White, false);
    s.dukes = vec![Some(c(0, 0)), Some(c(5, 5))];
    let a = Action::Strike(ActionData { tile_pos: c(2, 2), target_pos: c(2, 3), result: ActionResult::Capture });
    do_unsafe_action(&mut s, &a);
    assert_eq!(s.board[3][2].tile, None);
    assert_eq!(s.board[2][2].tile, Some(Tile::new(TileType::Champion, TileColor::Black)));
    assert_eq!(s.graveyard, vec![Tile::new(TileType::Footman, TileColor::White)]);
}

#[test]
fn lost_when_no_duke_to_recover() {
    let mut s = empty_game();
    put(&mut s, 0, 0, TileType::Duke, TileColor::Black, false);
    put(&mut s, 5, 5, TileType::Footman, TileColor::White, false);
    s.dukes = vec![Some(c(0, 0)), None];
    do_unsafe_action(&mut s, &Action::Slide(ActionData { tile_pos: c(0, 0), target_pos: c(1, 0), result: ActionResult::Move }));
    assert_eq!(s.game_over, Some(Winner::Color(TileColor::Black)));
}
