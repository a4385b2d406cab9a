use rusty_duke::ai::alpha_beta::{get_action, Agent, Duration};
use rusty_duke::logic::{
    do_unsafe_action_with_draw, get_actions, Action, ActionData, ActionResult, Coordinate, GameState,
    Tile, TileColor, TileType, Winner,
};
use std::time::Instant;

fn c(x: u8, y: u8) -> Coordinate {
    Coordinate::new(x, y)
}

fn opened() -> GameState {
    let mut s = GameState::new();
    for _ in 0..6 {
        let acts = get_actions(&s);
        do_unsafe_action_with_draw(&mut s, &acts[0], 0);
    }
    s
}

#[test]
fn agent_keeps_its_settings() {
    let a = Agent::new(TileColor::White, Some(3), None);
    assert_eq!(a.color, TileColor::White);
    assert_eq!(a.depth, Some(3));
    assert_eq!(a.duration, None);
}

#[test]
fn search_returns_legal_action() {
    let s = opened();
    let agent = Agent::new(s.ply, Some(2), None);
    let a = get_action(&agent, &s).expect("an action");
    assert!(get_actions(&s).contains(&a));
}

#[test]
fn search_opening_places_tile() {
    let s = GameState::new();
    let agent = Agent::new(TileColor::Black, Some(1), None);
    let a = get_action(&agent, &s).expect("an action");
    assert!(matches!(a, Action::PlaceNew(_)));
}

#[test]
fn search_finished_game_gives_none() {
    let mut s = GameState::new();
    s.game_over = Some(Winner::Color(TileColor::Black));
    let agent = Agent::new(TileColor::Black, Some(2), None);
    assert_eq!(get_action(&agent, &s), None);
}

#[test]
fn search_takes_the_duke() {
    let mut s = GameState::new();
    s.drawn_tiles[0].clear();
    s.drawn_tiles[1].clear();
    s.board[0][0].tile = Some(Tile::new(TileType::Duke, TileColor::Black));
    s.board[0][3].tile = Some(Tile::new(TileType::Duke, TileColor::White));
    s.board[4][4].tile = Some(Tile::new(TileType::Pikeman, TileColor::White));
    s.dukes = vec![Some(c(0, 0)), Some(c(3, 0))];
    let agent = Agent::new(TileColor::Black, Some(2), None);
    assert_eq!(
        get_action(&agent, &s),
        Some(Action::Slide(ActionData { tile_pos: c(0, 0), target_pos: c(3, 0), result: ActionResult::Capture }))
    );
}

#[test]
fn search_respects_deadline() {
    let s = opened();
    let agent = Agent::new(s.ply, None, Some(Duration::from_millis(200)));
    let start = Instant::now();
    let a = get_action(&agent, &s);
    assert!(start.elapsed() < Duration::from_secs(10));
    if let Some(a) = a {
        assert!(get_actions(&s).contains(&a));
    }
}

#[test]
fn search_with_depth_and_deadline() {
    let s = opened();
    let agent = Agent::new(s.ply, Some(2), Some(Duration::from_secs(5)));
    let a = get_action(&agent, &s).expect("an action");
    assert!(get_actions(&s).contains(&a));
}
