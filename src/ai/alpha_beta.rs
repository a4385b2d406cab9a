//! Alpha-beta search agent.

use vstd::prelude::*;
use std::cmp::Ordering;
pub use std::time::Duration;
use std::time::Instant;
use crate::ai::clock::{at_least, elapsed, now};
use crate::logic::catalog::{black_vocab, black_effect_vocab, tile_actions, tile_effects};
use crate::logic::apply::{action_ok, applied, commanded, do_unsafe_action_copy, end_turn, moved, placed, struck};
use crate::logic::enumerate::{
    actions_of_tile, get_actions, get_spawn_squares, get_tile_actions, legal_actions, spawn_defined,
    spawn_squares,
};
use crate::logic::laws::lemma_legal_actions_ok;
use crate::logic::{
    at, on_board, own_bag, shaped, tile_at, Tile, Winner, Action, ActionResult, ActionType, AvailableAction, AvailableEffect, Coordinate, Effect,
    GameState, StateView, TileColor, TileType,
};

verus! {

/// A search agent playing `color`. At least one of `depth` and `duration`
/// bounds its search.
#[derive(Debug, PartialEq)]
pub struct Agent {
    pub color: TileColor,
    /// Search depth.
    pub depth: Option<u8>,
    /// Longest time a search may take.
    pub duration: Option<Duration>,
}

impl Agent {
    /// A new agent; depth and duration must not both be missing.
    pub fn new(color: TileColor, depth: Option<u8>, duration: Option<Duration>) -> (r: Agent)
        requires
            depth is Some || duration is Some,
        ensures
            r.color == color,
            r.depth == depth,
            r.duration == duration,
    {
        Agent { color, depth, duration }
    }
}

/// Worth of one vocabulary entry of each kind.
pub open spec fn action_points(k: ActionType) -> int {
    match k {
        ActionType::Move => 1,
        ActionType::Jump => 3,
        ActionType::JumpSlide => 4,
        ActionType::Slide => 2,
        ActionType::Command => 2,
        ActionType::Strike => 3,
        _ => 0,
    }
}

/// Worth of one effect entry of each kind.
pub open spec fn effect_points(e: Effect) -> int {
    match e {
        Effect::Dread => 1,
        Effect::Defence => 3,
    }
}

/// Worth of a side's action vocabulary.
pub open spec fn vocab_points(s: Seq<AvailableAction>) -> int
    decreases s.len(),
{
    if s.len() == 0 {
        0
    } else {
        vocab_points(s.drop_last()) + action_points(s.last().kind)
    }
}

/// Worth of a side's effect vocabulary.
pub open spec fn effect_vocab_points(s: Seq<AvailableEffect>) -> int
    decreases s.len(),
{
    if s.len() == 0 {
        0
    } else {
        effect_vocab_points(s.drop_last()) + effect_points(s.last().kind)
    }
}

/// Worth of a tile type: 1000 for the duke, else the worth of both sides'
/// vocabularies.
pub open spec fn tile_value(kind: TileType) -> int {
    if kind == TileType::Duke {
        1000
    } else {
        vocab_points(black_vocab(kind, false)) + vocab_points(black_vocab(kind, true))
            + effect_vocab_points(black_effect_vocab(kind, false)) + effect_vocab_points(
            black_effect_vocab(kind, true),
        )
    }
}

proof fn lemma_vocab_points_bound(s: Seq<AvailableAction>)
    ensures
        0 <= vocab_points(s) <= 4 * s.len(),
    decreases s.len(),
{
    if s.len() > 0 {
        lemma_vocab_points_bound(s.drop_last());
    }
}

/// Every tile type is worth between 0 and 1000.
pub proof fn lemma_tile_value_bound(kind: TileType)
    ensures
        0 <= tile_value(kind) <= 1000,
{
    crate::logic::catalog::lemma_catalog_small(kind, false);
    crate::logic::catalog::lemma_catalog_small(kind, true);
    lemma_vocab_points_bound(black_vocab(kind, false));
    lemma_vocab_points_bound(black_vocab(kind, true));
    assert(black_effect_vocab(kind, false) =~= Seq::<AvailableEffect>::empty());
    assert(black_effect_vocab(kind, true) =~= Seq::<AvailableEffect>::empty());
}

fn points_of_actions(actions: &Vec<AvailableAction>) -> (r: i32)
    requires
        actions.len() <= 12,
    ensures
        r == vocab_points(actions@),
{
    let mut u: i32 = 0;
    let mut i: usize = 0;
    while i < actions.len()
        invariant
            i <= actions.len() <= 12,
            u == vocab_points(actions@.take(i as int)),
            0 <= u <= 4 * i,
        decreases actions.len() - i,
    {
        proof {
            assert(actions@.take(i as int + 1).drop_last() =~= actions@.take(i as int));
        }
        u = u + match actions[i].kind {
            ActionType::Move => 1,
            ActionType::Jump => 3,
            ActionType::JumpSlide => 4,
            ActionType::Slide => 2,
            ActionType::Command => 2,
            ActionType::Strike => 3,
            _ => 0,
        };
        i = i + 1;
    }
    proof {
        assert(actions@.take(actions.len() as int) =~= actions@);
    }
    u
}

fn points_of_effects(effects: &Vec<AvailableEffect>) -> (r: i32)
    requires
        effects.len() <= 12,
    ensures
        r == effect_vocab_points(effects@),
{
    let mut u: i32 = 0;
    let mut i: usize = 0;
    while i < effects.len()
        invariant
            i <= effects.len() <= 12,
            u == effect_vocab_points(effects@.take(i as int)),
            0 <= u <= 3 * i,
        decreases effects.len() - i,
    {
        proof {
            assert(effects@.take(i as int + 1).drop_last() =~= effects@.take(i as int));
        }
        u = u + match effects[i].kind {
            Effect::Dread => 1,
            Effect::Defence => 3,
        };
        i = i + 1;
    }
    proof {
        assert(effects@.take(effects.len() as int) =~= effects@);
    }
    u
}

/// Worth of a tile type, as `tile_value` says.
fn tile_utility(kind: TileType) -> (r: i32)
    ensures
        r == tile_value(kind),
{
    if kind == TileType::Duke {
        return 1000;
    }
    proof {
        crate::logic::catalog::lemma_catalog_small(kind, false);
        crate::logic::catalog::lemma_catalog_small(kind, true);
    }
    let actions = tile_actions(kind);
    let effects = tile_effects(kind);
    proof {
        assert(effects.front@ =~= Seq::<AvailableEffect>::empty());
        assert(effects.back@ =~= Seq::<AvailableEffect>::empty());
        lemma_vocab_points_bound(actions.front@);
        lemma_vocab_points_bound(actions.back@);
    }
    points_of_actions(&actions.front) + points_of_actions(&actions.back) + points_of_effects(&effects.front)
        + points_of_effects(&effects.back)
}

/// Rank of a result on `target` for move ordering: a capture ranks by the
/// worth of the tile taken, above anything else but a placement.
pub open spec fn capture_key(v: StateView, result: ActionResult, target: Coordinate) -> int {
    if result == ActionResult::Capture {
        match tile_at(v, target) {
            Some(t) => 1 + tile_value(t.kind),
            None => 1,
        }
    } else {
        0
    }
}

/// Rank of an action for move ordering; greater is better. A placement beats
/// everything, a capture beats every non-capture, and draws and plain moves
/// tie.
pub open spec fn order_key(v: StateView, a: Action) -> int {
    match a {
        Action::NewFromBag => 0,
        Action::PlaceNew(_) => 2000,
        Action::Move(d) => capture_key(v, d.result, d.target_pos),
        Action::Jump(d) => capture_key(v, d.result, d.target_pos),
        Action::JumpSlide(d) => capture_key(v, d.result, d.target_pos),
        Action::Slide(d) => capture_key(v, d.result, d.target_pos),
        Action::Strike(d) => capture_key(v, d.result, d.target_pos),
        Action::Command(d) => capture_key(v, d.result, d.target_pos),
    }
}

/// Rank of a result on `target`, as `capture_key` says.
fn capture_rank(state: &GameState, result: ActionResult, target: Coordinate) -> (r: i32)
    requires
        shaped(state@),
        on_board(target),
    ensures
        r == capture_key(state@, result, target),
{
    if result == ActionResult::Capture {
        match state.square(target).tile {
            Some(t) => {
                proof {
                    lemma_tile_value_bound(t.kind);
                }
                1 + tile_utility(t.kind)
            },
            None => 1,
        }
    } else {
        0
    }
}

/// Rank of an action, as `order_key` says.
fn action_rank(state: &GameState, a: &Action) -> (r: i32)
    requires
        shaped(state@),
        targets_on_board(*a),
    ensures
        r == order_key(state@, *a),
{
    match *a {
        Action::NewFromBag => 0,
        Action::PlaceNew(_) => 2000,
        Action::Move(d) => capture_rank(state, d.result, d.target_pos),
        Action::Jump(d) => capture_rank(state, d.result, d.target_pos),
        Action::JumpSlide(d) => capture_rank(state, d.result, d.target_pos),
        Action::Slide(d) => capture_rank(state, d.result, d.target_pos),
        Action::Strike(d) => capture_rank(state, d.result, d.target_pos),
        Action::Command(d) => capture_rank(state, d.result, d.target_pos),
    }
}

/// Whether the target square of an action lies on the board.
pub open spec fn targets_on_board(a: Action) -> bool {
    match a {
        Action::NewFromBag => true,
        Action::PlaceNew(c) => on_board(c),
        Action::Move(d) => on_board(d.target_pos),
        Action::Jump(d) => on_board(d.target_pos),
        Action::JumpSlide(d) => on_board(d.target_pos),
        Action::Slide(d) => on_board(d.target_pos),
        Action::Strike(d) => on_board(d.target_pos),
        Action::Command(d) => on_board(d.target_pos),
    }
}

/// Compares two actions for move ordering; greater is better.
fn action_cmp(state: &GameState, a: &Action, b: &Action) -> (r: Ordering)
    requires
        shaped(state@),
        targets_on_board(*a),
        targets_on_board(*b),
    ensures
        r == (if order_key(state@, *a) < order_key(state@, *b) {
            Ordering::Less
        } else if order_key(state@, *a) > order_key(state@, *b) {
            Ordering::Greater
        } else {
            Ordering::Equal
        }),
{
    let ka = action_rank(state, a);
    let kb = action_rank(state, b);
    if ka < kb {
        Ordering::Less
    } else if ka > kb {
        Ordering::Greater
    } else {
        Ordering::Equal
    }
}

/// `s`, ordered best first, with `a` put after every action that ranks at
/// least as high.
pub open spec fn insert_ranked(v: StateView, s: Seq<Action>, a: Action) -> Seq<Action>
    decreases s.len(),
{
    if s.len() == 0 {
        seq![a]
    } else if order_key(v, s.last()) >= order_key(v, a) {
        s.push(a)
    } else {
        insert_ranked(v, s.drop_last(), a).push(s.last())
    }
}

/// `s` ordered best first; actions of equal rank keep their order.
pub open spec fn ranked(v: StateView, s: Seq<Action>) -> Seq<Action>
    decreases s.len(),
{
    if s.len() == 0 {
        seq![]
    } else {
        insert_ranked(v, ranked(v, s.drop_last()), s.last())
    }
}

proof fn lemma_insert_at(v: StateView, s: Seq<Action>, a: Action, j: int)
    requires
        0 <= j <= s.len(),
        forall|k: int| j <= k < s.len() ==> order_key(v, #[trigger] s[k]) < order_key(v, a),
        j > 0 ==> order_key(v, s[j - 1]) >= order_key(v, a),
    ensures
        insert_ranked(v, s, a) == s.take(j).push(a) + s.skip(j),
    decreases s.len(),
{
    if s.len() == 0 {
        assert(s.take(j).push(a) + s.skip(j) =~= seq![a]);
    } else if j == s.len() {
        assert(s.take(j).push(a) + s.skip(j) =~= s.push(a));
    } else {
        let t = s.drop_last();
        assert(order_key(v, s.last()) < order_key(v, a));
        assert forall|k: int| j <= k < t.len() implies order_key(v, #[trigger] t[k]) < order_key(v, a) by {
            assert(t[k] == s[k]);
        }
        if j > 0 {
            assert(t[j - 1] == s[j - 1]);
        }
        lemma_insert_at(v, t, a, j);
        assert(t.take(j).push(a) + t.skip(j) + seq![s.last()] =~= s.take(j).push(a) + s.skip(j));
        assert((t.take(j).push(a) + t.skip(j)).push(s.last()) =~= t.take(j).push(a) + t.skip(j) + seq![s.last()]);
    }
}

proof fn lemma_insert_contains(v: StateView, s: Seq<Action>, a: Action, x: Action)
    ensures
        insert_ranked(v, s, a).contains(x) <==> (s.contains(x) || x == a),
    decreases s.len(),
{
    if s.len() == 0 {
        assert(seq![a][0] == a);
    } else if order_key(v, s.last()) >= order_key(v, a) {
        assert(s.push(a)[s.len() as int] == a);
        if s.contains(x) {
            let i = choose|i: int| 0 <= i < s.len() && s[i] == x;
            assert(s.push(a)[i] == x);
        }
    } else {
        let t = s.drop_last();
        lemma_insert_contains(v, t, a, x);
        let r = insert_ranked(v, t, a);
        assert(r.push(s.last())[r.len() as int] == s.last());
        if r.contains(x) {
            let i = choose|i: int| 0 <= i < r.len() && r[i] == x;
            assert(r.push(s.last())[i] == x);
        }
        if r.push(s.last()).contains(x) {
            let i = choose|i: int| 0 <= i < r.len() + 1 && r.push(s.last())[i] == x;
            if i < r.len() {
                assert(r[i] == x);
            }
        }
        if t.contains(x) {
            let i = choose|i: int| 0 <= i < t.len() && t[i] == x;
            assert(s[i] == x);
        }
        if s.contains(x) {
            let i = choose|i: int| 0 <= i < s.len() && s[i] == x;
            if i < t.len() {
                assert(t[i] == x);
            }
        }
    }
}

/// Ordering keeps exactly the actions it was given.
pub proof fn lemma_ranked_contains(v: StateView, s: Seq<Action>, x: Action)
    ensures
        ranked(v, s).contains(x) <==> s.contains(x),
    decreases s.len(),
{
    if s.len() > 0 {
        let t = s.drop_last();
        lemma_ranked_contains(v, t, x);
        lemma_insert_contains(v, ranked(v, t), s.last(), x);
        if t.contains(x) {
            let i = choose|i: int| 0 <= i < t.len() && t[i] == x;
            assert(s[i] == x);
        }
        if s.contains(x) {
            let i = choose|i: int| 0 <= i < s.len() && s[i] == x;
            if i < t.len() {
                assert(t[i] == x);
            }
        }
    }
}

/// The actions ordered best first, as `ranked` says.
fn sort_actions(state: &GameState, actions: &Vec<Action>) -> (r: Vec<Action>)
    requires
        shaped(state@),
        forall|i: int| 0 <= i < actions.len() ==> targets_on_board(#[trigger] actions@[i]),
    ensures
        r@ == ranked(state@, actions@),
{
    let mut r: Vec<Action> = Vec::new();
    let mut keys: Vec<i32> = Vec::new();
    let mut i: usize = 0;
    while i < actions.len()
        invariant
            shaped(state@),
            forall|i: int| 0 <= i < actions.len() ==> targets_on_board(#[trigger] actions@[i]),
            i <= actions.len(),
            r@ == ranked(state@, actions@.take(i as int)),
            keys@.len() == r@.len(),
            forall|k: int| 0 <= k < r@.len() ==> #[trigger] keys@[k] == order_key(state@, r@[k]),
        decreases actions.len() - i,
    {
        let a = actions[i];
        let ka = action_rank(state, &a);
        let mut j: usize = r.len();
        while j > 0 && keys[j - 1] < ka
            invariant
                j <= r@.len(),
                keys@.len() == r@.len(),
                ka == order_key(state@, a),
                forall|k: int| 0 <= k < r@.len() ==> #[trigger] keys@[k] == order_key(state@, r@[k]),
                forall|k: int| j <= k < r@.len() ==> order_key(state@, #[trigger] r@[k]) < order_key(state@, a),
            decreases j,
        {
            j = j - 1;
        }
        proof {
            lemma_insert_at(state@, r@, a, j as int);
            assert(actions@.take(i as int + 1).drop_last() =~= actions@.take(i as int));
        }
        let ghost old_r = r@;
        let ghost old_keys = keys@;
        r.insert(j, a);
        keys.insert(j, ka);
        proof {
            assert(r@ =~= old_r.take(j as int).push(a) + old_r.skip(j as int));
            assert forall|k: int| 0 <= k < r@.len() implies #[trigger] keys@[k] == order_key(state@, r@[k]) by {
                if k < j {
                    assert(r@[k] == old_r[k]);
                    assert(keys@[k] == old_keys[k]);
                } else if k > j {
                    assert(r@[k] == old_r[k - 1]);
                    assert(keys@[k] == old_keys[k - 1]);
                }
            }
        }
        i = i + 1;
    }
    proof {
        assert(actions@.take(actions.len() as int) =~= actions@);
    }
    r
}

/// The bound past which a threat on a duke decides the evaluation.
pub const CHECK_MATE_UTIL: i32 = 100000;

/// Worth for `color` of an action that would take a duke on `target`: a
/// threat to one's own duke costs little when one is to move (it can still
/// be met) and much when the opponent is to move; the same holds the other
/// way round for the opponent's duke.
pub open spec fn threat_value(v: StateView, color: TileColor, result: ActionResult, target: Coordinate) -> int {
    if result == ActionResult::Capture && on_board(target) && (tile_at(v, target) matches Some(t) && t.kind
        == TileType::Duke) {
        let t = tile_at(v, target).unwrap();
        if t.color == color {
            if v.ply == color {
                -1000
            } else {
                -CHECK_MATE_UTIL
            }
        } else {
            if v.ply == color {
                CHECK_MATE_UTIL as int
            } else {
                1000
            }
        }
    } else {
        0
    }
}

/// `threat_value` of an action.
pub open spec fn action_threat(v: StateView, color: TileColor, a: Action) -> int {
    match a {
        Action::Move(d) => threat_value(v, color, d.result, d.target_pos),
        Action::Jump(d) => threat_value(v, color, d.result, d.target_pos),
        Action::JumpSlide(d) => threat_value(v, color, d.result, d.target_pos),
        Action::Slide(d) => threat_value(v, color, d.result, d.target_pos),
        Action::Strike(d) => threat_value(v, color, d.result, d.target_pos),
        Action::Command(d) => threat_value(v, color, d.result, d.target_pos),
        _ => 0,
    }
}

/// Whether a running evaluation has reached the check-mate bound.
pub open spec fn decided(u: int) -> bool {
    u >= CHECK_MATE_UTIL || u <= -CHECK_MATE_UTIL
}

/// The running evaluation `u` with the threats of `acts` added one by one,
/// stopping (second component) as soon as the check-mate bound is reached.
pub open spec fn add_threats(v: StateView, color: TileColor, acts: Seq<Action>, u: int) -> (int, bool)
    decreases acts.len(),
{
    if acts.len() == 0 {
        (u, false)
    } else {
        let (w, stop) = add_threats(v, color, acts.drop_last(), u);
        if stop {
            (w, true)
        } else {
            let w2 = w + action_threat(v, color, acts.last());
            (w2, decided(w2))
        }
    }
}

/// The running evaluation after the square number `k`, counted row by row:
/// the threats of its tile's actions, then the tile's worth, counted for
/// `color` or against it.
pub open spec fn square_step(v: StateView, color: TileColor, k: int, u: int) -> (int, bool) {
    let c = at(k % 6, k / 6);
    match tile_at(v, c) {
        None => (u, false),
        Some(t) => {
            let (w, stop) = add_threats(v, color, actions_of_tile(v, c), u);
            if stop {
                (w, true)
            } else if t.color == color {
                (w + tile_value(t.kind), false)
            } else {
                (w - tile_value(t.kind), false)
            }
        },
    }
}

/// The running evaluation over the first `n` squares.
pub open spec fn scan(v: StateView, color: TileColor, n: int) -> (int, bool)
    decreases n,
{
    if n <= 0 {
        (0, false)
    } else {
        let (u, stop) = scan(v, color, n - 1);
        if stop {
            (u, true)
        } else {
            square_step(v, color, n - 1, u)
        }
    }
}

/// Evaluation of a game for the side `color`; larger is better. A won game
/// is worth 1000000, a lost one -1000000. Otherwise the scan of the board,
/// which ends early at the check-mate bound, plus 5 for every spawn square of
/// the side to move.
pub open spec fn utility_value(color: TileColor, v: StateView) -> int {
    match v.game_over {
        Some(Winner::Color(c)) => if c == color {
            1000000
        } else {
            -1000000
        },
        None => {
            let (u, stop) = scan(v, color, 36);
            if stop {
                u
            } else {
                u + 5 * spawn_squares(v).len()
            }
        },
    }
}

/// Threat of an action, as `action_threat` says.
fn threat_of(agent: &Agent, state: &GameState, a: &Action) -> (r: i32)
    requires
        shaped(state@),
    ensures
        r == action_threat(state@, agent.color, *a),
{
    let (result, target) = match *a {
        Action::Move(d) => (d.result, d.target_pos),
        Action::Jump(d) => (d.result, d.target_pos),
        Action::JumpSlide(d) => (d.result, d.target_pos),
        Action::Slide(d) => (d.result, d.target_pos),
        Action::Strike(d) => (d.result, d.target_pos),
        Action::Command(d) => (d.result, d.target_pos),
        _ => {
            return 0;
        },
    };
    if result != ActionResult::Capture || !Coordinate::legal(target.x, target.y) {
        return 0;
    }
    match state.square(target).tile {
        Some(t) => {
            if t.kind != TileType::Duke {
                0
            } else if t.color == agent.color {
                if state.ply == agent.color {
                    -1000
                } else {
                    -CHECK_MATE_UTIL
                }
            } else {
                if state.ply == agent.color {
                    CHECK_MATE_UTIL
                } else {
                    1000
                }
            }
        },
        None => 0,
    }
}

proof fn lemma_threats_stay(v: StateView, color: TileColor, acts: Seq<Action>, u: int, m: int, n: int, w: int)
    requires
        0 <= m <= n <= acts.len(),
        add_threats(v, color, acts.take(m), u) == (w, true),
    ensures
        add_threats(v, color, acts.take(n), u) == (w, true),
    decreases n - m,
{
    if n > m {
        lemma_threats_stay(v, color, acts, u, m, n - 1, w);
        assert(acts.take(n).drop_last() =~= acts.take(n - 1));
    }
}

proof fn lemma_scan_stays(v: StateView, color: TileColor, m: int, n: int, w: int)
    requires
        0 <= m <= n,
        scan(v, color, m) == (w, true),
    ensures
        scan(v, color, n) == (w, true),
    decreases n - m,
{
    if n > m {
        lemma_scan_stays(v, color, m, n - 1, w);
    }
}

proof fn lemma_spawn_count(v: StateView)
    ensures
        spawn_squares(v).len() <= 4,
{
}

/// Evaluation of `state` for the agent, as `utility_value` says.
fn utility(agent: &Agent, state: &GameState) -> (r: i32)
    requires
        shaped(state@),
        spawn_defined(state@),
    ensures
        r == utility_value(agent.color, state@),
        -1000000 <= r <= 1000000,
{
    let ghost v = state@;
    let color = agent.color;
    if let Some(Winner::Color(c)) = state.game_over {
        return if c == color {
            1000000
        } else {
            -1000000
        };
    }
    let mut u: i32 = 0;
    let mut k: u8 = 0;
    while k < 36
        invariant
            shaped(v),
            v == state@,
            color == agent.color,
            k <= 36,
            scan(v, color, k as int) == (u as int, false),
            -100000 - 1000 * k < u < 100000 + 1000 * k,
        decreases 36 - k,
    {
        let c = Coordinate { x: k % 6, y: k / 6 };
        assert(c == at(k as int % 6, k as int / 6));
        match state.square(c).tile {
            None => {},
            Some(t) => {
                let acts = get_tile_actions(state, c);
                let ghost u0 = u as int;
                let mut i: usize = 0;
                while i < acts.len()
                    invariant
                        shaped(v),
                        v == state@,
                        color == agent.color,
                        i <= acts.len(),
                        acts@ == actions_of_tile(v, c),
                        add_threats(v, color, acts@.take(i as int), u0) == (u as int, false),
                        k < 36,
                        c == at(k as int % 6, k as int / 6),
                        tile_at(v, c) == Some(t),
                        scan(v, color, k as int) == (u0, false),
                        -100000 - 1000 * k < u < 100000 + 1000 * k,
                        i > 0 ==> !decided(u as int),
                    decreases acts.len() - i,
                {
                    let th = threat_of(agent, state, &acts[i]);
                    proof {
                        assert(acts@.take(i as int + 1).drop_last() =~= acts@.take(i as int));
                        assert(acts@.take(i as int + 1).last() == acts@[i as int]);
                    }
                    u = u + th;
                    if u >= CHECK_MATE_UTIL || u <= -CHECK_MATE_UTIL {
                        proof {
                            lemma_threats_stay(v, color, acts@, u0, i as int + 1, acts@.len() as int, u as int);
                            assert(acts@.take(acts@.len() as int) =~= acts@);
                            assert(scan(v, color, k as int + 1) == (u as int, true));
                            lemma_scan_stays(v, color, k as int + 1, 36, u as int);
                        }
                        return u;
                    }
                    i = i + 1;
                }
                proof {
                    assert(acts@.take(acts@.len() as int) =~= acts@);
                    lemma_tile_value_bound(t.kind);
                }
                if t.color == color {
                    u = u + tile_utility(t.kind);
                } else {
                    u = u - tile_utility(t.kind);
                }
            },
        }
        k = k + 1;
    }
    let spawns = get_spawn_squares(state);
    proof {
        lemma_spawn_count(v);
    }
    u + 5 * (spawns.len() as i32)
}

/// Worth of the tiles of a bag.
pub open spec fn bag_points(s: Seq<Tile>) -> int
    decreases s.len(),
{
    if s.len() == 0 {
        0
    } else {
        bag_points(s.drop_last()) + tile_value(s.last().kind)
    }
}

/// Value of drawing from the bag, which search does not expand: the mean
/// worth of the bag's tiles (rounded down) plus the evaluation of the game.
pub open spec fn chance_value(color: TileColor, v: StateView) -> int {
    if own_bag(v).len() == 0 {
        utility_value(color, v)
    } else {
        bag_points(own_bag(v)) / (own_bag(v).len() as int) + utility_value(color, v)
    }
}

proof fn lemma_threats_bound(v: StateView, color: TileColor, acts: Seq<Action>, u: int)
    requires
        -136000 < u < 136000,
    ensures
        -236000 < add_threats(v, color, acts, u).0 < 236000,
        !add_threats(v, color, acts, u).1 ==> (-100000 < add_threats(v, color, acts, u).0 < 100000
            || add_threats(v, color, acts, u).0 == u),
    decreases acts.len(),
{
    if acts.len() > 0 {
        lemma_threats_bound(v, color, acts.drop_last(), u);
    }
}

proof fn lemma_scan_bound(v: StateView, color: TileColor, n: int)
    requires
        0 <= n <= 36,
    ensures
        -236000 < scan(v, color, n).0 < 236000,
        !scan(v, color, n).1 ==> -100000 - 1000 * n < scan(v, color, n).0 < 100000 + 1000 * n,
    decreases n,
{
    if n > 0 {
        lemma_scan_bound(v, color, n - 1);
        let (u, stop) = scan(v, color, n - 1);
        if !stop {
            let k = n - 1;
            let c = at(k % 6, k / 6);
            if let Some(t) = tile_at(v, c) {
                lemma_threats_bound(v, color, actions_of_tile(v, c), u);
                lemma_tile_value_bound(t.kind);
            }
        }
    }
}

/// The evaluation of every game lies between -1000000 and 1000000.
pub proof fn lemma_utility_bound(color: TileColor, v: StateView)
    ensures
        -1000000 <= utility_value(color, v) <= 1000000,
{
    lemma_scan_bound(v, color, 36);
    lemma_spawn_count(v);
}

proof fn lemma_bag_points_bound(s: Seq<Tile>)
    ensures
        0 <= bag_points(s) <= 1000 * s.len(),
    decreases s.len(),
{
    if s.len() > 0 {
        lemma_bag_points_bound(s.drop_last());
        lemma_tile_value_bound(s.last().kind);
    }
}

/// The value of a draw from the bag lies within the evaluation's bounds,
/// widened by the worth of a tile.
pub proof fn lemma_chance_bound(color: TileColor, v: StateView)
    ensures
        -1000000 <= chance_value(color, v) <= 1001000,
{
    lemma_utility_bound(color, v);
    let s = own_bag(v);
    lemma_bag_points_bound(s);
    if s.len() > 0 {
        let b = bag_points(s);
        let n = s.len() as int;
        assert(0 <= b / n <= 1000) by (nonlinear_arith)
            requires
                0 <= b <= 1000 * n,
                n > 0,
        ;
    }
}

/// Minimax value of `v` searched `depth` plies deep, maximizing for `color`
/// when `max` holds, over the actions in search order; a draw from the bag
/// is valued as `chance_value` says.
pub open spec fn minimax(color: TileColor, v: StateView, depth: nat, max: bool) -> int
    decreases depth, 1nat, 0nat,
{
    if depth == 0 || v.game_over is Some {
        utility_value(color, v)
    } else {
        minimax_fold(color, v, ranked(v, legal_actions(v)), depth, max)
    }
}

/// Best value for the side to move over the actions `acts` of `v`; with
/// none, the worst value there is.
pub open spec fn minimax_fold(color: TileColor, v: StateView, acts: Seq<Action>, depth: nat, max: bool) -> int
    decreases depth, 0nat, acts.len(),
{
    if depth == 0 || acts.len() == 0 {
        if max {
            i32::MIN as int
        } else {
            i32::MAX as int
        }
    } else {
        let prev = minimax_fold(color, v, acts.drop_last(), depth, max);
        let c = branch_value(color, v, acts.last(), depth, max);
        if max {
            if c > prev {
                c
            } else {
                prev
            }
        } else {
            if c < prev {
                c
            } else {
                prev
            }
        }
    }
}

/// Value of the branch of `a` from a node `depth` plies deep.
pub open spec fn branch_value(color: TileColor, v: StateView, a: Action, depth: nat, max: bool) -> int
    decreases depth, 0nat, 0nat,
{
    if depth == 0 {
        0
    } else if a == Action::NewFromBag {
        chance_value(color, v)
    } else {
        minimax(color, applied(v, a, 0), (depth - 1) as nat, !max)
    }
}

/// What a fail-soft alpha-beta result `r` in the window `(alpha, beta)`
/// tells of the true value `m`: at or below `alpha` it bounds `m` from
/// above, at or above `beta` from below, and inside the window it is `m`.
pub open spec fn window_ok(r: int, alpha: int, beta: int, m: int) -> bool {
    &&& r <= alpha ==> m <= r
    &&& r >= beta ==> m >= r
    &&& alpha < r < beta ==> m == r
}

proof fn lemma_fold_prefix(color: TileColor, v: StateView, acts: Seq<Action>, depth: nat, max: bool, j: int)
    requires
        depth > 0,
        0 <= j <= acts.len(),
    ensures
        max ==> minimax_fold(color, v, acts, depth, max) >= minimax_fold(color, v, acts.take(j), depth, max),
        !max ==> minimax_fold(color, v, acts, depth, max) <= minimax_fold(color, v, acts.take(j), depth, max),
    decreases acts.len(),
{
    if j == acts.len() {
        assert(acts.take(j) =~= acts);
    } else {
        lemma_fold_prefix(color, v, acts.drop_last(), depth, max, j);
        assert(acts.drop_last().take(j) =~= acts.take(j));
    }
}

/// Every minimax value fits in an `i32`.
pub proof fn lemma_minimax_bound(color: TileColor, v: StateView, depth: nat, max: bool)
    ensures
        i32::MIN <= minimax(color, v, depth, max) <= i32::MAX,
    decreases depth, 1nat, 0nat,
{
    if depth == 0 || v.game_over is Some {
        lemma_utility_bound(color, v);
    } else {
        lemma_fold_bound(color, v, ranked(v, legal_actions(v)), depth, max);
    }
}

/// Every value of a fold fits in an `i32`.
pub proof fn lemma_fold_bound(color: TileColor, v: StateView, acts: Seq<Action>, depth: nat, max: bool)
    ensures
        i32::MIN <= minimax_fold(color, v, acts, depth, max) <= i32::MAX,
    decreases depth, 0nat, acts.len(),
{
    if depth > 0 && acts.len() > 0 {
        lemma_fold_bound(color, v, acts.drop_last(), depth, max);
        lemma_branch_bound(color, v, acts.last(), depth, max);
        let prev = minimax_fold(color, v, acts.drop_last(), depth, max);
        let c = branch_value(color, v, acts.last(), depth, max);
        assert(minimax_fold(color, v, acts, depth, max) == (if max {
            if c > prev {
                c
            } else {
                prev
            }
        } else {
            if c < prev {
                c
            } else {
                prev
            }
        }));
    }
}

/// Every branch value fits in an `i32`.
pub proof fn lemma_branch_bound(color: TileColor, v: StateView, a: Action, depth: nat, max: bool)
    ensures
        i32::MIN <= branch_value(color, v, a, depth, max) <= i32::MAX,
    decreases depth, 0nat, 0nat,
{
    if depth > 0 {
        if a == Action::NewFromBag {
            lemma_chance_bound(color, v);
        } else {
            lemma_minimax_bound(color, applied(v, a, 0), (depth - 1) as nat, !max);
        }
    }
}

/// The deadline of a search.
struct Timer {
    duration: Duration,
    start: Instant,
}

/// Value of drawing from the bag, as `chance_value` says.
fn chance_utility(agent: &Agent, state: &GameState) -> (r: i32)
    requires
        shaped(state@),
        spawn_defined(state@),
        own_bag(state@).len() > 0,
    ensures
        r == chance_value(agent.color, state@),
{
    let bag = state.bag();
    let mut sum: u128 = 0;
    let mut i: usize = 0;
    while i < bag.len()
        invariant
            i <= bag.len(),
            sum == bag_points(bag@.take(i as int)),
            sum <= 1000 * i,
        decreases bag.len() - i,
    {
        proof {
            assert(bag@.take(i as int + 1).drop_last() =~= bag@.take(i as int));
            lemma_tile_value_bound(bag@[i as int].kind);
        }
        sum = sum + tile_utility(bag[i].kind) as u128;
        i = i + 1;
    }
    proof {
        assert(bag@.take(bag.len() as int) =~= bag@);
    }
    let n = bag.len() as u128;
    assert(sum / n <= 1000) by (nonlinear_arith)
        requires
            sum <= 1000 * n,
            n > 0,
    ;
    let mean = (sum / n) as i32;
    mean + utility(agent, state)
}

/// Every game reached by an action other than a draw from the bag has its
/// spawn squares defined.
pub proof fn lemma_end_turn_spawn_defined(w: StateView)
    ensures
        spawn_defined(end_turn(w)),
{
}

/// The value of the branch that `action` opens: a draw from the bag is
/// valued as `chance_value` says and not expanded; any other action is
/// searched one level deeper.
fn try_branch(
    agent: &Agent,
    state: &GameState,
    alpha: i32,
    beta: i32,
    depth: u8,
    timer: Option<&Timer>,
    max: bool,
    action: &Action,
) -> (r: (Option<Action>, i32))
    requires
        shaped(state@),
        spawn_defined(state@),
        legal_actions(state@).contains(*action),
    ensures
        *action == Action::NewFromBag ==> r.0 is None && r.1 == chance_value(agent.color, state@),
        timer is None && alpha < beta ==> window_ok(
            r.1 as int,
            alpha as int,
            beta as int,
            branch_value(agent.color, state@, *action, depth as nat + 1, !max),
        ),
    decreases depth, 1nat,
{
    proof {
        lemma_legal_actions_ok(state@);
        let i = choose|i: int| 0 <= i < legal_actions(state@).len() && legal_actions(state@)[i] == *action;
        assert(action_ok(state@, legal_actions(state@)[i]));
    }
    if *action == Action::NewFromBag {
        return (None, chance_utility(agent, state));
    }
    let new_state = do_unsafe_action_copy(state, action);
    proof {
        lemma_end_turn_spawn_defined(match *action {
            Action::PlaceNew(c) => placed(state@, c),
            Action::Move(d) => moved(state@, d),
            Action::Jump(d) => moved(state@, d),
            Action::JumpSlide(d) => moved(state@, d),
            Action::Slide(d) => moved(state@, d),
            Action::Command(d) => commanded(state@, d),
            Action::Strike(d) => struck(state@, d),
            Action::NewFromBag => state@,
        });
    }
    alpha_beta(agent, &new_state, alpha, beta, depth, timer, max)
}

/// Whether the deadline of `timer`, if any, has passed.
fn out_of_time(timer: Option<&Timer>) -> (r: bool)
    ensures
        timer is None ==> !r,
{
    match timer {
        Some(t) => {
            let spent = elapsed(&t.start);
            at_least(&spent, &t.duration)
        },
        None => false,
    }
}

/// The legal actions and their search order are empty together.
proof fn lemma_ranked_empty(v: StateView)
    ensures
        (ranked(v, legal_actions(v)).len() == 0) == (legal_actions(v).len() == 0),
{
    let l = legal_actions(v);
    let r = ranked(v, l);
    if l.len() > 0 {
        assert(l.contains(l[0]));
        lemma_ranked_contains(v, l, l[0]);
    }
    if r.len() > 0 {
        assert(r.contains(r[0]));
        lemma_ranked_contains(v, l, r[0]);
    }
}

/// Alpha-beta search from `state` to `depth` plies, maximizing for the agent
/// when `max` holds; returns the best action found and its value. Past the
/// deadline, or at depth 0, or when the game is over, the game is evaluated
/// as it stands.
fn alpha_beta(
    agent: &Agent,
    state: &GameState,
    alpha: i32,
    beta: i32,
    depth: u8,
    timer: Option<&Timer>,
    max: bool,
) -> (r: (Option<Action>, i32))
    requires
        shaped(state@),
        spawn_defined(state@),
    ensures
        r.0 matches Some(a) ==> legal_actions(state@).contains(a),
        depth == 0 || state@.game_over is Some ==> r.0 is None && r.1 == utility_value(agent.color, state@),
        r.0 is None ==> r.1 == utility_value(agent.color, state@) || legal_actions(state@).len() == 0,
        timer is None && depth > 0 && state@.game_over is None ==> (r.0 is Some <==> legal_actions(state@).len()
            > 0),
        timer is None && alpha < beta ==> window_ok(
            r.1 as int,
            alpha as int,
            beta as int,
            minimax(agent.color, state@, depth as nat, max),
        ),
        timer is None && alpha == i32::MIN && beta == i32::MAX ==> r.1 == minimax(
            agent.color,
            state@,
            depth as nat,
            max,
        ),
    decreases depth, 0nat,
{
    proof {
        }
    if out_of_time(timer) {
        return (None, utility(agent, state));
    }
    if depth == 0 || state.game_over.is_some() {
        return (None, utility(agent, state));
    }
    let legal = get_actions(state);
    proof {
        lemma_legal_actions_ok(state@);
        assert forall|i: int| 0 <= i < legal.len() implies targets_on_board(#[trigger] legal@[i]) by {
            assert(action_ok(state@, legal@[i]));
        }
    }
    let actions = sort_actions(state, &legal);
    let mut best_action: Option<Action> = None;
    let mut best_utility: i32;
    let mut i: usize = 0;
    proof {
        assert(actions@.take(0) =~= Seq::<Action>::empty());
        assert(actions@.take(actions@.len() as int) =~= actions@);
    }
    if max {
        let mut new_alpha = alpha;
        best_utility = i32::MIN;
        while i < actions.len()
            invariant_except_break
                timer is None && alpha < beta ==> {
                    let f = minimax_fold(agent.color, state@, actions@.take(i as int), depth as nat, true);
                    &&& best_utility < beta
                    &&& best_utility > alpha ==> best_utility == f
                    &&& best_utility <= alpha ==> f <= best_utility
                },
                (i == 0) == (best_action is None),
            invariant
                shaped(state@),
                spawn_defined(state@),
                depth > 0,
                actions@ == ranked(state@, legal_actions(state@)),
                i <= actions.len(),
                best_action matches Some(a) ==> legal_actions(state@).contains(a),
                best_action is None ==> best_utility == i32::MIN,
                new_alpha == (if best_utility > alpha {
                    best_utility
                } else {
                    alpha
                }),
                actions@.take(actions@.len() as int) == actions@,
            ensures
                timer is None && alpha < beta ==> window_ok(
                    best_utility as int,
                    alpha as int,
                    beta as int,
                    minimax_fold(agent.color, state@, actions@, depth as nat, true),
                ),
                (best_action is Some) == (actions.len() > 0),
            decreases actions.len() - i,
        {
            let action = actions[i];
            proof {
                assert(actions@.contains(action));
                lemma_ranked_contains(state@, legal_actions(state@), action);
                assert(actions@.take(i as int + 1).drop_last() =~= actions@.take(i as int));
                assert(actions@.take(i as int + 1).last() == action);
            }
            let (_, utility) = try_branch(agent, state, new_alpha, beta, depth - 1, timer, false, &action);
            proof {
                let prev = minimax_fold(agent.color, state@, actions@.take(i as int), depth as nat, true);
                let c = branch_value(agent.color, state@, action, depth as nat, true);
                assert(minimax_fold(agent.color, state@, actions@.take(i as int + 1), depth as nat, true) == (if c > prev {
                    c
                } else {
                    prev
                }));
            }
            if best_action.is_none() || utility > best_utility {
                best_action = Some(action);
                best_utility = utility;
                if best_utility > new_alpha {
                    new_alpha = best_utility;
                }
            }
            if best_utility >= beta {
                proof {
                    if timer is None && alpha < beta {
                        lemma_fold_prefix(agent.color, state@, actions@, depth as nat, true, i as int + 1);
                        assert(actions@.take(actions@.len() as int) =~= actions@);
                        lemma_fold_bound(agent.color, state@, actions@, depth as nat, true);
                    }
                }
                break;
            }
            i = i + 1;
        }
        proof {
            if timer is None && alpha < beta && i == actions.len() {
                assert(actions@.take(actions@.len() as int) =~= actions@);
            }
                }
    } else {
        let mut new_beta = beta;
        best_utility = i32::MAX;
        while i < actions.len()
            invariant_except_break
                timer is None && alpha < beta ==> {
                    let f = minimax_fold(agent.color, state@, actions@.take(i as int), depth as nat, false);
                    &&& best_utility > alpha
                    &&& best_utility < beta ==> best_utility == f
                    &&& best_utility >= beta ==> f >= best_utility
                },
                (i == 0) == (best_action is None),
            invariant
                shaped(state@),
                spawn_defined(state@),
                depth > 0,
                actions@ == ranked(state@, legal_actions(state@)),
                i <= actions.len(),
                best_action matches Some(a) ==> legal_actions(state@).contains(a),
                best_action is None ==> best_utility == i32::MAX,
                new_beta == (if best_utility < beta {
                    best_utility
                } else {
                    beta
                }),
                actions@.take(actions@.len() as int) == actions@,
            ensures
                timer is None && alpha < beta ==> window_ok(
                    best_utility as int,
                    alpha as int,
                    beta as int,
                    minimax_fold(agent.color, state@, actions@, depth as nat, false),
                ),
                (best_action is Some) == (actions.len() > 0),
            decreases actions.len() - i,
        {
            let action = actions[i];
            proof {
                assert(actions@.contains(action));
                lemma_ranked_contains(state@, legal_actions(state@), action);
                assert(actions@.take(i as int + 1).drop_last() =~= actions@.take(i as int));
                assert(actions@.take(i as int + 1).last() == action);
            }
            let (_, utility) = try_branch(agent, state, alpha, new_beta, depth - 1, timer, true, &action);
            proof {
                let prev = minimax_fold(agent.color, state@, actions@.take(i as int), depth as nat, false);
                let c = branch_value(agent.color, state@, action, depth as nat, false);
                assert(minimax_fold(agent.color, state@, actions@.take(i as int + 1), depth as nat, false) == (if c < prev {
                    c
                } else {
                    prev
                }));
            }
            if best_action.is_none() || utility < best_utility {
                best_action = Some(action);
                best_utility = utility;
                if best_utility < new_beta {
                    new_beta = best_utility;
                }
            }
            if best_utility <= alpha {
                proof {
                    if timer is None && alpha < beta {
                        lemma_fold_prefix(agent.color, state@, actions@, depth as nat, false, i as int + 1);
                        assert(actions@.take(actions@.len() as int) =~= actions@);
                    }
                }
                break;
            }
            i = i + 1;
        }
        proof {
            if timer is None && alpha < beta && i == actions.len() {
                assert(actions@.take(actions@.len() as int) =~= actions@);
            }
        }
    }
    proof {
            lemma_ranked_empty(state@);
        lemma_minimax_bound(agent.color, state@, depth as nat, max);
    }
    (best_action, best_utility)
}

/// The search depth when the agent sets none: as deep as the deadline allows.
pub const UNBOUNDED_DEPTH: u8 = 255;

/// Runs the agent's search from `state`.
fn alpha_beta_search(agent: &Agent, state: &GameState) -> (r: Option<Action>)
    requires
        shaped(state@),
        spawn_defined(state@),
    ensures
        r matches Some(a) ==> legal_actions(state@).contains(a),
        agent.duration is None && agent.depth != Some(0u8) ==> (r is Some <==> legal_actions(state@).len() > 0),
        agent.depth == Some(0u8) || state@.game_over is Some ==> r is None,
{
    let depth = match agent.depth {
        Some(d) => d,
        None => UNBOUNDED_DEPTH,
    };
    match &agent.duration {
        Some(d) => {
            let timer = Timer { start: now(), duration: *d };
            let (action, _) = alpha_beta(agent, state, i32::MIN, i32::MAX, depth, Some(&timer), true);
            action
        },
        None => {
            let (action, _) = alpha_beta(agent, state, i32::MIN, i32::MAX, depth, None, true);
            action
        },
    }
}

/// The action that the agent picks in `state` by alpha-beta search: `None`
/// when the game is over, at depth 0, or when there is nothing to do; else
/// one of the legal actions. Without a deadline an action comes exactly when
/// a legal one exists.
pub fn get_action(agent: &Agent, state: &GameState) -> (r: Option<Action>)
    requires
        shaped(state@),
        spawn_defined(state@),
    ensures
        r matches Some(a) ==> legal_actions(state@).contains(a),
        agent.duration is None && agent.depth != Some(0u8) ==> (r is Some <==> legal_actions(state@).len() > 0),
        agent.depth == Some(0u8) || state@.game_over is Some ==> r is None,
{
    alpha_beta_search(agent, state)
}

} // verus!
