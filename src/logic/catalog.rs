//! The tile catalog: what each side of each tile type can do.

use vstd::prelude::*;
use crate::logic::{
    inverted, ActionType, AvailableAction, AvailableActions, AvailableEffect, AvailableEffects,
    Offset, Tile, TileColor, TileType, invert_offset,
};

verus! {

/// The vocabulary entry `kind` at offset `(x, y)`.
pub open spec fn avail(kind: ActionType, x: int, y: int) -> AvailableAction {
    AvailableAction { kind, offset: Offset { x: x as i8, y: y as i8 } }
}

/// The action vocabulary of one side of a tile type, as seen by Black
/// (`flipped` selects the back side).
pub open spec fn black_vocab(kind: TileType, flipped: bool) -> Seq<AvailableAction> {
    match kind {
        TileType::Duke => if !flipped {
            seq![avail(ActionType::Slide, 1, 0), avail(ActionType::Slide, -1, 0)]
        } else {
            seq![avail(ActionType::Slide, 0, 1), avail(ActionType::Slide, 0, -1)]
        },
        TileType::Footman => if !flipped {
            seq![avail(ActionType::Move, 0, 1), avail(ActionType::Move, 1, 0), avail(ActionType::Move, 0, -1), avail(ActionType::Move, -1, 0)]
        } else {
            seq![avail(ActionType::Move, 0, 2), avail(ActionType::Move, 1, 1), avail(ActionType::Move, 1, -1), avail(ActionType::Move, -1, -1), avail(ActionType::Move, -1, 1)]
        },
        TileType::Pikeman => if !flipped {
            seq![avail(ActionType::Move, 1, 1), avail(ActionType::Move, 2, 2), avail(ActionType::Move, -1, 1), avail(ActionType::Move, -2, 2)]
        } else {
            seq![avail(ActionType::Move, 0, 1), avail(ActionType::Strike, 1, 2), avail(ActionType::Move, 0, -1), avail(ActionType::Move, 0, -2), avail(ActionType::Strike, -1, 2)]
        },
        TileType::Knight => if !flipped {
            seq![avail(ActionType::Jump, 1, 2), avail(ActionType::Move, 1, 0), avail(ActionType::Move, 0, -1), avail(ActionType::Move, 0, -2), avail(ActionType::Move, -1, 0), avail(ActionType::Jump, -1, 2)]
        } else {
            seq![avail(ActionType::Slide, 0, 1), avail(ActionType::Move, 1, -1), avail(ActionType::Move, 2, -2), avail(ActionType::Move, -1, -1), avail(ActionType::Move, -2, -2)]
        },
        TileType::Bowman => if !flipped {
            seq![avail(ActionType::Move, 0, 1), avail(ActionType::Move, 1, 0), avail(ActionType::Jump, 2, 0), avail(ActionType::Jump, 0, -2), avail(ActionType::Move, -1, 0), avail(ActionType::Jump, -2, 0)]
        } else {
            seq![avail(ActionType::Move, 0, 1), avail(ActionType::Strike, 0, 2), avail(ActionType::Strike, 1, 1), avail(ActionType::Move, 1, -1), avail(ActionType::Move, -1, -1), avail(ActionType::Strike, -1, 1)]
        },
        TileType::LightHorse => if !flipped {
            seq![avail(ActionType::Slide, 0, 1), avail(ActionType::Move, 1, -1), avail(ActionType::Move, -1, -1)]
        } else {
            seq![avail(ActionType::Strike, 1, 2), avail(ActionType::Jump, 2, 1), avail(ActionType::Jump, -2, 1), avail(ActionType::Strike, -1, 2)]
        },
        TileType::Wizard => if !flipped {
            seq![avail(ActionType::Move, 0, 1), avail(ActionType::Move, 1, 1), avail(ActionType::Move, 1, 0), avail(ActionType::Move, 1, -1), avail(ActionType::Move, 0, -1), avail(ActionType::Move, -1, -1), avail(ActionType::Move, -1, 0), avail(ActionType::Move, -1, 1)]
        } else {
            seq![avail(ActionType::Jump, 0, 2), avail(ActionType::Jump, 2, 2), avail(ActionType::Jump, 2, 0), avail(ActionType::Jump, 2, -2), avail(ActionType::Jump, 0, -2), avail(ActionType::Jump, -2, -2), avail(ActionType::Jump, -2, 0), avail(ActionType::Jump, -2, 2)]
        },
        TileType::Seer => if !flipped {
            seq![avail(ActionType::Jump, 0, 2), avail(ActionType::Move, 1, 1), avail(ActionType::Jump, 2, 0), avail(ActionType::Move, 1, -1), avail(ActionType::Jump, 0, -2), avail(ActionType::Move, -1, -1), avail(ActionType::Jump, -2, 0), avail(ActionType::Move, -1, 1)]
        } else {
            seq![avail(ActionType::Move, 0, 1), avail(ActionType::Jump, 2, 2), avail(ActionType::Move, 1, 0), avail(ActionType::Jump, 2, -2), avail(ActionType::Move, 0, -1), avail(ActionType::Jump, -2, -2), avail(ActionType::Move, -1, 0), avail(ActionType::Jump, -2, 2)]
        },
        TileType::Champion => if !flipped {
            seq![avail(ActionType::Move, 0, 1), avail(ActionType::Jump, 0, 2), avail(ActionType::Move, 1, 0), avail(ActionType::Jump, 2, 0), avail(ActionType::Move, 0, -1), avail(ActionType::Jump, 0, -2), avail(ActionType::Move, -1, 0), avail(ActionType::Jump, -2, 0)]
        } else {
            seq![avail(ActionType::Strike, 0, 1), avail(ActionType::Jump, 0, 2), avail(ActionType::Strike, 1, 0), avail(ActionType::Jump, 2, 0), avail(ActionType::Strike, 0, -1), avail(ActionType::Jump, 0, -2), avail(ActionType::Strike, -1, 0), avail(ActionType::Jump, -2, 0)]
        },
        TileType::Arbalist => if !flipped {
            seq![avail(ActionType::Move, 0, 2), avail(ActionType::Move, 1, 0), avail(ActionType::Move, 1, -1), avail(ActionType::Move, -1, -1), avail(ActionType::Move, -1, 0)]
        } else {
            seq![avail(ActionType::Strike, 0, 1), avail(ActionType::Strike, 0, 2), avail(ActionType::Jump, 1, -2), avail(ActionType::Move, 0, -1), avail(ActionType::Jump, -1, -2)]
        },
        TileType::General => if !flipped {
            seq![avail(ActionType::Move, 0, 1), avail(ActionType::Jump, 1, 2), avail(ActionType::Move, 2, 0), avail(ActionType::Move, 0, -1), avail(ActionType::Move, -2, 0), avail(ActionType::Jump, -1, 2)]
        } else {
            seq![avail(ActionType::Move, 0, 1), avail(ActionType::Jump, 1, 2), avail(ActionType::Move, 1, 0), avail(ActionType::Move, 2, 0), avail(ActionType::Move, -1, 0), avail(ActionType::Move, -2, 0), avail(ActionType::Jump, -1, 2), avail(ActionType::Command, 1, 0), avail(ActionType::Command, 1, -1), avail(ActionType::Command, 0, -1), avail(ActionType::Command, -1, -1), avail(ActionType::Command, -1, 0)]
        },
        TileType::Marshall => if !flipped {
            seq![avail(ActionType::Jump, 2, 2), avail(ActionType::Slide, 1, 0), avail(ActionType::Jump, 0, -2), avail(ActionType::Slide, -1, 0), avail(ActionType::Jump, -2, 2)]
        } else {
            seq![avail(ActionType::Move, 0, 1), avail(ActionType::Move, 1, 1), avail(ActionType::Move, 1, 0), avail(ActionType::Move, 2, 0), avail(ActionType::Move, 1, -1), avail(ActionType::Move, -1, -1), avail(ActionType::Move, -1, 0), avail(ActionType::Move, -2, 0), avail(ActionType::Move, -1, 1), avail(ActionType::Command, 0, 1), avail(ActionType::Command, 1, 1), avail(ActionType::Command, -1, 1)]
        },
        TileType::Countess => if !flipped {
            seq![avail(ActionType::Move, 0, 1), avail(ActionType::Move, 2, 0), avail(ActionType::Move, 0, -1), avail(ActionType::Move, -2, 0), avail(ActionType::Command, 2, 0), avail(ActionType::Command, -1, 0)]
        } else {
            seq![avail(ActionType::Move, 0, 1), avail(ActionType::Move, 1, 0), avail(ActionType::Move, 0, -2), avail(ActionType::Move, -1, 0), avail(ActionType::Command, 1, 0), avail(ActionType::Command, -2, 0)]
        },
        TileType::Ranger => if !flipped {
            seq![avail(ActionType::Slide, 0, 1), avail(ActionType::Jump, 1, 2), avail(ActionType::Jump, 2, 1), avail(ActionType::Jump, -2, 1)]
        } else {
            seq![avail(ActionType::Slide, 1, 1), avail(ActionType::Jump, 1, -2), avail(ActionType::Jump, -1, -2), avail(ActionType::Slide, -1, 1)]
        },
        TileType::Sage => if !flipped {
            seq![avail(ActionType::Move, 0, 1), avail(ActionType::Move, 1, -1), avail(ActionType::Move, -1, -1)]
        } else {
            seq![avail(ActionType::Move, 0, 2), avail(ActionType::Move, 2, 0), avail(ActionType::Move, 0, -1), avail(ActionType::Move, -2, 0)]
        },
        TileType::RoyalAssassin => if !flipped {
            seq![avail(ActionType::Move, 0, -1)]
        } else {
            seq![avail(ActionType::Slide, 0, 1), avail(ActionType::Slide, 1, 0), avail(ActionType::Slide, 0, -1), avail(ActionType::Slide, -1, 0)]
        },
    }
}

/// The effect vocabulary of one side of a tile type, as seen by Black. No tile
/// type of the current set projects an effect.
pub open spec fn black_effect_vocab(kind: TileType, flipped: bool) -> Seq<AvailableEffect> {
    Seq::empty()
}

/// The entry with its offset pointing the other way.
pub open spec fn inverted_action(a: AvailableAction) -> AvailableAction {
    AvailableAction { kind: a.kind, offset: inverted(a.offset) }
}

/// The effect entry with its offset pointing the other way.
pub open spec fn inverted_effect(a: AvailableEffect) -> AvailableEffect {
    AvailableEffect { kind: a.kind, offset: inverted(a.offset) }
}

/// The action vocabulary of one side as seen by `color`: White uses every
/// offset negated.
pub open spec fn oriented_vocab(kind: TileType, flipped: bool, color: TileColor) -> Seq<AvailableAction> {
    if color == TileColor::Black {
        black_vocab(kind, flipped)
    } else {
        black_vocab(kind, flipped).map_values(|a: AvailableAction| inverted_action(a))
    }
}

/// The effect vocabulary of one side as seen by `color`.
pub open spec fn oriented_effect_vocab(kind: TileType, flipped: bool, color: TileColor) -> Seq<AvailableEffect> {
    if color == TileColor::Black {
        black_effect_vocab(kind, flipped)
    } else {
        black_effect_vocab(kind, flipped).map_values(|a: AvailableEffect| inverted_effect(a))
    }
}

/// The actions of the side of `t` that is up.
pub open spec fn vocab(t: Tile) -> Seq<AvailableAction> {
    oriented_vocab(t.kind, t.flipped, t.color)
}

/// The effects of the side of `t` that is up.
pub open spec fn effect_vocab(t: Tile) -> Seq<AvailableEffect> {
    oriented_effect_vocab(t.kind, t.flipped, t.color)
}

/// Every offset of the catalog lies within two squares in each direction.
pub open spec fn small_offsets(v: Seq<AvailableAction>) -> bool {
    forall|i: int| 0 <= i < v.len() ==> -2 <= #[trigger] v[i].offset.x <= 2 && -2 <= v[i].offset.y <= 2
}

/// Every `Move` entry goes in a straight line and every `Slide` entry starts
/// on a neighbouring square.
pub open spec fn straight_moves(v: Seq<AvailableAction>) -> bool {
    forall|i: int|
        0 <= i < v.len() ==> (#[trigger] v[i].kind == ActionType::Move ==> (v[i].offset.x == 0 || v[i].offset.y == 0
            || v[i].offset.x == v[i].offset.y || v[i].offset.x == -v[i].offset.y)) && (v[i].kind == ActionType::Slide
            ==> -1 <= v[i].offset.x <= 1 && -1 <= v[i].offset.y <= 1)
}

/// No offset of the catalog is zero: no tile acts on its own square.
pub open spec fn nonzero_offsets(v: Seq<AvailableAction>) -> bool {
    forall|i: int| 0 <= i < v.len() ==> (#[trigger] v[i].offset.x != 0 || v[i].offset.y != 0)
}

fn mk(kind: ActionType, x: i8, y: i8) -> (r: AvailableAction)
    ensures
        r == avail(kind, x as int, y as int),
{
    AvailableAction { kind, offset: Offset { x, y } }
}

/// One side of a tile type's action vocabulary, as seen by Black.
fn black_side_actions(kind: TileType, flipped: bool) -> (r: Vec<AvailableAction>)
    ensures
        r@ == black_vocab(kind, flipped),
{
    let v = match kind {
        TileType::Duke => if !flipped {
            vec![mk(ActionType::Slide, 1, 0), mk(ActionType::Slide, -1, 0)]
        } else {
            vec![mk(ActionType::Slide, 0, 1), mk(ActionType::Slide, 0, -1)]
        },
        TileType::Footman => if !flipped {
            vec![mk(ActionType::Move, 0, 1), mk(ActionType::Move, 1, 0), mk(ActionType::Move, 0, -1), mk(ActionType::Move, -1, 0)]
        } else {
            vec![mk(ActionType::Move, 0, 2), mk(ActionType::Move, 1, 1), mk(ActionType::Move, 1, -1), mk(ActionType::Move, -1, -1), mk(ActionType::Move, -1, 1)]
        },
        TileType::Pikeman => if !flipped {
            vec![mk(ActionType::Move, 1, 1), mk(ActionType::Move, 2, 2), mk(ActionType::Move, -1, 1), mk(ActionType::Move, -2, 2)]
        } else {
            vec![mk(ActionType::Move, 0, 1), mk(ActionType::Strike, 1, 2), mk(ActionType::Move, 0, -1), mk(ActionType::Move, 0, -2), mk(ActionType::Strike, -1, 2)]
        },
        TileType::Knight => if !flipped {
            vec![mk(ActionType::Jump, 1, 2), mk(ActionType::Move, 1, 0), mk(ActionType::Move, 0, -1), mk(ActionType::Move, 0, -2), mk(ActionType::Move, -1, 0), mk(ActionType::Jump, -1, 2)]
        } else {
            vec![mk(ActionType::Slide, 0, 1), mk(ActionType::Move, 1, -1), mk(ActionType::Move, 2, -2), mk(ActionType::Move, -1, -1), mk(ActionType::Move, -2, -2)]
        },
        TileType::Bowman => if !flipped {
            vec![mk(ActionType::Move, 0, 1), mk(ActionType::Move, 1, 0), mk(ActionType::Jump, 2, 0), mk(ActionType::Jump, 0, -2), mk(ActionType::Move, -1, 0), mk(ActionType::Jump, -2, 0)]
        } else {
            vec![mk(ActionType::Move, 0, 1), mk(ActionType::Strike, 0, 2), mk(ActionType::Strike, 1, 1), mk(ActionType::Move, 1, -1), mk(ActionType::Move, -1, -1), mk(ActionType::Strike, -1, 1)]
        },
        TileType::LightHorse => if !flipped {
            vec![mk(ActionType::Slide, 0, 1), mk(ActionType::Move, 1, -1), mk(ActionType::Move, -1, -1)]
        } else {
            vec![mk(ActionType::Strike, 1, 2), mk(ActionType::Jump, 2, 1), mk(ActionType::Jump, -2, 1), mk(ActionType::Strike, -1, 2)]
        },
        TileType::Wizard => if !flipped {
            vec![mk(ActionType::Move, 0, 1), mk(ActionType::Move, 1, 1), mk(ActionType::Move, 1, 0), mk(ActionType::Move, 1, -1), mk(ActionType::Move, 0, -1), mk(ActionType::Move, -1, -1), mk(ActionType::Move, -1, 0), mk(ActionType::Move, -1, 1)]
        } else {
            vec![mk(ActionType::Jump, 0, 2), mk(ActionType::Jump, 2, 2), mk(ActionType::Jump, 2, 0), mk(ActionType::Jump, 2, -2), mk(ActionType::Jump, 0, -2), mk(ActionType::Jump, -2, -2), mk(ActionType::Jump, -2, 0), mk(ActionType::Jump, -2, 2)]
        },
        TileType::Seer => if !flipped {
            vec![mk(ActionType::Jump, 0, 2), mk(ActionType::Move, 1, 1), mk(ActionType::Jump, 2, 0), mk(ActionType::Move, 1, -1), mk(ActionType::Jump, 0, -2), mk(ActionType::Move, -1, -1), mk(ActionType::Jump, -2, 0), mk(ActionType::Move, -1, 1)]
        } else {
            vec![mk(ActionType::Move, 0, 1), mk(ActionType::Jump, 2, 2), mk(ActionType::Move, 1, 0), mk(ActionType::Jump, 2, -2), mk(ActionType::Move, 0, -1), mk(ActionType::Jump, -2, -2), mk(ActionType::Move, -1, 0), mk(ActionType::Jump, -2, 2)]
        },
        TileType::Champion => if !flipped {
            vec![mk(ActionType::Move, 0, 1), mk(ActionType::Jump, 0, 2), mk(ActionType::Move, 1, 0), mk(ActionType::Jump, 2, 0), mk(ActionType::Move, 0, -1), mk(ActionType::Jump, 0, -2), mk(ActionType::Move, -1, 0), mk(ActionType::Jump, -2, 0)]
        } else {
            vec![mk(ActionType::Strike, 0, 1), mk(ActionType::Jump, 0, 2), mk(ActionType::Strike, 1, 0), mk(ActionType::Jump, 2, 0), mk(ActionType::Strike, 0, -1), mk(ActionType::Jump, 0, -2), mk(ActionType::Strike, -1, 0), mk(ActionType::Jump, -2, 0)]
        },
        TileType::Arbalist => if !flipped {
            vec![mk(ActionType::Move, 0, 2), mk(ActionType::Move, 1, 0), mk(ActionType::Move, 1, -1), mk(ActionType::Move, -1, -1), mk(ActionType::Move, -1, 0)]
        } else {
            vec![mk(ActionType::Strike, 0, 1), mk(ActionType::Strike, 0, 2), mk(ActionType::Jump, 1, -2), mk(ActionType::Move, 0, -1), mk(ActionType::Jump, -1, -2)]
        },
        TileType::General => if !flipped {
            vec![mk(ActionType::Move, 0, 1), mk(ActionType::Jump, 1, 2), mk(ActionType::Move, 2, 0), mk(ActionType::Move, 0, -1), mk(ActionType::Move, -2, 0), mk(ActionType::Jump, -1, 2)]
        } else {
            vec![mk(ActionType::Move, 0, 1), mk(ActionType::Jump, 1, 2), mk(ActionType::Move, 1, 0), mk(ActionType::Move, 2, 0), mk(ActionType::Move, -1, 0), mk(ActionType::Move, -2, 0), mk(ActionType::Jump, -1, 2), mk(ActionType::Command, 1, 0), mk(ActionType::Command, 1, -1), mk(ActionType::Command, 0, -1), mk(ActionType::Command, -1, -1), mk(ActionType::Command, -1, 0)]
        },
        TileType::Marshall => if !flipped {
            vec![mk(ActionType::Jump, 2, 2), mk(ActionType::Slide, 1, 0), mk(ActionType::Jump, 0, -2), mk(ActionType::Slide, -1, 0), mk(ActionType::Jump, -2, 2)]
        } else {
            vec![mk(ActionType::Move, 0, 1), mk(ActionType::Move, 1, 1), mk(ActionType::Move, 1, 0), mk(ActionType::Move, 2, 0), mk(ActionType::Move, 1, -1), mk(ActionType::Move, -1, -1), mk(ActionType::Move, -1, 0), mk(ActionType::Move, -2, 0), mk(ActionType::Move, -1, 1), mk(ActionType::Command, 0, 1), mk(ActionType::Command, 1, 1), mk(ActionType::Command, -1, 1)]
        },
        TileType::Countess => if !flipped {
            vec![mk(ActionType::Move, 0, 1), mk(ActionType::Move, 2, 0), mk(ActionType::Move, 0, -1), mk(ActionType::Move, -2, 0), mk(ActionType::Command, 2, 0), mk(ActionType::Command, -1, 0)]
        } else {
            vec![mk(ActionType::Move, 0, 1), mk(ActionType::Move, 1, 0), mk(ActionType::Move, 0, -2), mk(ActionType::Move, -1, 0), mk(ActionType::Command, 1, 0), mk(ActionType::Command, -2, 0)]
        },
        TileType::Ranger => if !flipped {
            vec![mk(ActionType::Slide, 0, 1), mk(ActionType::Jump, 1, 2), mk(ActionType::Jump, 2, 1), mk(ActionType::Jump, -2, 1)]
        } else {
            vec![mk(ActionType::Slide, 1, 1), mk(ActionType::Jump, 1, -2), mk(ActionType::Jump, -1, -2), mk(ActionType::Slide, -1, 1)]
        },
        TileType::Sage => if !flipped {
            vec![mk(ActionType::Move, 0, 1), mk(ActionType::Move, 1, -1), mk(ActionType::Move, -1, -1)]
        } else {
            vec![mk(ActionType::Move, 0, 2), mk(ActionType::Move, 2, 0), mk(ActionType::Move, 0, -1), mk(ActionType::Move, -2, 0)]
        },
        TileType::RoyalAssassin => if !flipped {
            vec![mk(ActionType::Move, 0, -1)]
        } else {
            vec![mk(ActionType::Slide, 0, 1), mk(ActionType::Slide, 1, 0), mk(ActionType::Slide, 0, -1), mk(ActionType::Slide, -1, 0)]
        },
    };
    proof {
        assert(v@ =~= black_vocab(kind, flipped));
    }
    v
}

/// One side of a tile type's effect vocabulary, as seen by Black.
fn black_side_effects(kind: TileType, flipped: bool) -> (r: Vec<AvailableEffect>)
    ensures
        r@ == black_effect_vocab(kind, flipped),
{
    Vec::new()
}

/// Every entry of `v` with its offset negated.
fn invert_actions(v: &Vec<AvailableAction>) -> (r: Vec<AvailableAction>)
    requires
        small_offsets(v@),
    ensures
        r@ == v@.map_values(|a: AvailableAction| inverted_action(a)),
{
    let mut r: Vec<AvailableAction> = Vec::new();
    let mut i: usize = 0;
    while i < v.len()
        invariant
            i <= v.len(),
            small_offsets(v@),
            r@ =~= v@.take(i as int).map_values(|a: AvailableAction| inverted_action(a)),
        decreases v.len() - i,
    {
        let a = v[i];
        r.push(AvailableAction { kind: a.kind, offset: invert_offset(&a.offset) });
        proof {
            assert(v@.take(i as int + 1) =~= v@.take(i as int).push(a));
        }
        i = i + 1;
    }
    proof {
        assert(v@.take(v.len() as int) =~= v@);
    }
    r
}

/// Every effect entry of `v` with its offset negated.
fn invert_effects(v: &Vec<AvailableEffect>) -> (r: Vec<AvailableEffect>)
    requires
        forall|i: int| 0 <= i < v.len() ==> -2 <= #[trigger] v@[i].offset.x <= 2 && -2 <= v@[i].offset.y <= 2,
    ensures
        r@ == v@.map_values(|a: AvailableEffect| inverted_effect(a)),
{
    let mut r: Vec<AvailableEffect> = Vec::new();
    let mut i: usize = 0;
    while i < v.len()
        invariant
            i <= v.len(),
            forall|i: int| 0 <= i < v.len() ==> -2 <= #[trigger] v@[i].offset.x <= 2 && -2 <= v@[i].offset.y <= 2,
            r@ =~= v@.take(i as int).map_values(|a: AvailableEffect| inverted_effect(a)),
        decreases v.len() - i,
    {
        let a = v[i];
        r.push(AvailableEffect { kind: a.kind, offset: invert_offset(&a.offset) });
        proof {
            assert(v@.take(i as int + 1) =~= v@.take(i as int).push(a));
        }
        i = i + 1;
    }
    proof {
        assert(v@.take(v.len() as int) =~= v@);
    }
    r
}

/// Every offset of the catalog is small, none is zero, and a side has at
/// most twelve entries.
pub proof fn lemma_catalog_small(kind: TileType, flipped: bool)
    ensures
        small_offsets(black_vocab(kind, flipped)),
        nonzero_offsets(black_vocab(kind, flipped)),
        straight_moves(black_vocab(kind, flipped)),
        black_vocab(kind, flipped).len() <= 12,
{
}

/// The same holds of a vocabulary as a colour sees it.
pub proof fn lemma_vocab_small(t: Tile)
    ensures
        small_offsets(vocab(t)),
        nonzero_offsets(vocab(t)),
        straight_moves(vocab(t)),
        vocab(t).len() <= 12,
{
    lemma_catalog_small(t.kind, t.flipped);
}

/// One side of a tile type's action vocabulary, as seen by `color`.
pub fn side_actions(kind: TileType, flipped: bool, color: TileColor) -> (r: Vec<AvailableAction>)
    ensures
        r@ == oriented_vocab(kind, flipped, color),
{
    let v = black_side_actions(kind, flipped);
    match color {
        TileColor::Black => v,
        TileColor::White => {
            proof {
                lemma_catalog_small(kind, flipped);
            }
            invert_actions(&v)
        },
    }
}

/// One side of a tile type's effect vocabulary, as seen by `color`.
pub fn side_effects(kind: TileType, flipped: bool, color: TileColor) -> (r: Vec<AvailableEffect>)
    ensures
        r@ == oriented_effect_vocab(kind, flipped, color),
{
    let v = black_side_effects(kind, flipped);
    match color {
        TileColor::Black => v,
        TileColor::White => invert_effects(&v),
    }
}

/// The actions of a tile type, front and back, as seen by Black.
pub fn tile_actions(kind: TileType) -> (r: AvailableActions)
    ensures
        r.front@ == black_vocab(kind, false),
        r.back@ == black_vocab(kind, true),
{
    AvailableActions { front: black_side_actions(kind, false), back: black_side_actions(kind, true) }
}

/// The effects of a tile type, front and back, as seen by Black.
pub fn tile_effects(kind: TileType) -> (r: AvailableEffects)
    ensures
        r.front@ == black_effect_vocab(kind, false),
        r.back@ == black_effect_vocab(kind, true),
{
    AvailableEffects { front: black_side_effects(kind, false), back: black_side_effects(kind, true) }
}

impl Tile {
    /// The actions of both sides of this tile, oriented for its colour.
    pub fn actions(&self) -> (r: AvailableActions)
        ensures
            r.front@ == oriented_vocab(self.kind, false, self.color),
            r.back@ == oriented_vocab(self.kind, true, self.color),
    {
        AvailableActions {
            front: side_actions(self.kind, false, self.color),
            back: side_actions(self.kind, true, self.color),
        }
    }

    /// The effects of both sides of this tile, oriented for its colour.
    pub fn effects(&self) -> (r: AvailableEffects)
        ensures
            r.front@ == oriented_effect_vocab(self.kind, false, self.color),
            r.back@ == oriented_effect_vocab(self.kind, true, self.color),
    {
        AvailableEffects {
            front: side_effects(self.kind, false, self.color),
            back: side_effects(self.kind, true, self.color),
        }
    }
}

} // verus!
