//! What a placement of a piece runs into.

use crate::board::{occupied, Board, HORIZONTAL_TILES, VERTICAL_TILES};
use crate::piece::{lemma_cells_in_square, tiles, widen, Piece};
use vstd::prelude::*;

verus! {

/// What a placement runs into. `Free` means that the placement is legal.
#[derive(Clone, Copy, Debug, PartialEq, Eq, Structural)]
pub enum CollisionType {
    LeftWall,
    RightWall,
    Floor,
    Free,
}

/// What one cell runs into, the rules tried in order: past the bottom edge
/// or on a block is `Floor`, then left of the board, then right of it.
/// Cells above the board (negative `y`) are allowed.
pub open spec fn tile_collision(t: (int, int), b: Seq<Seq<Option<Piece>>>) -> CollisionType {
    if t.1 >= 20 {
        CollisionType::Floor
    } else if occupied(b, t.0, t.1) {
        CollisionType::Floor
    } else if t.0 < 0 {
        CollisionType::LeftWall
    } else if t.0 >= 10 {
        CollisionType::RightWall
    } else {
        CollisionType::Free
    }
}

/// The collision of the first cell, in order, that runs into anything.
pub open spec fn first_collision(ts: Seq<(int, int)>, b: Seq<Seq<Option<Piece>>>) -> CollisionType
    decreases ts.len(),
{
    if ts.len() == 0 {
        CollisionType::Free
    } else if tile_collision(ts[0], b) != CollisionType::Free {
        tile_collision(ts[0], b)
    } else {
        first_collision(ts.drop_first(), b)
    }
}

/// What a piece of kind `p` at angle `a` with its corner at (`x`, `y`) runs into.
pub open spec fn collision_at(p: Piece, a: int, x: int, y: int, b: Seq<Seq<Option<Piece>>>) -> CollisionType {
    first_collision(tiles(p, a, x, y), b)
}

/// A placement is legal exactly when none of its cells runs into anything.
pub proof fn lemma_free_iff(ts: Seq<(int, int)>, b: Seq<Seq<Option<Piece>>>)
    ensures
        first_collision(ts, b) == CollisionType::Free <==> forall|i: int|
            0 <= i < ts.len() ==> #[trigger] tile_collision(ts[i], b) == CollisionType::Free,
    decreases ts.len(),
{
    if ts.len() > 0 {
        let rest = ts.drop_first();
        lemma_free_iff(rest, b);
        if first_collision(ts, b) == CollisionType::Free {
            assert forall|i: int| 0 <= i < ts.len() implies #[trigger] tile_collision(ts[i], b)
                == CollisionType::Free by {
                if i > 0 {
                    assert(ts[i] == rest[i - 1]);
                }
            }
        }
        if forall|i: int|
            0 <= i < ts.len() ==> #[trigger] tile_collision(ts[i], b) == CollisionType::Free {
            assert forall|i: int| 0 <= i < rest.len() implies #[trigger] tile_collision(rest[i], b)
                == CollisionType::Free by {
                assert(rest[i] == ts[i + 1]);
            }
        }
    }
}

/// The result is the collision of some cell, and every cell before that one
/// runs into nothing.
pub proof fn lemma_first_hit(ts: Seq<(int, int)>, b: Seq<Seq<Option<Piece>>>)
    requires
        first_collision(ts, b) != CollisionType::Free,
    ensures
        exists|i: int|
            0 <= i < ts.len() && #[trigger] tile_collision(ts[i], b) == first_collision(ts, b)
                && forall|j: int|
                0 <= j < i ==> #[trigger] tile_collision(ts[j], b) == CollisionType::Free,
    decreases ts.len(),
{
    let rest = ts.drop_first();
    if tile_collision(ts[0], b) == CollisionType::Free {
        lemma_first_hit(rest, b);
        let i = choose|i: int|
            0 <= i < rest.len() && #[trigger] tile_collision(rest[i], b) == first_collision(
                rest,
                b,
            ) && forall|j: int|
                0 <= j < i ==> #[trigger] tile_collision(rest[j], b) == CollisionType::Free;
        assert(ts[i + 1] == rest[i]);
        assert forall|j: int| 0 <= j < i + 1 implies #[trigger] tile_collision(ts[j], b)
            == CollisionType::Free by {
            if j > 0 {
                assert(ts[j] == rest[j - 1]);
            }
        }
    }
}

/// A cell left or right of the board.
pub open spec fn outside_walls(t: (int, int)) -> bool {
    t.0 < 0 || t.0 >= 10
}

/// A cell past the bottom edge or on a block.
pub open spec fn on_floor(t: (int, int), b: Seq<Seq<Option<Piece>>>) -> bool {
    t.1 >= 20 || occupied(b, t.0, t.1)
}

/// A placement with a cell past the bottom edge is classified `Floor`,
/// whatever its columns, unless a cell outside the walls and off the floor
/// comes before it with no cell on the floor ahead of that one (cells are
/// examined in order and the first that runs into anything decides).
pub proof fn lemma_floor_below_bottom(p: Piece, a: int, x: int, y: int, b: Seq<Seq<Option<Piece>>>, i: int)
    requires
        0 <= a < 4,
        0 <= i < 4,
        tiles(p, a, x, y)[i].1 >= 20,
        forall|j: int|
            0 <= j < i && outside_walls(#[trigger] tiles(p, a, x, y)[j]) && !on_floor(
                tiles(p, a, x, y)[j],
                b,
            ) ==> floor_before(tiles(p, a, x, y), b, j),
    ensures
        collision_at(p, a, x, y, b) == CollisionType::Floor,
{
    let ts = tiles(p, a, x, y);
    crate::piece::lemma_tiles_offsets(p, a, x, y);
    assert(tile_collision(ts[i], b) == CollisionType::Floor);
    if first_collision(ts, b) == CollisionType::Free {
        lemma_free_iff(ts, b);
    }
    lemma_first_hit(ts, b);
    let f = choose|f: int|
        0 <= f < ts.len() && #[trigger] tile_collision(ts[f], b) == first_collision(ts, b)
            && forall|j: int| 0 <= j < f ==> #[trigger] tile_collision(ts[j], b) == CollisionType::Free;
    if !on_floor(ts[f], b) {
        assert(f < i) by {
            if f > i {
                assert(tile_collision(ts[i], b) == CollisionType::Free);
            }
        }
        assert(floor_before(ts, b, f));
        let m = choose|m: int| 0 <= m < f && on_floor(#[trigger] ts[m], b);
        assert(tile_collision(ts[m], b) == CollisionType::Free);
    }
}

/// Some cell of `ts` before index `j` lies past the bottom edge or on a block.
pub open spec fn floor_before(ts: Seq<(int, int)>, b: Seq<Seq<Option<Piece>>>, j: int) -> bool {
    exists|m: int| 0 <= m < j && on_floor(#[trigger] ts[m], b)
}

/// A wall result over a list of cells, with no cell on the floor after the
/// deciding one.
proof fn lemma_wall_first(ts: Seq<(int, int)>, b: Seq<Seq<Option<Piece>>>)
    requires
        forall|j: int, k: int|
            #![trigger ts[j], ts[k]]
            0 <= j < k < ts.len() && outside_walls(ts[j]) && !on_floor(ts[j], b) && on_floor(ts[k], b)
                ==> floor_before(ts, b, j),
        first_collision(ts, b) == CollisionType::LeftWall || first_collision(ts, b)
            == CollisionType::RightWall,
    ensures
        forall|k: int| 0 <= k < ts.len() ==> !on_floor(#[trigger] ts[k], b),
{
    lemma_first_hit(ts, b);
    let i = choose|i: int|
        0 <= i < ts.len() && #[trigger] tile_collision(ts[i], b) == first_collision(ts, b)
            && forall|j: int| 0 <= j < i ==> #[trigger] tile_collision(ts[j], b) == CollisionType::Free;
    assert(outside_walls(ts[i]) && !on_floor(ts[i], b));
    assert forall|k: int| 0 <= k < ts.len() implies !on_floor(#[trigger] ts[k], b) by {
        if k < i {
            assert(tile_collision(ts[k], b) == CollisionType::Free);
        } else if k > i && on_floor(ts[k], b) {
            assert(floor_before(ts, b, i));
            let m = choose|m: int| 0 <= m < i && on_floor(#[trigger] ts[m], b);
            assert(tile_collision(ts[m], b) == CollisionType::Free);
        }
    }
}

/// A placement classified `LeftWall` or `RightWall` has no cell past the
/// bottom edge or on a block, unless such a cell comes after a cell outside
/// the walls and off the floor that has no cell on the floor ahead of it.
pub proof fn lemma_wall_without_floor(p: Piece, a: int, x: int, y: int, b: Seq<Seq<Option<Piece>>>)
    requires
        0 <= a < 4,
        forall|j: int, k: int|
            #![trigger tiles(p, a, x, y)[j], tiles(p, a, x, y)[k]]
            0 <= j < k < 4 && outside_walls(tiles(p, a, x, y)[j]) && !on_floor(tiles(p, a, x, y)[j], b)
                && on_floor(tiles(p, a, x, y)[k], b) ==> floor_before(tiles(p, a, x, y), b, j),
    ensures
        collision_at(p, a, x, y, b) == CollisionType::LeftWall || collision_at(p, a, x, y, b)
            == CollisionType::RightWall ==> forall|k: int|
            0 <= k < 4 ==> !on_floor(#[trigger] tiles(p, a, x, y)[k], b),
{
    let ts = tiles(p, a, x, y);
    crate::piece::lemma_tiles_offsets(p, a, x, y);
    let c = collision_at(p, a, x, y, b);
    if c == CollisionType::LeftWall || c == CollisionType::RightWall {
        lemma_wall_first(ts, b);
    }
}

/// What the piece `piece` at angle `angle` (read modulo four) with its
/// square's corner at (`x`, `y`) runs into on `board`.
pub fn collision(piece: Piece, angle: u8, x: i32, y: i32, board: &Board) -> (r: CollisionType)
    requires
        x <= i32::MAX - 3,
        y <= i32::MAX - 3,
    ensures
        r == collision_at(piece, (angle % 4) as int, x as int, y as int, board@),
{
    let new_coords = piece.get_tiles(angle, x, y);
    let ghost ts = tiles(piece, (angle % 4) as int, x as int, y as int);
    proof {
        lemma_cells_in_square(piece);
        assert(new_coords@.len() == 4) by {
            assert(widen(new_coords@).len() == new_coords@.len());
        }
        assert(ts.subrange(0, 4) =~= ts);
    }
    let mut i: usize = 0;
    while i < new_coords.len()
        invariant
            ts == tiles(piece, (angle % 4) as int, x as int, y as int),
            widen(new_coords@) == ts,
            new_coords@.len() == 4,
            i <= 4,
            first_collision(ts, board@) == first_collision(ts.subrange(i as int, 4), board@),
        decreases 4 - i,
    {
        let (new_x, new_y) = new_coords[i];
        let ghost seg = ts.subrange(i as int, 4);
        proof {
            assert(widen(new_coords@)[i as int] == (new_x as int, new_y as int));
            assert(seg[0] == (new_x as int, new_y as int));
            assert(seg.drop_first() =~= ts.subrange(i + 1, 4));
            assert(seg.len() > 0);
            assert(tile_collision(seg[0], board@) != CollisionType::Free ==> first_collision(
                seg,
                board@,
            ) == tile_collision(seg[0], board@));
        }
        if new_y >= VERTICAL_TILES as i32 {
            return CollisionType::Floor;
        }
        if board.is_occupied(new_x, new_y) {
            return CollisionType::Floor;
        }
        if new_x < 0 {
            return CollisionType::LeftWall;
        }
        if new_x >= HORIZONTAL_TILES as i32 {
            return CollisionType::RightWall;
        }
        i = i + 1;
    }
    CollisionType::Free
}

} // verus!
