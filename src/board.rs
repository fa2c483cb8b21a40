//! The board of settled blocks and the removal of full rows.

use crate::piece::Piece;
use vstd::prelude::*;

verus! {

/// Width of the playfield, in cells.
pub const HORIZONTAL_TILES: u32 = 10;

/// Height of the playfield, in cells.
pub const VERTICAL_TILES: u32 = 20;

/// The settled blocks: twenty rows of ten cells, row 0 at the top. A cell
/// holds the kind of the piece that left a block there, or nothing.
#[derive(Clone, Copy, Debug)]
pub struct Board {
    pub cells: [[Option<Piece>; 10]; 20],
}

impl View for Board {
    type V = Seq<Seq<Option<Piece>>>;

    /// The rows, top first, each a sequence of its cells from the left.
    open spec fn view(&self) -> Seq<Seq<Option<Piece>>> {
        self.cells@.map_values(|row: [Option<Piece>; 10]| row@)
    }
}

/// A row with no block.
pub open spec fn empty_row() -> Seq<Option<Piece>> {
    Seq::new(10, |x: int| None)
}

/// A board with no block.
pub open spec fn empty_board() -> Seq<Seq<Option<Piece>>> {
    Seq::new(20, |y: int| empty_row())
}

/// Cell (`x`, `y`) lies on the board and holds a block.
pub open spec fn occupied(b: Seq<Seq<Option<Piece>>>, x: int, y: int) -> bool {
    0 <= y < b.len() && 0 <= x < b[y].len() && b[y][x] is Some
}

/// Every cell of the row holds a block.
pub open spec fn row_full(row: Seq<Option<Piece>>) -> bool {
    forall|x: int| 0 <= x < row.len() ==> #[trigger] row[x] is Some
}

/// How many of the rows are full.
pub open spec fn full_count(rows: Seq<Seq<Option<Piece>>>) -> nat
    decreases rows.len(),
{
    if rows.len() == 0 {
        0
    } else {
        (if row_full(rows[0]) {
            1nat
        } else {
            0nat
        }) + full_count(rows.drop_first())
    }
}

/// The rows that are not full, in their order.
pub open spec fn kept_rows(rows: Seq<Seq<Option<Piece>>>) -> Seq<Seq<Option<Piece>>>
    decreases rows.len(),
{
    if rows.len() == 0 {
        Seq::empty()
    } else if row_full(rows[0]) {
        kept_rows(rows.drop_first())
    } else {
        seq![rows[0]] + kept_rows(rows.drop_first())
    }
}

/// The board after its full rows are taken out: the other rows keep their
/// order and rest on the bottom, and an empty row enters at the top for
/// each row taken out.
pub open spec fn compacted(rows: Seq<Seq<Option<Piece>>>) -> Seq<Seq<Option<Piece>>> {
    Seq::new(full_count(rows), |i: int| empty_row()) + kept_rows(rows)
}

/// Full rows and kept rows together account for every row.
pub proof fn lemma_kept_len(rows: Seq<Seq<Option<Piece>>>)
    ensures
        kept_rows(rows).len() + full_count(rows) == rows.len(),
    decreases rows.len(),
{
    if rows.len() > 0 {
        lemma_kept_len(rows.drop_first());
    }
}

/// Counting full rows and keeping the others both split over a concatenation.
pub proof fn lemma_split(a: Seq<Seq<Option<Piece>>>, b: Seq<Seq<Option<Piece>>>)
    ensures
        full_count(a + b) == full_count(a) + full_count(b),
        kept_rows(a + b) == kept_rows(a) + kept_rows(b),
    decreases a.len(),
{
    if a.len() == 0 {
        assert(a + b =~= b);
        assert(kept_rows(a) + kept_rows(b) =~= kept_rows(b));
    } else {
        assert((a + b).drop_first() =~= a.drop_first() + b);
        lemma_split(a.drop_first(), b);
        if row_full(a[0]) {
        } else {
            assert(seq![a[0]] + (kept_rows(a.drop_first()) + kept_rows(b)) =~= (seq![a[0]]
                + kept_rows(a.drop_first())) + kept_rows(b));
        }
    }
}

/// Rows without a full one are all kept, and none is counted.
pub proof fn lemma_no_full_rows(rows: Seq<Seq<Option<Piece>>>)
    requires
        forall|k: int| 0 <= k < rows.len() ==> !row_full(#[trigger] rows[k]),
    ensures
        full_count(rows) == 0,
        kept_rows(rows) == rows,
    decreases rows.len(),
{
    if rows.len() > 0 {
        let rest = rows.drop_first();
        assert forall|k: int| 0 <= k < rest.len() implies !row_full(#[trigger] rest[k]) by {
            assert(rest[k] == rows[k + 1]);
        }
        lemma_no_full_rows(rest);
        assert(seq![rows[0]] + rest =~= rows);
    }
}

impl Board {
    /// Twenty rows of ten cells.
    pub proof fn lemma_shape(&self)
        ensures
            self@.len() == 20,
            forall|y: int| 0 <= y < 20 ==> (#[trigger] self@[y]).len() == 10,
    {
    }

    /// A board with no block.
    pub fn new() -> (r: Board)
        ensures
            r@ == empty_board(),
    {
        let r = Board { cells: [[None; 10]; 20] };
        assert(r@ =~= empty_board()) by {
            assert forall|y: int| 0 <= y < 20 implies #[trigger] r@[y] == empty_row() by {
                assert(r@[y] =~= empty_row());
            }
        }
        r
    }

    /// What cell (`x`, `y`) holds; nothing off the board.
    pub fn get(&self, x: i32, y: i32) -> (r: Option<Piece>)
        ensures
            r == (if 0 <= x < 10 && 0 <= y < 20 {
                self@[y as int][x as int]
            } else {
                None
            }),
    {
        if 0 <= x && x < HORIZONTAL_TILES as i32 && 0 <= y && y < VERTICAL_TILES as i32 {
            self.cells[y as usize][x as usize]
        } else {
            None
        }
    }

    /// Cell (`x`, `y`) lies on the board and holds a block.
    pub fn is_occupied(&self, x: i32, y: i32) -> (r: bool)
        ensures
            r == occupied(self@, x as int, y as int),
    {
        match self.get(x, y) {
            Some(_) => true,
            None => false,
        }
    }

    /// Leaves a block of kind `p` in cell (`x`, `y`).
    pub fn place(&mut self, x: i32, y: i32, p: Piece)
        requires
            0 <= x < 10,
            0 <= y < 20,
        ensures
            final(self)@ == old(self)@.update(y as int, old(self)@[y as int].update(x as int, Some(p))),
    {
        let mut row = self.cells[y as usize];
        row[x as usize] = Some(p);
        self.cells[y as usize] = row;
        assert(self@ =~= old(self)@.update(y as int, old(self)@[y as int].update(x as int, Some(p))));
    }

    /// Row `y` is full.
    pub fn is_row_full(&self, y: usize) -> (r: bool)
        requires
            y < 20,
        ensures
            r == row_full(self@[y as int]),
    {
        let row = self.cells[y];
        let mut x: usize = 0;
        while x < 10
            invariant
                x <= 10,
                row@ == self@[y as int],
                forall|k: int| 0 <= k < x ==> row@[k] is Some,
            decreases 10 - x,
        {
            if row[x].is_none() {
                return false;
            }
            x = x + 1;
        }
        true
    }

    /// Takes out the full rows in one pass from the bottom up: each other
    /// row moves down by the number of full rows met below it, and the rows
    /// freed at the top are emptied. Returns how many rows went.
    pub fn clear_full_rows(&mut self) -> (r: u32)
        ensures
            r == full_count(old(self)@),
            final(self)@ == compacted(old(self)@),
    {
        let ghost old_rows = self@;
        let mut removed: usize = 0;
        let mut i: usize = 20;
        proof {
            assert(old_rows.subrange(20, 20) =~= Seq::<Seq<Option<Piece>>>::empty());
        }
        while i > 0
            invariant
                old_rows == old(self)@,
                old_rows.len() == 20,
                0 <= i <= 20,
                removed == full_count(old_rows.subrange(i as int, 20)),
                kept_rows(old_rows.subrange(i as int, 20)).len() + removed == 20 - i,
                forall|k: int| 0 <= k < i ==> #[trigger] self@[k] == old_rows[k],
                forall|j: int|
                    0 <= j < 20 - i - removed ==> self@[i + removed + j] == #[trigger] kept_rows(
                        old_rows.subrange(i as int, 20),
                    )[j],
            decreases i,
        {
            let row_index = i - 1;
            let ghost seg = old_rows.subrange(row_index as int, 20);
            proof {
                assert(seg.drop_first() =~= old_rows.subrange(i as int, 20));
                assert(seg[0] == old_rows[row_index as int]);
                lemma_kept_len(seg);
            }
            let full = self.is_row_full(row_index);
            if full {
                removed = removed + 1;
            } else {
                let ghost before = self@;
                let row = self.cells[row_index];
                self.cells[row_index + removed] = row;
                proof {
                    assert(self@[row_index + removed] == old_rows[row_index as int]);
                    assert forall|k: int| 0 <= k < row_index implies #[trigger] self@[k]
                        == old_rows[k] by {
                        assert(self@[k] == before[k]);
                    }
                }
            }
            i = row_index;
        }
        proof {
            assert(old_rows.subrange(0, 20) =~= old_rows);
        }
        let mut j: usize = 0;
        while j < removed
            invariant
                old_rows == old(self)@,
                old_rows.len() == 20,
                j <= removed <= 20,
                removed == full_count(old_rows),
                kept_rows(old_rows).len() + removed == 20,
                forall|k: int| 0 <= k < j ==> #[trigger] self@[k] == empty_row(),
                forall|k: int|
                    0 <= k < 20 - removed ==> self@[removed + k] == #[trigger] kept_rows(
                        old_rows,
                    )[k],
            decreases removed - j,
        {
            let ghost before = self@;
            self.cells[j] = [None; 10];
            proof {
                assert(self@[j as int] =~= empty_row());
                assert forall|k: int| 0 <= k < j implies #[trigger] self@[k] == empty_row() by {
                    assert(self@[k] == before[k]);
                }
            }
            j = j + 1;
        }
        assert(self@ =~= compacted(old_rows)) by {
            assert forall|k: int| 0 <= k < 20 implies #[trigger] self@[k] == compacted(
                old_rows,
            )[k] by {
                if k >= removed {
                    assert(self@[removed + (k - removed)] == kept_rows(old_rows)[k - removed]);
                }
            }
        }
        removed as u32
    }
}

} // verus!
