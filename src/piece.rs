//! Piece kinds, their shapes, and the cells that a piece covers at each angle.

use rand::Rng;
use vstd::prelude::*;

verus! {

/// The seven tetromino kinds. A kind also serves as the colour of the
/// blocks that it leaves on the board.
#[derive(Clone, Copy, Debug, PartialEq, Eq, Structural)]
pub enum Piece {
    I,
    L,
    J,
    O,
    S,
    Z,
    T,
}

/// A kind's geometry at angle 0: the side of the square that it turns in,
/// and its four cells inside that square.
pub struct Shape {
    pub max_size: i32,
    pub coords: Vec<(i32, i32)>,
}

/// Side of the square that a kind turns in.
pub open spec fn shape_size(p: Piece) -> int {
    match p {
        Piece::I => 4,
        Piece::O => 2,
        _ => 3,
    }
}

/// The four cells of a kind at angle 0, in their fixed order.
pub open spec fn shape_cells(p: Piece) -> Seq<(int, int)> {
    match p {
        Piece::I => seq![(0, 2), (1, 2), (2, 2), (3, 2)],
        Piece::L => seq![(1, 0), (1, 1), (1, 2), (2, 2)],
        Piece::J => seq![(1, 0), (1, 1), (1, 2), (0, 2)],
        Piece::O => seq![(0, 0), (1, 0), (0, 1), (1, 1)],
        Piece::S => seq![(0, 2), (1, 2), (1, 1), (2, 1)],
        Piece::Z => seq![(0, 1), (1, 1), (1, 2), (2, 2)],
        Piece::T => seq![(0, 1), (1, 1), (1, 0), (2, 1)],
    }
}

/// Coordinate pairs read as mathematical integers.
pub open spec fn widen(v: Seq<(i32, i32)>) -> Seq<(int, int)> {
    v.map_values(|c: (i32, i32)| (c.0 as int, c.1 as int))
}

/// A cell of a square of side `s` turned clockwise by `a` quarter turns in place.
pub open spec fn turn(s: int, c: (int, int), a: int) -> (int, int) {
    if a == 0 {
        c
    } else if a == 1 {
        (s - 1 - c.1, c.0)
    } else if a == 2 {
        (s - 1 - c.0, s - 1 - c.1)
    } else {
        (c.1, s - 1 - c.0)
    }
}

/// The board cells that kind `p` covers at angle `a` (0 to 3) with its
/// square's corner at (`x`, `y`), in the order of the kind's cells.
pub open spec fn tiles(p: Piece, a: int, x: int, y: int) -> Seq<(int, int)> {
    shape_cells(p).map_values(
        |c: (int, int)|
            {
                let t = turn(shape_size(p), c, a);
                (t.0 + x, t.1 + y)
            },
    )
}

/// Path of the image that draws the blocks of a kind.
pub open spec fn image_path(p: Piece) -> &'static str {
    match p {
        Piece::I => "img/red.png",
        Piece::L => "img/purple.png",
        Piece::J => "img/blue.png",
        Piece::O => "img/yellow.png",
        Piece::S => "img/cyan.png",
        Piece::Z => "img/green.png",
        Piece::T => "img/grey.png",
    }
}

/// The kind that a random byte stands for: its remainder by seven, in
/// declaration order.
pub open spec fn piece_of_byte(b: u8) -> Piece {
    let r = b % 7;
    if r == 0 {
        Piece::I
    } else if r == 1 {
        Piece::L
    } else if r == 2 {
        Piece::J
    } else if r == 3 {
        Piece::O
    } else if r == 4 {
        Piece::S
    } else if r == 5 {
        Piece::Z
    } else {
        Piece::T
    }
}

/// Every kind has four cells, each inside its square, and the square is
/// at most four wide.
pub proof fn lemma_cells_in_square(p: Piece)
    ensures
        2 <= shape_size(p) <= 4,
        shape_cells(p).len() == 4,
        forall|i: int|
            #![trigger shape_cells(p)[i]]
            0 <= i < 4 ==> 0 <= shape_cells(p)[i].0 < shape_size(p) && 0 <= shape_cells(p)[i].1
                < shape_size(p),
{
}

/// A placement is its kind's cells at that angle moved by the corner, and
/// each cell lies in the square that starts at the corner.
pub proof fn lemma_tiles_offsets(p: Piece, a: int, x: int, y: int)
    requires
        0 <= a < 4,
    ensures
        tiles(p, a, x, y).len() == 4,
        forall|i: int|
            #![trigger tiles(p, a, x, y)[i]]
            0 <= i < 4 ==> tiles(p, a, x, y)[i] == (tiles(p, a, 0, 0)[i].0 + x, tiles(p, a, 0, 0)[i].1
                + y) && x <= tiles(p, a, x, y)[i].0 < x + shape_size(p) && y <= tiles(p, a, x, y)[i].1
                < y + shape_size(p),
{
    lemma_cells_in_square(p);
}

/// The angle after one quarter turn clockwise.
pub open spec fn next_angle(a: int) -> int {
    (a + 1) % 4
}

/// Cell `c` turned a quarter clockwise inside the square of side `s` whose
/// corner is at (`x`, `y`).
pub open spec fn quarter_turn(s: int, x: int, y: int, c: (int, int)) -> (int, int) {
    (x + s - 1 - (c.1 - y), y + (c.0 - x))
}

/// Every placement covers exactly four cells; stepping the angle turns each
/// cell a quarter clockwise inside the piece's square; and four steps bring
/// back the very same cells at the same corner.
pub proof fn lemma_four_turns(p: Piece, a: int, x: int, y: int)
    requires
        0 <= a < 4,
    ensures
        tiles(p, a, x, y).len() == 4,
        forall|i: int|
            0 <= i < 4 ==> #[trigger] tiles(p, next_angle(a), x, y)[i] == quarter_turn(
                shape_size(p),
                x,
                y,
                tiles(p, a, x, y)[i],
            ),
        tiles(p, next_angle(next_angle(next_angle(next_angle(a)))), x, y) == tiles(p, a, x, y),
{
    lemma_cells_in_square(p);
    assert(next_angle(next_angle(next_angle(next_angle(a)))) == a);
}

/// Two lists of cells that each hold every cell of the other cover the same set.
proof fn lemma_same_cells(t: Seq<(int, int)>, u: Seq<(int, int)>)
    requires
        forall|i: int| 0 <= i < t.len() ==> u.contains(#[trigger] t[i]),
        forall|j: int| 0 <= j < u.len() ==> t.contains(#[trigger] u[j]),
    ensures
        t.to_set() == u.to_set(),
{
    assert(t.to_set() =~= u.to_set()) by {
        assert forall|c: (int, int)| t.to_set().contains(c) implies u.to_set().contains(c) by {
            let i = choose|i: int| 0 <= i < t.len() && t[i] == c;
            assert(u.contains(t[i]));
        }
        assert forall|c: (int, int)| u.to_set().contains(c) implies t.to_set().contains(c) by {
            let j = choose|j: int| 0 <= j < u.len() && u[j] == c;
            assert(t.contains(u[j]));
        }
    }
}

/// The O piece covers the same cells at every angle, wherever it stands.
pub proof fn lemma_o_turns_onto_itself(a: int, x: int, y: int)
    requires
        0 <= a < 4,
    ensures
        tiles(Piece::O, a, x, y).to_set() == tiles(Piece::O, 0, x, y).to_set(),
{
    let t = tiles(Piece::O, a, x, y);
    let u = tiles(Piece::O, 0, x, y);
    lemma_cells_in_square(Piece::O);
    assert(u.contains(t[0]) && u.contains(t[1]) && u.contains(t[2]) && u.contains(t[3])) by {
        if a == 1 {
            assert(t[0] == u[1] && t[1] == u[3] && t[2] == u[0] && t[3] == u[2]);
        } else if a == 2 {
            assert(t[0] == u[3] && t[1] == u[2] && t[2] == u[1] && t[3] == u[0]);
        } else if a == 3 {
            assert(t[0] == u[2] && t[1] == u[0] && t[2] == u[3] && t[3] == u[1]);
        } else {
            assert(t[0] == u[0] && t[1] == u[1] && t[2] == u[2] && t[3] == u[3]);
        }
    }
    assert(t.contains(u[0]) && t.contains(u[1]) && t.contains(u[2]) && t.contains(u[3])) by {
        if a == 1 {
            assert(t[0] == u[1] && t[1] == u[3] && t[2] == u[0] && t[3] == u[2]);
        } else if a == 2 {
            assert(t[0] == u[3] && t[1] == u[2] && t[2] == u[1] && t[3] == u[0]);
        } else if a == 3 {
            assert(t[0] == u[2] && t[1] == u[0] && t[2] == u[3] && t[3] == u[1]);
        } else {
            assert(t[0] == u[0] && t[1] == u[1] && t[2] == u[2] && t[3] == u[3]);
        }
    }
    assert forall|i: int| 0 <= i < t.len() implies u.contains(#[trigger] t[i]) by {
    }
    assert forall|j: int| 0 <= j < u.len() implies t.contains(#[trigger] u[j]) by {
    }
    lemma_same_cells(t, u);
}

/// Relies on rand's `thread_rng().gen::<u8>()`: any byte may come back.
#[verifier::external_body]
fn random_byte() -> (r: u8) {
    rand::thread_rng().gen::<u8>()
}

impl Shape {
    pub fn new(max_size: i32, coords: Vec<(i32, i32)>) -> (r: Shape)
        ensures
            r.max_size == max_size,
            r.coords@ == coords@,
    {
        Shape { max_size, coords }
    }
}

impl Piece {
    /// The kind's square and its cells at angle 0.
    pub fn get_shape(&self) -> (r: Shape)
        ensures
            r.max_size == shape_size(*self),
            widen(r.coords@) == shape_cells(*self),
    {
        let r = match self {
            Piece::I => Shape::new(4, vec![(0, 2), (1, 2), (2, 2), (3, 2)]),
            Piece::L => Shape::new(3, vec![(1, 0), (1, 1), (1, 2), (2, 2)]),
            Piece::J => Shape::new(3, vec![(1, 0), (1, 1), (1, 2), (0, 2)]),
            Piece::O => Shape::new(2, vec![(0, 0), (1, 0), (0, 1), (1, 1)]),
            Piece::S => Shape::new(3, vec![(0, 2), (1, 2), (1, 1), (2, 1)]),
            Piece::Z => Shape::new(3, vec![(0, 1), (1, 1), (1, 2), (2, 2)]),
            Piece::T => Shape::new(3, vec![(0, 1), (1, 1), (1, 0), (2, 1)]),
        };
        assert(widen(r.coords@) =~= shape_cells(*self));
        r
    }

    /// The board cells that the piece covers at angle `angle` (read modulo
    /// four) with its square's corner at (`piece_x`, `piece_y`).
    pub fn get_tiles(&self, angle: u8, piece_x: i32, piece_y: i32) -> (r: Vec<(i32, i32)>)
        requires
            piece_x <= i32::MAX - 3,
            piece_y <= i32::MAX - 3,
        ensures
            widen(r@) == tiles(*self, (angle % 4) as int, piece_x as int, piece_y as int),
    {
        let shape = self.get_shape();
        let a = angle % 4;
        let s = shape.max_size;
        proof {
            lemma_cells_in_square(*self);
            assert(shape.coords@.len() == 4) by {
                assert(widen(shape.coords@).len() == shape.coords@.len());
            }
        }
        let ghost want = tiles(*self, a as int, piece_x as int, piece_y as int);
        let mut out: Vec<(i32, i32)> = Vec::new();
        let mut i: usize = 0;
        while i < shape.coords.len()
            invariant
                shape.coords@.len() == 4,
                widen(shape.coords@) == shape_cells(*self),
                s == shape_size(*self),
                a < 4,
                want == tiles(*self, a as int, piece_x as int, piece_y as int),
                piece_x <= i32::MAX - 3,
                piece_y <= i32::MAX - 3,
                0 <= i <= 4,
                out@.len() == i,
                forall|j: int| 0 <= j < i ==> (out@[j].0 as int, out@[j].1 as int) == want[j],
            decreases 4 - i,
        {
            let (cx, cy) = shape.coords[i];
            proof {
                lemma_cells_in_square(*self);
                assert(widen(shape.coords@)[i as int] == (cx as int, cy as int));
            }
            let t = if a == 0 {
                (cx + piece_x, cy + piece_y)
            } else if a == 1 {
                (s - 1 - cy + piece_x, cx + piece_y)
            } else if a == 2 {
                (s - 1 - cx + piece_x, s - 1 - cy + piece_y)
            } else {
                (cy + piece_x, s - 1 - cx + piece_y)
            };
            out.push(t);
            i = i + 1;
        }
        assert(widen(out@) =~= want);
        out
    }

    /// Path of the image that draws this kind's blocks.
    pub fn get_image(&self) -> (r: &'static str)
        ensures
            r == image_path(*self),
    {
        match self {
            Piece::I => "img/red.png",
            Piece::L => "img/purple.png",
            Piece::J => "img/blue.png",
            Piece::O => "img/yellow.png",
            Piece::S => "img/cyan.png",
            Piece::Z => "img/green.png",
            Piece::T => "img/grey.png",
        }
    }

    /// The kind that a random byte stands for.
    pub fn from_byte(b: u8) -> (r: Piece)
        ensures
            r == piece_of_byte(b),
    {
        match b % 7 {
            0 => Piece::I,
            1 => Piece::L,
            2 => Piece::J,
            3 => Piece::O,
            4 => Piece::S,
            5 => Piece::Z,
            _ => Piece::T,
        }
    }

    /// A kind drawn from the thread's random generator.
    pub fn get_random() -> (r: Piece)
        ensures
            exists|b: u8| r == piece_of_byte(b),
    {
        let b = random_byte();
        Piece::from_byte(b)
    }

    /// An angle drawn from the thread's random generator.
    pub fn random_angle() -> (r: u8)
        ensures
            r < 4,
    {
        random_byte() % 4
    }
}

} // verus!
