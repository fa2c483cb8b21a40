//! One game: descent, locking, line clears and score, spawning, rotation
//! with wall kicks, and sideways moves.
//!
//! The game ends when a piece comes to rest with a cell above the board. At
//! a lock, the piece's cells on the board are kept, the line clear still
//! runs, and then the game is over. A spawned piece that cannot move down
//! from just above the board would rest there wholly above it: the game is
//! over at once and nothing is placed.

use crate::board::{
    compacted, empty_board, empty_row, full_count, kept_rows, lemma_no_full_rows, lemma_split, row_full,
    Board,
};
use crate::collision::{
    collision, collision_at, first_collision, lemma_first_hit, lemma_free_iff, tile_collision,
    CollisionType,
};
use crate::piece::{lemma_tiles_offsets, shape_size, tiles, widen, Piece};
use vstd::prelude::*;

verus! {

/// Column of the square's corner of a freshly spawned piece: just left of
/// the middle of the board.
pub const SPAWN_X: i32 = 4;

/// Row from which a freshly spawned piece is settled just above the board.
pub const SPAWN_Y: i32 = -5;

/// Milliseconds between two timed descents at the start of a game.
pub const INITIAL_DESCEND_SLEEP: u64 = 1000;

/// The next piece, shown before it comes into play.
#[derive(Clone, Copy, Debug, PartialEq, Eq, Structural)]
pub struct Preview {
    pub piece: Piece,
    pub angle: u8,
}

/// The falling piece: kind, angle (0 to 3), corner of its square, and
/// whether it is in play.
#[derive(Clone, Copy, Debug, PartialEq, Eq, Structural)]
pub struct PiecePosition {
    pub piece: Piece,
    pub angle: u8,
    pub x: i32,
    pub y: i32,
    pub is_visible: bool,
}

/// Level, score, and the milliseconds between two timed descents.
#[derive(Clone, Copy, Debug, PartialEq, Eq, Structural)]
pub struct GameState {
    pub level: u32,
    pub score: u64,
    pub descend_sleep: u64,
}

/// One game: the settled blocks, the falling piece, the next piece, the
/// score, and the latch that ends the game.
#[derive(Clone, Copy, Debug)]
pub struct Game {
    pub board: Board,
    pub position: PiecePosition,
    pub preview: Preview,
    pub state: GameState,
    pub game_over: bool,
}

/// What a game is, with the board as its rows.
pub struct GameView {
    pub board: Seq<Seq<Option<Piece>>>,
    pub position: PiecePosition,
    pub preview: Preview,
    pub state: GameState,
    pub game_over: bool,
}

impl View for Game {
    type V = GameView;

    open spec fn view(&self) -> GameView {
        GameView {
            board: self.board@,
            position: self.position,
            preview: self.preview,
            state: self.state,
            game_over: self.game_over,
        }
    }
}

/// The result of a descent.
#[derive(Clone, Copy, Debug, PartialEq, Eq, Structural)]
pub enum Descent {
    /// Nothing is in play: the game is over or no piece has spawned.
    Idle,
    /// The piece moved down one or more rows and is still falling.
    Moved,
    /// The piece locked, and this many full rows were taken out.
    Locked(u32),
}

/// Points for taking out `n` rows at once, before the level multiplies them.
pub open spec fn line_points(n: int) -> int {
    if n == 1 {
        100
    } else if n == 2 {
        300
    } else if n == 3 {
        500
    } else if n == 4 {
        800
    } else {
        0
    }
}

/// The cells that the piece covers.
pub open spec fn active_tiles(p: PiecePosition) -> Seq<(int, int)> {
    tiles(p.piece, p.angle as int, p.x as int, p.y as int)
}

/// Some cell of `ts` is (`x`, `y`).
pub open spec fn covers(ts: Seq<(int, int)>, x: int, y: int) -> bool {
    exists|k: int| 0 <= k < ts.len() && ts[k] == (x, y)
}

/// The board with a block of kind `p` in each of its cells that `ts` covers.
pub open spec fn painted(b: Seq<Seq<Option<Piece>>>, ts: Seq<(int, int)>, p: Piece) -> Seq<
    Seq<Option<Piece>>,
> {
    Seq::new(
        b.len(),
        |y: int|
            Seq::new(
                b[y].len(),
                |x: int|
                    if covers(ts, x, y) {
                        Some(p)
                    } else {
                        b[y][x]
                    },
            ),
    )
}

/// Some cell of `ts` lies above the board.
pub open spec fn above_board(ts: Seq<(int, int)>) -> bool {
    exists|k: int| 0 <= k < ts.len() && ts[k].1 < 0
}

/// The lowest row that kind `p` at angle `a` covers, counted from its corner.
pub open spec fn bottom(p: Piece, a: int) -> int {
    let t = tiles(p, a, 0, 0);
    let m01 = if t[0].1 >= t[1].1 {
        t[0].1
    } else {
        t[1].1
    };
    let m23 = if t[2].1 >= t[3].1 {
        t[2].1
    } else {
        t[3].1
    };
    if m01 >= m23 {
        m01
    } else {
        m23
    }
}

/// The corner row at which a spawned piece settles: its lowest cell sits on
/// the row just above the board.
pub open spec fn spawn_row(p: Piece, a: int) -> int {
    -1 - bottom(p, a)
}

/// The game is well formed: angles are 0 to 3, the level is at least one,
/// the piece sits near the board, and a piece in play sits at a legal
/// placement of a game that is not over.
pub open spec fn game_wf(v: GameView) -> bool {
    &&& v.board.len() == 20
    &&& forall|y: int| 0 <= y < 20 ==> (#[trigger] v.board[y]).len() == 10
    &&& v.position.angle < 4
    &&& v.preview.angle < 4
    &&& v.state.level >= 1
    &&& -3 <= v.position.x <= 9
    &&& -5 <= v.position.y <= 19
    &&& v.position.is_visible ==> !v.game_over && collision_at(
        v.position.piece,
        v.position.angle as int,
        v.position.x as int,
        v.position.y as int,
        v.board,
    ) == CollisionType::Free
}

/// The score can take the points of one more lock.
pub open spec fn score_has_room(v: GameView) -> bool {
    v.state.score + v.state.level * 800 <= u64::MAX
}

/// Locking: each cell of the piece on the board takes a block of its kind,
/// a cell above the board ends the game, and the piece leaves play.
pub open spec fn locked(v: GameView) -> GameView {
    let ts = active_tiles(v.position);
    GameView {
        board: painted(v.board, ts, v.position.piece),
        position: PiecePosition { is_visible: false, ..v.position },
        game_over: v.game_over || above_board(ts),
        ..v
    }
}

/// Line clear: the full rows go, and the score gains the level times the
/// points for that many rows.
pub open spec fn cleared(v: GameView) -> GameView {
    let n = full_count(v.board);
    GameView {
        board: compacted(v.board),
        state: GameState {
            score: (v.state.score + v.state.level * line_points(n as int)) as u64,
            ..v.state
        },
        ..v
    }
}

/// Spawning, unless the game is over: the preview comes into play at the
/// spawn column, settled just above the board, and `next` becomes the
/// preview. If the piece cannot move down from there, the game is over and
/// the piece does not come into play.
pub open spec fn spawned(v: GameView, next: Preview) -> GameView {
    if v.game_over {
        v
    } else {
        let p = v.preview.piece;
        let a = v.preview.angle;
        let y = spawn_row(p, a as int);
        let blocked = collision_at(p, a as int, SPAWN_X as int, y + 1, v.board) == CollisionType::Floor;
        GameView {
            position: PiecePosition { piece: p, angle: a, x: SPAWN_X, y: y as i32, is_visible: !blocked },
            preview: next,
            game_over: blocked,
            ..v
        }
    }
}

/// Everything that follows the moment a piece comes to rest.
pub open spec fn settled(v: GameView, next: Preview) -> GameView {
    spawned(cleared(locked(v)), next)
}

/// How many rows a lock where the piece stands takes out.
pub open spec fn lines_of_lock(v: GameView) -> nat {
    full_count(locked(v).board)
}

/// The corner row at which a piece that falls straight down from row `y`
/// comes to rest.
pub open spec fn drop_row(p: Piece, a: int, x: int, y: int, b: Seq<Seq<Option<Piece>>>) -> int
    decreases 20 - y,
{
    if y >= 20 || collision_at(p, a, x, y + 1, b) == CollisionType::Floor {
        y
    } else {
        drop_row(p, a, x, y + 1, b)
    }
}

/// A descent, unless nothing is in play: one row down, or with a hard drop
/// as many rows as the piece can fall. A piece that cannot go further
/// locks, the full rows go, and the next piece spawns.
pub open spec fn descended(v: GameView, hard_drop: bool, next: Preview) -> GameView {
    let p = v.position;
    if v.game_over || !p.is_visible {
        v
    } else if hard_drop {
        let y = drop_row(p.piece, p.angle as int, p.x as int, p.y as int, v.board);
        settled(GameView { position: PiecePosition { y: y as i32, ..p }, ..v }, next)
    } else if collision_at(p.piece, p.angle as int, p.x as int, p.y + 1, v.board)
        == CollisionType::Floor {
        settled(v, next)
    } else {
        GameView { position: PiecePosition { y: (p.y + 1) as i32, ..p }, ..v }
    }
}

/// What a descent reports.
pub open spec fn descent_of(v: GameView, hard_drop: bool) -> Descent {
    let p = v.position;
    if v.game_over || !p.is_visible {
        Descent::Idle
    } else if hard_drop {
        let y = drop_row(p.piece, p.angle as int, p.x as int, p.y as int, v.board);
        Descent::Locked(
            lines_of_lock(GameView { position: PiecePosition { y: y as i32, ..p }, ..v }) as u32,
        )
    } else if collision_at(p.piece, p.angle as int, p.x as int, p.y + 1, v.board)
        == CollisionType::Floor {
        Descent::Locked(lines_of_lock(v) as u32)
    } else {
        Descent::Moved
    }
}

/// Where a quarter turn clockwise of a piece at angle `a` with its corner at
/// (`x`, `y`) goes, as its new angle and corner column: in place if that is
/// legal; else, if the turned piece hits the right wall, one then two columns
/// to the left, or if it hits the left wall, one then two columns to the
/// right, the first that is legal. None if no candidate is legal.
pub open spec fn rotation_target(p: Piece, a: int, x: int, y: int, b: Seq<Seq<Option<Piece>>>) -> Option<
    (int, int),
> {
    let na = (a + 1) % 4;
    let c = collision_at(p, na, x, y, b);
    if c == CollisionType::Free {
        Some((na, x))
    } else if c == CollisionType::RightWall {
        if collision_at(p, na, x - 1, y, b) == CollisionType::Free {
            Some((na, x - 1))
        } else if collision_at(p, na, x - 2, y, b) == CollisionType::Free {
            Some((na, x - 2))
        } else {
            None
        }
    } else if c == CollisionType::LeftWall {
        if collision_at(p, na, x + 1, y, b) == CollisionType::Free {
            Some((na, x + 1))
        } else if collision_at(p, na, x + 2, y, b) == CollisionType::Free {
            Some((na, x + 2))
        } else {
            None
        }
    } else {
        None
    }
}

/// A rotation of the piece in play; a rejected one changes nothing.
pub open spec fn rotated(v: GameView) -> GameView {
    let p = v.position;
    if v.game_over || !p.is_visible {
        v
    } else {
        match rotation_target(p.piece, p.angle as int, p.x as int, p.y as int, v.board) {
            Some(t) => GameView { position: PiecePosition { angle: t.0 as u8, x: t.1 as i32, ..p }, ..v },
            None => v,
        }
    }
}

/// A sideways move by `dx` columns of the piece in play, made only where
/// the piece then runs into nothing.
pub open spec fn shifted(v: GameView, dx: int) -> GameView {
    let p = v.position;
    if v.game_over || !p.is_visible || dx == 0 {
        v
    } else if collision_at(p.piece, p.angle as int, p.x + dx, p.y as int, v.board)
        == CollisionType::Free {
        GameView { position: PiecePosition { x: (p.x + dx) as i32, ..p }, ..v }
    } else {
        v
    }
}

/// A line clear on a board whose full rows are exactly rows 5 and 7 counts
/// two rows, empties the two top rows, moves rows 0 to 4 down by two and
/// row 6 down by one, leaves rows 8 to 19 in place, and scores the level
/// times 300.
pub proof fn lemma_rows_five_and_seven(v: GameView)
    requires
        v.board.len() == 20,
        forall|y: int| 0 <= y < 20 ==> (#[trigger] v.board[y]).len() == 10,
        row_full(v.board[5]),
        row_full(v.board[7]),
        forall|k: int| 0 <= k < 20 && k != 5 && k != 7 ==> !row_full(#[trigger] v.board[k]),
        score_has_room(v),
    ensures
        full_count(v.board) == 2,
        cleared(v).board[0] == empty_row(),
        cleared(v).board[1] == empty_row(),
        forall|k: int| 0 <= k < 5 ==> #[trigger] cleared(v).board[k + 2] == v.board[k],
        cleared(v).board[7] == v.board[6],
        forall|k: int| 8 <= k < 20 ==> #[trigger] cleared(v).board[k] == v.board[k],
        cleared(v).state.score == v.state.score + v.state.level * 300,
{
    let r = v.board;
    let a = r.subrange(0, 5);
    let b5 = seq![r[5]];
    let b6 = seq![r[6]];
    let b7 = seq![r[7]];
    let c = r.subrange(8, 20);
    assert(r =~= a + b5 + b6 + b7 + c);
    assert forall|k: int| 0 <= k < a.len() implies !row_full(#[trigger] a[k]) by {
        assert(a[k] == r[k]);
    }
    assert forall|k: int| 0 <= k < c.len() implies !row_full(#[trigger] c[k]) by {
        assert(c[k] == r[k + 8]);
    }
    lemma_no_full_rows(a);
    lemma_no_full_rows(c);
    let none = Seq::<Seq<Option<Piece>>>::empty();
    assert(full_count(none) == 0 && kept_rows(none) == none);
    assert(b5[0] == r[5] && b6[0] == r[6] && b7[0] == r[7]);
    assert(b5.drop_first() =~= Seq::<Seq<Option<Piece>>>::empty());
    assert(b6.drop_first() =~= Seq::<Seq<Option<Piece>>>::empty());
    assert(b7.drop_first() =~= Seq::<Seq<Option<Piece>>>::empty());
    assert(full_count(b5) == 1 && kept_rows(b5) =~= Seq::<Seq<Option<Piece>>>::empty());
    assert(full_count(b7) == 1 && kept_rows(b7) =~= Seq::<Seq<Option<Piece>>>::empty());
    assert(full_count(b6) == 0 && kept_rows(b6) =~= b6);
    lemma_split(a, b5);
    lemma_split(a + b5, b6);
    lemma_split(a + b5 + b6, b7);
    lemma_split(a + b5 + b6 + b7, c);
    let kept = kept_rows(r);
    assert(kept =~= a + b6 + c);
    let out = compacted(r);
    assert(out.len() == 20);
    assert forall|k: int| 0 <= k < 5 implies #[trigger] out[k + 2] == r[k] by {
        assert(out[k + 2] == kept[k]);
    }
    assert forall|k: int| 8 <= k < 20 implies #[trigger] out[k] == r[k] by {
        assert(out[k] == kept[k - 2]);
    }
    assert(out[7] == kept[5]);
}

/// Taking out four rows at once scores the level times 800, and taking out
/// none scores nothing.
pub proof fn lemma_score_table_ends(v: GameView)
    requires
        score_has_room(v),
    ensures
        full_count(v.board) == 4 ==> cleared(v).state.score == v.state.score + v.state.level * 800,
        full_count(v.board) == 0 ==> cleared(v).state.score == v.state.score,
{
}

/// A line clear on a board without a full row changes nothing at all: the
/// board and the score stay, and no row is counted.
pub proof fn lemma_clear_without_full_rows(v: GameView)
    requires
        forall|k: int| 0 <= k < v.board.len() ==> !row_full(#[trigger] v.board[k]),
    ensures
        full_count(v.board) == 0,
        cleared(v) == v,
{
    lemma_no_full_rows(v.board);
    assert(compacted(v.board) =~= v.board);
}

/// A turn that runs into the right wall moves the piece one column left when
/// that is legal; when neither one nor two columns left is legal, the turn
/// is refused and nothing changes.
pub proof fn lemma_right_wall_kick(v: GameView)
    requires
        game_wf(v),
        v.position.is_visible,
        collision_at(
            v.position.piece,
            (v.position.angle + 1) % 4,
            v.position.x as int,
            v.position.y as int,
            v.board,
        ) == CollisionType::RightWall,
    ensures
        collision_at(
            v.position.piece,
            (v.position.angle + 1) % 4,
            v.position.x - 1,
            v.position.y as int,
            v.board,
        ) == CollisionType::Free ==> rotated(v).position == (PiecePosition {
            angle: ((v.position.angle + 1) % 4) as u8,
            x: (v.position.x - 1) as i32,
            ..v.position
        }),
        collision_at(
            v.position.piece,
            (v.position.angle + 1) % 4,
            v.position.x - 1,
            v.position.y as int,
            v.board,
        ) != CollisionType::Free && collision_at(
            v.position.piece,
            (v.position.angle + 1) % 4,
            v.position.x - 2,
            v.position.y as int,
            v.board,
        ) != CollisionType::Free ==> rotated(v) == v,
{
}

/// Points for a line clear lie between 0 and 800.
pub proof fn lemma_line_points_range(n: int)
    ensures
        0 <= line_points(n) <= 800,
{
}

/// A legal placement has all its cells inside the walls, above the floor
/// and off the blocks.
proof fn lemma_legal_cells(ts: Seq<(int, int)>, b: Seq<Seq<Option<Piece>>>)
    requires
        first_collision(ts, b) == CollisionType::Free,
    ensures
        forall|i: int|
            0 <= i < ts.len() ==> 0 <= (#[trigger] ts[i]).0 < 10 && ts[i].1 < 20 && tile_collision(
                ts[i],
                b,
            ) == CollisionType::Free,
{
    lemma_free_iff(ts, b);
}

/// A legal placement has its corner near the board.
proof fn lemma_legal_in_range(p: Piece, a: int, x: int, y: int, b: Seq<Seq<Option<Piece>>>)
    requires
        0 <= a < 4,
        collision_at(p, a, x, y, b) == CollisionType::Free,
    ensures
        -3 <= x <= 9,
        y <= 19,
{
    lemma_tiles_offsets(p, a, x, y);
    lemma_legal_cells(tiles(p, a, x, y), b);
    let t = tiles(p, a, x, y)[0];
    assert(0 <= t.0 < 10 && t.1 < 20);
}

/// One row down from a legal placement the piece runs into the floor or
/// into nothing, never into a wall.
proof fn lemma_step_down(p: Piece, a: int, x: int, y: int, b: Seq<Seq<Option<Piece>>>)
    requires
        0 <= a < 4,
        collision_at(p, a, x, y, b) == CollisionType::Free,
    ensures
        collision_at(p, a, x, y + 1, b) == CollisionType::Free || collision_at(p, a, x, y + 1, b)
            == CollisionType::Floor,
{
    let t0 = tiles(p, a, x, y);
    let t1 = tiles(p, a, x, y + 1);
    lemma_tiles_offsets(p, a, x, y);
    lemma_tiles_offsets(p, a, x, y + 1);
    lemma_legal_cells(t0, b);
    if first_collision(t1, b) != CollisionType::Free {
        lemma_first_hit(t1, b);
        let i = choose|i: int|
            0 <= i < t1.len() && #[trigger] tile_collision(t1[i], b) == first_collision(t1, b)
                && forall|j: int|
                0 <= j < i ==> #[trigger] tile_collision(t1[j], b) == CollisionType::Free;
        assert(t1[i].0 == t0[i].0);
    }
}

/// The lowest covered row bounds every cell and is reached by one of them.
proof fn lemma_bottom(p: Piece, a: int, x: int, y: int)
    requires
        0 <= a < 4,
    ensures
        0 <= bottom(p, a) <= 3,
        forall|k: int| 0 <= k < 4 ==> (#[trigger] tiles(p, a, x, y)[k]).1 <= y + bottom(p, a),
        exists|k: int| 0 <= k < 4 && (#[trigger] tiles(p, a, x, y)[k]).1 == y + bottom(p, a),
{
    lemma_tiles_offsets(p, a, x, y);
    lemma_tiles_offsets(p, a, 0, 0);
    let t = tiles(p, a, x, y);
    let t0 = tiles(p, a, 0, 0);
    assert(t[0].1 == t0[0].1 + y);
    assert(t[1].1 == t0[1].1 + y);
    assert(t[2].1 == t0[2].1 + y);
    assert(t[3].1 == t0[3].1 + y);
    assert(shape_size(p) <= 4) by {
        crate::piece::lemma_cells_in_square(p);
    }
}

/// A placement reaches the board exactly when its corner row plus its
/// lowest covered row does.
proof fn lemma_reaches(p: Piece, a: int, x: int, y: int, v: Seq<(i32, i32)>)
    requires
        0 <= a < 4,
        widen(v) == tiles(p, a, x, y),
    ensures
        (exists|k: int| 0 <= k < v.len() && (#[trigger] widen(v)[k]).1 >= 0) <==> y + bottom(p, a)
            >= 0,
{
    lemma_bottom(p, a, x, y);
    lemma_tiles_offsets(p, a, x, y);
    assert(v.len() == 4) by {
        assert(widen(v).len() == v.len());
    }
    if y + bottom(p, a) >= 0 {
        let k = choose|k: int| 0 <= k < 4 && (#[trigger] tiles(p, a, x, y)[k]).1 == y + bottom(p, a);
        assert(widen(v)[k].1 >= 0);
    }
}

/// Points for a line clear of `cleared` rows at level `level`.
pub fn line_score(level: u32, cleared: u32) -> (r: u64)
    ensures
        r == level * line_points(cleared as int),
{
    let points: u64 = match cleared {
        1 => 100,
        2 => 300,
        3 => 500,
        4 => 800,
        _ => 0,
    };
    level as u64 * points
}

/// The smallest and largest column and row of a non-empty list of cells,
/// as (least column, least row, greatest column, greatest row).
pub fn tile_bounds(ts: &Vec<(i32, i32)>) -> (r: (i32, i32, i32, i32))
    requires
        ts@.len() > 0,
    ensures
        forall|k: int|
            0 <= k < ts@.len() ==> r.0 <= (#[trigger] ts@[k]).0 <= r.2 && r.1 <= ts@[k].1 <= r.3,
        exists|k: int| 0 <= k < ts@.len() && (#[trigger] ts@[k]).0 == r.0,
        exists|k: int| 0 <= k < ts@.len() && (#[trigger] ts@[k]).1 == r.1,
        exists|k: int| 0 <= k < ts@.len() && (#[trigger] ts@[k]).0 == r.2,
        exists|k: int| 0 <= k < ts@.len() && (#[trigger] ts@[k]).1 == r.3,
{
    let mut min_x = ts[0].0;
    let mut min_y = ts[0].1;
    let mut max_x = ts[0].0;
    let mut max_y = ts[0].1;
    let mut i: usize = 1;
    while i < ts.len()
        invariant
            1 <= i <= ts@.len(),
            forall|k: int|
                0 <= k < i ==> min_x <= (#[trigger] ts@[k]).0 <= max_x && min_y <= ts@[k].1 <= max_y,
            exists|k: int| 0 <= k < i && (#[trigger] ts@[k]).0 == min_x,
            exists|k: int| 0 <= k < i && (#[trigger] ts@[k]).1 == min_y,
            exists|k: int| 0 <= k < i && (#[trigger] ts@[k]).0 == max_x,
            exists|k: int| 0 <= k < i && (#[trigger] ts@[k]).1 == max_y,
        decreases ts@.len() - i,
    {
        let (x, y) = ts[i];
        if x < min_x {
            min_x = x;
        }
        if y < min_y {
            min_y = y;
        }
        if x > max_x {
            max_x = x;
        }
        if y > max_y {
            max_y = y;
        }
        i = i + 1;
    }
    (min_x, min_y, max_x, max_y)
}

/// Some cell of `ts` lies on a row of the board or below it.
fn reaches_board(ts: &Vec<(i32, i32)>) -> (r: bool)
    ensures
        r == exists|k: int| 0 <= k < ts@.len() && (#[trigger] widen(ts@)[k]).1 >= 0,
{
    let mut i: usize = 0;
    while i < ts.len()
        invariant
            i <= ts@.len(),
            forall|k: int| 0 <= k < i ==> (#[trigger] widen(ts@)[k]).1 < 0,
        decreases ts@.len() - i,
    {
        assert(widen(ts@)[i as int].1 == ts@[i as int].1);
        if ts[i].1 >= 0 {
            return true;
        }
        i = i + 1;
    }
    false
}

impl Preview {
    /// A kind and an angle drawn from the thread's random generator.
    pub fn get_random() -> (r: Preview)
        ensures
            r.angle < 4,
    {
        Preview { piece: Piece::get_random(), angle: Piece::random_angle() }
    }
}

impl Game {
    /// A game with an empty board, nothing in play yet, `preview` as the
    /// first piece to come, level 1 and score 0.
    pub fn new(preview: Preview) -> (r: Game)
        requires
            preview.angle < 4,
        ensures
            game_wf(r@),
            r@.board == empty_board(),
            r.position == (PiecePosition { piece: Piece::O, angle: 0, x: 0, y: 0, is_visible: false }),
            r.preview == preview,
            r.state == (GameState { level: 1, score: 0, descend_sleep: INITIAL_DESCEND_SLEEP }),
            !r.game_over,
    {
        Game {
            board: Board::new(),
            position: PiecePosition { piece: Piece::O, angle: 0, x: 0, y: 0, is_visible: false },
            preview,
            state: GameState { level: 1, score: 0, descend_sleep: INITIAL_DESCEND_SLEEP },
            game_over: false,
        }
    }

    /// The cells that the falling piece covers.
    pub fn active_tiles(&self) -> (r: Vec<(i32, i32)>)
        requires
            game_wf(self@),
        ensures
            widen(r@) == active_tiles(self.position),
    {
        self.position.piece.get_tiles(self.position.angle, self.position.x, self.position.y)
    }

    /// Locks the falling piece where it is.
    pub fn lock_piece(&mut self)
        requires
            game_wf(old(self)@),
            old(self).position.is_visible,
        ensures
            game_wf(final(self)@),
            final(self)@ == locked(old(self)@),
    {
        let p = self.position.piece;
        let coords = self.active_tiles();
        let ghost ts = active_tiles(self.position);
        let ghost b0 = self.board@;
        proof {
            self.board.lemma_shape();
            lemma_tiles_offsets(p, self.position.angle as int, self.position.x as int, self.position.y as int);
            lemma_legal_cells(ts, b0);
            assert(coords@.len() == 4) by {
                assert(widen(coords@).len() == coords@.len());
            }
            assert(painted(b0, ts.take(0), p) =~= b0) by {
                assert forall|ry: int| 0 <= ry < 20 implies #[trigger] painted(b0, ts.take(0), p)[ry]
                    =~= b0[ry] by {
                }
            }
        }
        let mut out_of_bounds = false;
        let mut i: usize = 0;
        while i < coords.len()
            invariant
                widen(coords@) == ts,
                coords@.len() == 4,
                ts.len() == 4,
                b0.len() == 20,
                forall|y: int| 0 <= y < 20 ==> (#[trigger] b0[y]).len() == 10,
                forall|k: int| 0 <= k < 4 ==> 0 <= (#[trigger] ts[k]).0 < 10 && ts[k].1 < 20,
                i <= 4,
                self.board@ == painted(b0, ts.take(i as int), p),
                self.position == old(self).position,
                self.preview == old(self).preview,
                self.state == old(self).state,
                self.game_over == old(self).game_over,
                b0 == old(self).board@,
                ts == active_tiles(old(self).position),
                p == old(self).position.piece,
                out_of_bounds == above_board(ts.take(i as int)),
            decreases 4 - i,
        {
            let (x, y) = coords[i];
            let ghost before = self.board@;
            proof {
                assert(widen(coords@)[i as int] == (x as int, y as int));
                assert(ts[i as int] == (x as int, y as int));
            }
            if y < 0 {
                out_of_bounds = true;
            } else {
                self.board.place(x, y, p);
            }
            proof {
                let pre = ts.take(i as int);
                let post = ts.take(i + 1);
                assert forall|cx: int, cy: int| covers(post, cx, cy) <==> covers(pre, cx, cy) || (
                cx, cy) == ts[i as int] by {
                    if covers(post, cx, cy) {
                        let k = choose|k: int| 0 <= k < post.len() && post[k] == (cx, cy);
                        if k < i {
                            assert(pre[k] == post[k]);
                        }
                    }
                    if covers(pre, cx, cy) {
                        let k = choose|k: int| 0 <= k < pre.len() && pre[k] == (cx, cy);
                        assert(post[k] == pre[k]);
                    }
                    if (cx, cy) == ts[i as int] {
                        assert(post[i as int] == ts[i as int]);
                    }
                }
                assert(self.board@ =~= painted(b0, post, p)) by {
                    assert forall|ry: int| 0 <= ry < 20 implies #[trigger] self.board@[ry]
                        =~= painted(b0, post, p)[ry] by {
                    }
                }
                if y < 0 {
                    assert(post[i as int].1 < 0);
                } else {
                    assert(above_board(post) ==> above_board(pre)) by {
                        if above_board(post) {
                            let k = choose|k: int| 0 <= k < post.len() && post[k].1 < 0;
                            assert(pre[k] == post[k]);
                        }
                    }
                }
                assert(above_board(pre) ==> above_board(post)) by {
                    if above_board(pre) {
                        let k = choose|k: int| 0 <= k < pre.len() && pre[k].1 < 0;
                        assert(post[k] == pre[k]);
                    }
                }
            }
            i = i + 1;
        }
        proof {
            assert(ts.take(4) =~= ts);
        }
        if out_of_bounds {
            self.game_over = true;
        }
        self.position.is_visible = false;
        proof {
            self.board.lemma_shape();
        }
    }

    /// Takes out the full rows and scores them.
    pub fn clear_room(&mut self) -> (r: u32)
        requires
            game_wf(old(self)@),
            score_has_room(old(self)@),
            !old(self).position.is_visible,
        ensures
            game_wf(final(self)@),
            final(self)@ == cleared(old(self)@),
            r == full_count(old(self)@.board),
    {
        let cleared = self.board.clear_full_rows();
        proof {
            self.board.lemma_shape();
            lemma_line_points_range(cleared as int);
        }
        self.state.score = self.state.score + line_score(self.state.level, cleared);
        cleared
    }

    /// Brings the preview into play and makes `next` the preview; does
    /// nothing once the game is over.
    pub fn spawn_new_piece(&mut self, next: Preview)
        requires
            game_wf(old(self)@),
            next.angle < 4,
        ensures
            game_wf(final(self)@),
            final(self)@ == spawned(old(self)@, next),
    {
        if self.game_over {
            return;
        }
        let p = self.preview.piece;
        let a = self.preview.angle;
        self.preview = next;
        let x: i32 = SPAWN_X;
        let mut y: i32 = SPAWN_Y;
        let ghost target = spawn_row(p, a as int);
        proof {
            lemma_bottom(p, a as int, x as int, y as int);
        }
        let offer = p.get_tiles(a, x, y + 1);
        let mut visible = reaches_board(&offer);
        proof {
            lemma_reaches(p, a as int, x as int, y + 1, offer@);
        }
        while !visible
            invariant
                a < 4,
                x == 4,
                target == spawn_row(p, a as int),
                -5 <= y <= target,
                -4 <= target <= -1,
                visible == (y + 1 + bottom(p, a as int) >= 0),
            decreases target - y,
        {
            y = y + 1;
            proof {
                lemma_bottom(p, a as int, x as int, y + 1);
            }
            let offer = p.get_tiles(a, x, y + 1);
            visible = reaches_board(&offer);
            proof {
                lemma_reaches(p, a as int, x as int, y + 1, offer@);
            }
        }
        proof {
            let ts = tiles(p, a as int, x as int, y as int);
            lemma_bottom(p, a as int, x as int, y as int);
            lemma_tiles_offsets(p, a as int, x as int, y as int);
            assert forall|i: int| 0 <= i < ts.len() implies #[trigger] tile_collision(
                ts[i],
                self.board@,
            ) == CollisionType::Free by {
                crate::piece::lemma_cells_in_square(p);
            }
            lemma_free_iff(ts, self.board@);
        }
        let blocked = collision(p, a, x, y + 1, &self.board) == CollisionType::Floor;
        self.position = PiecePosition { piece: p, angle: a, x, y, is_visible: !blocked };
        if blocked {
            self.game_over = true;
        }
    }

    /// Lock, line clear, then spawn.
    fn settle(&mut self, next: Preview) -> (r: u32)
        requires
            game_wf(old(self)@),
            score_has_room(old(self)@),
            old(self).position.is_visible,
            next.angle < 4,
        ensures
            game_wf(final(self)@),
            final(self)@ == settled(old(self)@, next),
            r == lines_of_lock(old(self)@),
    {
        self.lock_piece();
        let cleared = self.clear_room();
        self.spawn_new_piece(next);
        cleared
    }

    /// One descent of the piece in play, or with `hard_drop` a fall as far
    /// as it goes. When the piece comes to rest it locks, the full rows go
    /// and score, and `next` is the preview after the spawn that follows.
    pub fn descend(&mut self, hard_drop: bool, next: Preview) -> (r: Descent)
        requires
            game_wf(old(self)@),
            score_has_room(old(self)@),
            next.angle < 4,
        ensures
            game_wf(final(self)@),
            final(self)@ == descended(old(self)@, hard_drop, next),
            r == descent_of(old(self)@, hard_drop),
    {
        if self.game_over || !self.position.is_visible {
            return Descent::Idle;
        }
        let p = self.position.piece;
        let a = self.position.angle;
        let x = self.position.x;
        let ghost y0 = self.position.y as int;
        proof {
            lemma_step_down(p, a as int, x as int, y0, self.board@);
        }
        let mut landed = collision(p, a, x, self.position.y + 1, &self.board)
            == CollisionType::Floor;
        if !hard_drop {
            if landed {
                let n = self.settle(next);
                return Descent::Locked(n);
            }
            proof {
                lemma_legal_in_range(p, a as int, x as int, y0 + 1, self.board@);
            }
            self.position.y = self.position.y + 1;
            return Descent::Moved;
        }
        while !landed
            invariant
                game_wf(self@),
                self.position.is_visible,
                self.position.piece == p,
                self.position.angle == a,
                self.position.x == x,
                self.board@ == old(self).board@,
                self.preview == old(self).preview,
                self.state == old(self).state,
                self.game_over == old(self).game_over,
                y0 == old(self).position.y,
                p == old(self).position.piece,
                a == old(self).position.angle,
                x == old(self).position.x,
                drop_row(p, a as int, x as int, y0, self.board@) == drop_row(
                    p,
                    a as int,
                    x as int,
                    self.position.y as int,
                    self.board@,
                ),
                landed == (collision_at(
                    p,
                    a as int,
                    x as int,
                    self.position.y + 1,
                    self.board@,
                ) == CollisionType::Floor),
            decreases 19 - self.position.y,
        {
            proof {
                lemma_step_down(p, a as int, x as int, self.position.y as int, self.board@);
                lemma_legal_in_range(p, a as int, x as int, self.position.y + 1, self.board@);
            }
            self.position.y = self.position.y + 1;
            proof {
                lemma_step_down(p, a as int, x as int, self.position.y as int, self.board@);
            }
            landed = collision(p, a, x, self.position.y + 1, &self.board) == CollisionType::Floor;
        }
        let n = self.settle(next);
        Descent::Locked(n)
    }

    /// A quarter turn clockwise of the piece in play, with the wall kicks of
    /// `rotation_target`. Returns whether the piece turned.
    pub fn rotate_piece(&mut self) -> (r: bool)
        requires
            game_wf(old(self)@),
        ensures
            game_wf(final(self)@),
            final(self)@ == rotated(old(self)@),
            r == (!old(self).game_over && old(self).position.is_visible && rotation_target(
                old(self).position.piece,
                old(self).position.angle as int,
                old(self).position.x as int,
                old(self).position.y as int,
                old(self)@.board,
            ) is Some),
    {
        if self.game_over || !self.position.is_visible {
            return false;
        }
        let p = self.position.piece;
        let x = self.position.x;
        let y = self.position.y;
        let new_angle = (self.position.angle + 1) % 4;
        let mut new_x = x;
        let mut collision_type = collision(p, new_angle, x, y, &self.board);
        let mut accepted = false;
        if collision_type == CollisionType::Free {
            accepted = true;
        } else if collision_type == CollisionType::RightWall {
            new_x = x - 1;
            collision_type = collision(p, new_angle, new_x, y, &self.board);
            if collision_type == CollisionType::Free {
                accepted = true;
            } else {
                new_x = x - 2;
                collision_type = collision(p, new_angle, new_x, y, &self.board);
                if collision_type == CollisionType::Free {
                    accepted = true;
                }
            }
        } else if collision_type == CollisionType::LeftWall {
            new_x = x + 1;
            collision_type = collision(p, new_angle, new_x, y, &self.board);
            if collision_type == CollisionType::Free {
                accepted = true;
            } else {
                new_x = x + 2;
                collision_type = collision(p, new_angle, new_x, y, &self.board);
                if collision_type == CollisionType::Free {
                    accepted = true;
                }
            }
        }
        if accepted {
            proof {
                lemma_legal_in_range(p, new_angle as int, new_x as int, y as int, self.board@);
            }
            self.position.angle = new_angle;
            self.position.x = new_x;
        }
        accepted
    }

    /// Moves the piece in play `delta_x` columns sideways where it then runs
    /// into nothing. Returns whether it moved.
    pub fn move_sideways(&mut self, delta_x: i32) -> (r: bool)
        requires
            game_wf(old(self)@),
            -1 <= delta_x <= 1,
        ensures
            game_wf(final(self)@),
            final(self)@ == shifted(old(self)@, delta_x as int),
            r == (final(self)@ != old(self)@),
    {
        if self.game_over || !self.position.is_visible || delta_x == 0 {
            return false;
        }
        let new_x = self.position.x + delta_x;
        if collision(self.position.piece, self.position.angle, new_x, self.position.y, &self.board)
            == CollisionType::Free {
            proof {
                lemma_legal_in_range(
                    self.position.piece,
                    self.position.angle as int,
                    new_x as int,
                    self.position.y as int,
                    self.board@,
                );
            }
            self.position.x = new_x;
            true
        } else {
            false
        }
    }
}

} // verus!
