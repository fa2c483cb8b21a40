use tetris::board::{Board, HORIZONTAL_TILES, VERTICAL_TILES};
use tetris::collision::{collision, CollisionType};
use tetris::piece::Piece;

fn fill_row(b: &mut Board, y: i32, p: Piece) {
    for x in 0..10 {
        b.place(x, y, p);
    }
}

#[test]
fn new_board_is_empty() {
    let b = Board::new();
    assert_eq!(HORIZONTAL_TILES, 10);
    assert_eq!(VERTICAL_TILES, 20);
    for y in 0..20 {
        for x in 0..10 {
            assert_eq!(b.get(x, y), None);
            assert!(!b.is_occupied(x, y));
        }
        assert!(!b.is_row_full(y as usize));
    }
}

#[test]
fn place_and_read_cells() {
    let mut b = Board::new();
    b.place(3, 7, Piece::Z);
    assert_eq!(b.get(3, 7), Some(Piece::Z));
    assert!(b.is_occupied(3, 7));
    assert!(!b.is_occupied(4, 7));
    assert_eq!(b.get(-1, 7), None);
    assert_eq!(b.get(10, 7), None);
    assert_eq!(b.get(3, -1), None);
    assert_eq!(b.get(3, 20), None);
    assert!(!b.is_occupied(3, -1));
}

#[test]
fn a_row_is_full_only_with_all_ten_cells() {
    let mut b = Board::new();
    for x in 0..9 {
        b.place(x, 19, Piece::I);
    }
    assert!(!b.is_row_full(19));
    b.place(9, 19, Piece::T);
    assert!(b.is_row_full(19));
}

#[test]
fn clearing_rows_five_and_seven() {
    let mut b = Board::new();
    for y in 0..5 {
        b.place(y, y, Piece::L);
    }
    fill_row(&mut b, 5, Piece::I);
    b.place(3, 6, Piece::S);
    b.place(8, 6, Piece::S);
    fill_row(&mut b, 7, Piece::J);
    b.place(2, 10, Piece::T);
    for x in 0..9 {
        b.place(x, 19, Piece::O);
    }
    let before = b;
    let cleared = b.clear_full_rows();
    assert_eq!(cleared, 2);
    for y in 0..2 {
        for x in 0..10 {
            assert_eq!(b.get(x, y), None);
        }
    }
    for y in 0..5 {
        assert_eq!(b.cells[y + 2], before.cells[y]);
        assert_eq!(b.get(y as i32, y as i32 + 2), Some(Piece::L));
    }
    assert_eq!(b.cells[7], before.cells[6]);
    for y in 8..20 {
        assert_eq!(b.cells[y], before.cells[y]);
    }
    for y in 0..20 {
        assert!(!b.is_row_full(y));
    }
}

#[test]
fn clearing_without_full_rows_changes_nothing() {
    let mut b = Board::new();
    for x in 0..9 {
        b.place(x, 19, Piece::O);
    }
    b.place(4, 3, Piece::T);
    let before = b;
    assert_eq!(b.clear_full_rows(), 0);
    assert_eq!(b.cells, before.cells);
    let mut empty = Board::new();
    assert_eq!(empty.clear_full_rows(), 0);
    assert_eq!(empty.cells, Board::new().cells);
}

#[test]
fn clearing_four_rows_and_a_full_board() {
    let mut b = Board::new();
    for y in 16..20 {
        fill_row(&mut b, y, Piece::I);
    }
    b.place(6, 15, Piece::Z);
    assert_eq!(b.clear_full_rows(), 4);
    assert_eq!(b.get(6, 19), Some(Piece::Z));
    assert_eq!(b.get(6, 15), None);
    let mut full = Board::new();
    for y in 0..20 {
        fill_row(&mut full, y, Piece::T);
    }
    assert_eq!(full.clear_full_rows(), 20);
    assert_eq!(full.cells, Board::new().cells);
}

#[test]
fn collision_free_on_empty_board_and_above_it() {
    let b = Board::new();
    assert_eq!(collision(Piece::O, 0, 4, 0, &b), CollisionType::Free);
    assert_eq!(collision(Piece::I, 1, 4, -4, &b), CollisionType::Free);
    assert_eq!(collision(Piece::T, 2, 0, -30, &b), CollisionType::Free);
}

#[test]
fn collision_floor_past_the_bottom() {
    let b = Board::new();
    assert_eq!(collision(Piece::O, 0, 4, 19, &b), CollisionType::Floor);
    assert_eq!(collision(Piece::O, 0, 4, 18, &b), CollisionType::Free);
    assert_eq!(collision(Piece::I, 0, 0, 18, &b), CollisionType::Floor);
    assert_eq!(collision(Piece::O, 0, 12, 20, &b), CollisionType::Floor);
    assert_eq!(collision(Piece::O, 0, -5, 25, &b), CollisionType::Floor);
}

#[test]
fn collision_floor_on_a_block() {
    let mut b = Board::new();
    b.place(5, 10, Piece::S);
    assert_eq!(collision(Piece::O, 0, 4, 9, &b), CollisionType::Floor);
    assert_eq!(collision(Piece::O, 0, 4, 7, &b), CollisionType::Free);
}

#[test]
fn collision_walls() {
    let b = Board::new();
    assert_eq!(collision(Piece::O, 0, -1, 5, &b), CollisionType::LeftWall);
    assert_eq!(collision(Piece::O, 0, 9, 5, &b), CollisionType::RightWall);
    assert_eq!(collision(Piece::I, 0, 7, 5, &b), CollisionType::RightWall);
    assert_eq!(collision(Piece::I, 0, 6, 5, &b), CollisionType::Free);
}

#[test]
fn floor_takes_precedence_on_the_same_cell() {
    let b = Board::new();
    assert_eq!(collision(Piece::O, 0, -1, 20, &b), CollisionType::Floor);
    assert_eq!(collision(Piece::O, 0, 9, 20, &b), CollisionType::Floor);
    let mut stacked = Board::new();
    stacked.place(0, 10, Piece::Z);
    assert_eq!(collision(Piece::O, 0, -1, 9, &stacked), CollisionType::LeftWall);
    assert_eq!(collision(Piece::O, 0, 0, 9, &stacked), CollisionType::Floor);
}

#[test]
fn first_cell_in_order_decides() {
    let b = Board::new();
    assert_eq!(collision(Piece::L, 0, -2, 18, &b), CollisionType::LeftWall);
}
