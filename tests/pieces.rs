use std::collections::BTreeSet;
use tetris::game::{tile_bounds, Preview};
use tetris::piece::{Piece, Shape};

const ALL: [Piece; 7] = [Piece::I, Piece::L, Piece::J, Piece::O, Piece::S, Piece::Z, Piece::T];

fn cell_set(v: &[(i32, i32)]) -> BTreeSet<(i32, i32)> {
    v.iter().copied().collect()
}

#[test]
fn i_piece_tiles_at_each_angle() {
    assert_eq!(Piece::I.get_tiles(0, 0, 0), vec![(0, 2), (1, 2), (2, 2), (3, 2)]);
    assert_eq!(Piece::I.get_tiles(1, 0, 0), vec![(1, 0), (1, 1), (1, 2), (1, 3)]);
    assert_eq!(Piece::I.get_tiles(2, 0, 0), vec![(3, 1), (2, 1), (1, 1), (0, 1)]);
    assert_eq!(Piece::I.get_tiles(3, 0, 0), vec![(2, 3), (2, 2), (2, 1), (2, 0)]);
}

#[test]
fn angle_is_read_modulo_four() {
    for p in ALL {
        for a in 0u8..4 {
            assert_eq!(p.get_tiles(a, 3, -2), p.get_tiles(a + 4, 3, -2));
            assert_eq!(p.get_tiles(a, 3, -2), p.get_tiles(a + 252, 3, -2));
        }
    }
}

#[test]
fn tiles_move_with_the_corner() {
    assert_eq!(
        Piece::T.get_tiles(1, 4, -2),
        vec![(5, -2), (5, -1), (6, -1), (5, 0)]
    );
    assert_eq!(
        Piece::L.get_tiles(0, -2, 18),
        vec![(-1, 18), (-1, 19), (-1, 20), (0, 20)]
    );
}

#[test]
fn every_placement_covers_four_cells_and_four_turns_come_back() {
    for p in ALL {
        for a in 0u8..4 {
            let start = p.get_tiles(a, 2, 5);
            assert_eq!(start.len(), 4);
            assert_eq!(cell_set(&start).len(), 4);
            let mut angle = a;
            for _ in 0..4 {
                angle = (angle + 1) % 4;
            }
            assert_eq!(p.get_tiles(angle, 2, 5), start);
        }
    }
}

#[test]
fn each_step_is_a_quarter_turn_in_the_square() {
    for p in ALL {
        let s = p.get_shape().max_size;
        for a in 0u8..4 {
            let before = p.get_tiles(a, 1, 1);
            let after = p.get_tiles((a + 1) % 4, 1, 1);
            for i in 0..4 {
                let (cx, cy) = before[i];
                assert_eq!(after[i], (1 + s - 1 - (cy - 1), 1 + (cx - 1)));
            }
        }
    }
}

#[test]
fn o_piece_is_the_same_at_every_angle() {
    for (x, y) in [(0, 0), (4, -2), (-7, 13)] {
        let base = cell_set(&Piece::O.get_tiles(0, x, y));
        for a in 1u8..4 {
            assert_eq!(cell_set(&Piece::O.get_tiles(a, x, y)), base);
        }
    }
}

#[test]
fn other_pieces_change_when_turned() {
    for p in [Piece::I, Piece::L, Piece::J, Piece::S, Piece::Z, Piece::T] {
        assert_ne!(cell_set(&p.get_tiles(0, 0, 0)), cell_set(&p.get_tiles(1, 0, 0)));
    }
}

#[test]
fn shapes_fit_their_squares() {
    for p in ALL {
        let shape = p.get_shape();
        assert_eq!(shape.coords.len(), 4);
        for &(x, y) in &shape.coords {
            assert!(0 <= x && x < shape.max_size);
            assert!(0 <= y && y < shape.max_size);
        }
    }
    assert_eq!(Piece::I.get_shape().max_size, 4);
    assert_eq!(Piece::O.get_shape().max_size, 2);
    assert_eq!(Piece::T.get_shape().max_size, 3);
    assert_eq!(Piece::S.get_shape().coords, vec![(0, 2), (1, 2), (1, 1), (2, 1)]);
    let made = Shape::new(2, vec![(0, 0), (1, 1)]);
    assert_eq!(made.max_size, 2);
    assert_eq!(made.coords, vec![(0, 0), (1, 1)]);
}

#[test]
fn images_by_kind() {
    assert_eq!(Piece::I.get_image(), "img/red.png");
    assert_eq!(Piece::L.get_image(), "img/purple.png");
    assert_eq!(Piece::J.get_image(), "img/blue.png");
    assert_eq!(Piece::O.get_image(), "img/yellow.png");
    assert_eq!(Piece::S.get_image(), "img/cyan.png");
    assert_eq!(Piece::Z.get_image(), "img/green.png");
    assert_eq!(Piece::T.get_image(), "img/grey.png");
}

#[test]
fn bytes_map_to_kinds_by_remainder() {
    for (i, p) in ALL.iter().enumerate() {
        assert_eq!(Piece::from_byte(i as u8), *p);
        assert_eq!(Piece::from_byte(i as u8 + 7), *p);
    }
    assert_eq!(Piece::from_byte(255), Piece::O);
}

#[test]
fn random_draws_are_in_range() {
    for _ in 0..200 {
        let p = Piece::get_random();
        assert!(ALL.contains(&p));
        assert!(Piece::random_angle() < 4);
        assert!(Preview::get_random().angle < 4);
    }
}

#[test]
fn bounds_of_tiles() {
    assert_eq!(tile_bounds(&Piece::I.get_tiles(0, 0, 0)), (0, 2, 3, 2));
    assert_eq!(tile_bounds(&Piece::I.get_tiles(1, 0, 0)), (1, 0, 1, 3));
    assert_eq!(tile_bounds(&Piece::T.get_tiles(1, 4, -2)), (5, -2, 6, 0));
    assert_eq!(tile_bounds(&vec![(7, -3)]), (7, -3, 7, -3));
}
