use tetris::controls::{
    press_edge, step_of_keys, Controls, Keys, DOWN_MOVE_SLEEP, LEFT_RIGHT_MOVE_SLEEP,
};
use tetris::game::{Descent, Game, Preview};
use tetris::piece::Piece;

fn no_keys() -> Keys {
    Keys { left: false, right: false, down: false, up: false, space: false }
}

fn started() -> Game {
    let mut g = Game::new(Preview { piece: Piece::O, angle: 0 });
    g.spawn_new_piece(Preview { piece: Piece::I, angle: 0 });
    g
}

const NEXT: Preview = Preview { piece: Piece::T, angle: 0 };

#[test]
fn press_edge_fires_once_per_press() {
    let mut last = false;
    assert!(press_edge(&mut last, true));
    assert!(last);
    assert!(!press_edge(&mut last, true));
    assert!(!press_edge(&mut last, false));
    assert!(!last);
    assert!(press_edge(&mut last, true));
}

#[test]
fn keys_to_column_step() {
    assert_eq!(step_of_keys(true, false), -1);
    assert_eq!(step_of_keys(false, true), 1);
    assert_eq!(step_of_keys(true, true), 0);
    assert_eq!(step_of_keys(false, false), 0);
}

#[test]
fn timed_descent_waits_for_its_interval() {
    let mut c = Controls::new();
    let mut g = started();
    assert_eq!(c.descend_piece(&mut g, 999, no_keys(), NEXT), Descent::Idle);
    assert_eq!(g.position.y, -2);
    assert_eq!(c.last_down_press, 0);
    assert_eq!(c.descend_piece(&mut g, 1000, no_keys(), NEXT), Descent::Moved);
    assert_eq!(g.position.y, -1);
    assert_eq!(c.last_down_press, 1000);
}

#[test]
fn held_down_key_descends_faster() {
    let mut c = Controls::new();
    let mut g = started();
    let down = Keys { down: true, ..no_keys() };
    assert_eq!(DOWN_MOVE_SLEEP, 100);
    assert_eq!(c.descend_piece(&mut g, 99, down, NEXT), Descent::Idle);
    assert_eq!(c.descend_piece(&mut g, 100, down, NEXT), Descent::Moved);
    assert_eq!(c.descend_piece(&mut g, 150, down, NEXT), Descent::Idle);
    assert_eq!(c.descend_piece(&mut g, 200, down, NEXT), Descent::Moved);
}

#[test]
fn space_press_hard_drops_once() {
    let mut c = Controls::new();
    let mut g = started();
    let space = Keys { space: true, ..no_keys() };
    assert_eq!(c.descend_piece(&mut g, 10, space, NEXT), Descent::Locked(0));
    assert!(c.last_space_press);
    assert_eq!(g.board.get(4, 19), Some(Piece::O));
    assert_eq!(g.position.piece, Piece::I);
    let y = g.position.y;
    assert_eq!(c.descend_piece(&mut g, 20, space, NEXT), Descent::Idle);
    assert_eq!(g.position.y, y);
}

#[test]
fn nothing_happens_after_game_over() {
    let mut c = Controls::new();
    let mut g = started();
    g.game_over = true;
    g.position.is_visible = false;
    let keys = Keys { space: true, ..no_keys() };
    assert_eq!(c.descend_piece(&mut g, 5000, keys, NEXT), Descent::Idle);
    assert_eq!(c, Controls::new());
}

#[test]
fn rotation_needs_a_fresh_press() {
    let mut c = Controls::new();
    let up = Keys { up: true, ..no_keys() };
    let mut t = Game::new(Preview { piece: Piece::T, angle: 0 });
    t.spawn_new_piece(NEXT);
    for _ in 0..3 {
        t.descend(false, NEXT);
    }
    assert!(c.rotate_piece(&mut t, up));
    assert_eq!(t.position.angle, 1);
    assert!(!c.rotate_piece(&mut t, up));
    assert_eq!(t.position.angle, 1);
    assert!(!c.rotate_piece(&mut t, no_keys()));
    assert!(c.rotate_piece(&mut t, up));
    assert_eq!(t.position.angle, 2);
    assert!(c.last_up_press);
}

#[test]
fn sideways_moves_wait_between_steps() {
    let mut c = Controls::new();
    let mut g = started();
    let left = Keys { left: true, ..no_keys() };
    assert_eq!(LEFT_RIGHT_MOVE_SLEEP, 100);
    assert!(!c.move_sideways(&mut g, 50, left));
    assert!(c.move_sideways(&mut g, 100, left));
    assert_eq!(g.position.x, 3);
    assert_eq!(c.last_side_press, 100);
    assert!(!c.move_sideways(&mut g, 150, left));
    assert!(c.move_sideways(&mut g, 200, left));
    assert_eq!(g.position.x, 2);
    let both = Keys { left: true, right: true, ..no_keys() };
    assert!(!c.move_sideways(&mut g, 400, both));
    assert_eq!(c.last_side_press, 200);
}
