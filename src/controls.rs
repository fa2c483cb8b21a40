//! Timing and key-edge decisions that turn held keys and the clock into
//! moves of the game.

use crate::game::{
    descended, descent_of, game_wf, rotated, score_has_room, shifted, Descent, Game, Preview,
};
use vstd::prelude::*;

verus! {

/// Milliseconds that a sideways move waits after the last one.
pub const LEFT_RIGHT_MOVE_SLEEP: u64 = 100;

/// Milliseconds between two descents while the down key is held.
pub const DOWN_MOVE_SLEEP: u64 = 100;

/// Which keys are held at one frame.
#[derive(Clone, Copy, Debug, PartialEq, Eq, Structural)]
pub struct Keys {
    pub left: bool,
    pub right: bool,
    pub down: bool,
    pub up: bool,
    pub space: bool,
}

/// What the player's input left behind: the times (in milliseconds) of the
/// last descent and of the last sideways move, and whether the rotate and
/// hard-drop keys were held at the last frame that looked at them.
#[derive(Clone, Copy, Debug, PartialEq, Eq, Structural)]
pub struct Controls {
    pub last_down_press: u64,
    pub last_side_press: u64,
    pub last_up_press: bool,
    pub last_space_press: bool,
}

/// A descent is due: on a hard drop, once the descent interval has passed,
/// or with the down key held once the shorter soft-drop interval has passed.
pub open spec fn descend_due(since: int, descend_sleep: int, down: bool, hard_drop: bool) -> bool {
    hard_drop || since >= descend_sleep || (down && since >= DOWN_MOVE_SLEEP)
}

/// The column step that the left and right keys ask for: none when both or
/// neither are held.
pub open spec fn side_delta(left: bool, right: bool) -> int {
    if left && !right {
        -1
    } else if right && !left {
        1
    } else {
        0
    }
}

/// Fires once when a key goes down: true when `pressed` holds and did not
/// at the last look, which `last` records and which becomes `pressed`.
pub fn press_edge(last: &mut bool, pressed: bool) -> (r: bool)
    ensures
        r == (pressed && !*old(last)),
        *final(last) == pressed,
{
    let mut fired = false;
    if *last && !pressed {
        *last = false;
    } else if !*last && pressed {
        fired = true;
        *last = true;
    }
    fired
}

/// The column step that the left and right keys ask for.
pub fn step_of_keys(left: bool, right: bool) -> (r: i32)
    ensures
        r == side_delta(left, right),
{
    if left && !right {
        -1
    } else if right && !left {
        1
    } else {
        0
    }
}

impl Controls {
    /// No key held, no move made yet.
    pub fn new() -> (r: Controls)
        ensures
            r == (Controls {
                last_down_press: 0,
                last_side_press: 0,
                last_up_press: false,
                last_space_press: false,
            }),
    {
        Controls { last_down_press: 0, last_side_press: 0, last_up_press: false, last_space_press: false }
    }

    /// The descent of one frame at time `now`. Once the game is over nothing
    /// changes. Otherwise a press of space asks for a hard drop, and when a
    /// descent is due it runs and its time is kept.
    pub fn descend_piece(&mut self, game: &mut Game, now: u64, keys: Keys, next: Preview) -> (r: Descent)
        requires
            game_wf(old(game)@),
            score_has_room(old(game)@),
            next.angle < 4,
            now >= old(self).last_down_press,
        ensures
            game_wf(final(game)@),
            old(game).game_over ==> *final(self) == *old(self) && final(game)@ == old(game)@ && r
                == Descent::Idle,
            !old(game).game_over ==> {
                let hard = keys.space && !old(self).last_space_press;
                let due = descend_due(
                    now - old(self).last_down_press,
                    old(game).state.descend_sleep as int,
                    keys.down,
                    hard,
                );
                &&& final(self).last_space_press == keys.space
                &&& final(self).last_side_press == old(self).last_side_press
                &&& final(self).last_up_press == old(self).last_up_press
                &&& final(self).last_down_press == (if due {
                    now
                } else {
                    old(self).last_down_press
                })
                &&& final(game)@ == (if due {
                    descended(old(game)@, hard, next)
                } else {
                    old(game)@
                })
                &&& r == (if due {
                    descent_of(old(game)@, hard)
                } else {
                    Descent::Idle
                })
            },
    {
        if game.game_over {
            return Descent::Idle;
        }
        let space_pressed = press_edge(&mut self.last_space_press, keys.space);
        let since_click = now - self.last_down_press;
        if space_pressed || since_click >= game.state.descend_sleep || (keys.down && since_click
            >= DOWN_MOVE_SLEEP) {
            self.last_down_press = now;
            game.descend(space_pressed, next)
        } else {
            Descent::Idle
        }
    }

    /// The rotation of one frame: a fresh press of the up key turns the
    /// piece in play. Returns whether it turned.
    pub fn rotate_piece(&mut self, game: &mut Game, keys: Keys) -> (r: bool)
        requires
            game_wf(old(game)@),
        ensures
            game_wf(final(game)@),
            final(self).last_up_press == keys.up,
            final(self).last_down_press == old(self).last_down_press,
            final(self).last_side_press == old(self).last_side_press,
            final(self).last_space_press == old(self).last_space_press,
            final(game)@ == (if keys.up && !old(self).last_up_press {
                rotated(old(game)@)
            } else {
                old(game)@
            }),
            r == (final(game)@ != old(game)@),
    {
        if press_edge(&mut self.last_up_press, keys.up) {
            let ghost before = game@;
            let turned = game.rotate_piece();
            proof {
                if turned {
                    assert(game@.position.angle != before.position.angle);
                }
            }
            turned
        } else {
            false
        }
    }

    /// The sideways move of one frame at time `now`: once the wait after the
    /// last move has passed, the left or right key moves the piece in play
    /// one column where it then runs into nothing, and a move made keeps
    /// its time. Returns whether it moved.
    pub fn move_sideways(&mut self, game: &mut Game, now: u64, keys: Keys) -> (r: bool)
        requires
            game_wf(old(game)@),
            now >= old(self).last_side_press,
        ensures
            game_wf(final(game)@),
            final(self).last_down_press == old(self).last_down_press,
            final(self).last_up_press == old(self).last_up_press,
            final(self).last_space_press == old(self).last_space_press,
            final(game)@ == (if now - old(self).last_side_press < LEFT_RIGHT_MOVE_SLEEP {
                old(game)@
            } else {
                shifted(old(game)@, side_delta(keys.left, keys.right))
            }),
            r == (final(game)@ != old(game)@),
            final(self).last_side_press == (if r {
                now
            } else {
                old(self).last_side_press
            }),
    {
        let since_click = now - self.last_side_press;
        if since_click < LEFT_RIGHT_MOVE_SLEEP {
            return false;
        }
        let delta_x = step_of_keys(keys.left, keys.right);
        let moved = game.move_sideways(delta_x);
        if moved {
            self.last_side_press = now;
        }
        moved
    }
}

} // verus!
