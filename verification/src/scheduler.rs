//! What the two loops around a game decide.
//!
//! A front end runs a tick loop and an input loop, which share one
//! [`Game`] behind a lock. Whatever the loops wait for happens out there:
//! the sleep between two ticks, the next key, the signal from one loop to
//! the other. What they do about it is decided here.

use vstd::prelude::*;
use crate::coordinate::{Coordinate, Direction};
use crate::game::Game;
use crate::grid::{GridResult, Outcome};

verus! {

/// What the tick loop does after a tick.
#[derive(Clone, Copy, Debug, PartialEq, Eq, Structural)]
pub enum TickAction {
    /// Sleep for this many milliseconds, then tick again.
    Sleep(u64),
    /// The game ended with a collision at this cell: tell the input loop to
    /// stop, and leave.
    Stop(Coordinate),
}

/// One tick, to be made while the lock on the game is held: the snake steps
/// straight on and a frame is rendered. The tick loop goes on at the pace
/// of the game unless the frame ended it.
pub fn on_tick(game: &mut Game) -> (action: TickAction)
    requires
        old(game).wf(),
    ensures
        final(game)@ == old(game)@.ticked(final(game)@.snake.apple.at).0,
        match action {
            TickAction::Stop(c) => old(game)@.ticked(final(game)@.snake.apple.at).1
                == Outcome::Collision(c@),
            TickAction::Sleep(ms) => old(game)@.ticked(final(game)@.snake.apple.at).1
                !is Collision && ms == final(game)@.interval,
        },
        old(game)@.stepped().ground() matches Some(ground) ==> (old(
            game,
        )@.snake.apple.takes_place(ground) ==> ground.is_free(final(game)@.snake.apple.at)),
        final(game).wf(),
        old(game)@.snake.full() ==> final(game)@.snake.full(),
{
    game.step();
    match game.render() {
        GridResult::Collision(c) => TickAction::Stop(c),
        _ => TickAction::Sleep(game.interval()),
    }
}

/// What the input loop does after it has waited for a key.
#[derive(Clone, Copy, Debug, PartialEq, Eq, Structural)]
pub enum InputAction {
    /// Take the lock on the game and apply this direction, then wait again.
    Apply(Direction),
    /// Wait again.
    Wait,
    /// Leave the loop.
    Exit,
}

/// Decides what the input loop does about `key`, the directional key that
/// arrived before the wait timed out, if one did. A key is applied. Without
/// a key the loop leaves if the tick loop has told it to stop, which
/// `stop_signalled` says, and waits again otherwise: only the tick loop
/// ends the game.
pub fn on_input(key: Option<Direction>, stop_signalled: bool) -> (action: InputAction)
    ensures
        key matches Some(d) ==> action == InputAction::Apply(d),
        key is None && stop_signalled ==> action == InputAction::Exit,
        key is None && !stop_signalled ==> action == InputAction::Wait,
{
    match key {
        Some(d) => InputAction::Apply(d),
        None => if stop_signalled {
            InputAction::Exit
        } else {
            InputAction::Wait
        },
    }
}

} // verus!
