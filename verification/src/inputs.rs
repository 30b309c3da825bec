//! Normalized input events.
//!
//! The host polls the windowing layer and hands the core a finite list of
//! discrete events per frame; the core reads only directional keys for
//! movement and the reset key for state recovery.

use vstd::prelude::*;

verus! {

/// Integer pixel coordinates of a pointer selection.
pub type Location = (i32, i32);

/// The keys the simulation core distinguishes.
#[derive(Clone, Copy, PartialEq, Eq, Structural, Debug)]
pub enum Key {
    /// Move one cell up.
    Up,
    /// Move one cell down.
    Down,
    /// Move one cell left.
    Left,
    /// Move one cell right.
    Right,
    /// Restart after a failed attempt.
    Restart,
    /// Any other key; it has no effect on the simulation.
    Other,
}

/// One discrete input event.
#[derive(Clone, Copy, PartialEq, Eq, Debug)]
pub enum Input {
    /// A key event.
    Key(Key),
    /// A pointer selection at the given pixel coordinates.
    Selection(Location),
}

/// The unit grid direction a key event maps to, or `None` for an event
/// that does not command movement.
pub open spec fn direction_of(i: Input) -> Option<(int, int)> {
    match i {
        Input::Key(Key::Up) => Some((0, -1)),
        Input::Key(Key::Left) => Some((-1, 0)),
        Input::Key(Key::Down) => Some((0, 1)),
        Input::Key(Key::Right) => Some((1, 0)),
        _ => None,
    }
}

/// Whether the event asks for a restart after a failed attempt.
pub open spec fn is_restart(i: Input) -> bool {
    i == Input::Key(Key::Restart)
}

/// The unit grid direction a key event maps to, or `None` for an event
/// that does not command movement.
pub fn direction(i: &Input) -> (r: Option<(i64, i64)>)
    ensures
        r is Some <==> direction_of(*i) is Some,
        r matches Some(d) ==> direction_of(*i) == Some((d.0 as int, d.1 as int)),
{
    match i {
        Input::Key(Key::Up) => Some((0, -1)),
        Input::Key(Key::Left) => Some((-1, 0)),
        Input::Key(Key::Down) => Some((0, 1)),
        Input::Key(Key::Right) => Some((1, 0)),
        _ => None,
    }
}

/// Whether the event asks for a restart after a failed attempt.
pub fn restart_requested(i: &Input) -> (r: bool)
    ensures
        r == is_restart(*i),
{
    match i {
        Input::Key(Key::Restart) => true,
        _ => false,
    }
}

} // verus!
