//! From key presses to actions.
//!
//! The terminal's events reach the library as plain values: which key was
//! pressed and whether Control was held. The bindings are decided here.

use vstd::prelude::*;
use crate::app::{Action, AppState};
use crate::difficulty::Difficulty;

verus! {

/// Direction for cursor movement.
#[derive(Debug, Clone, Copy, PartialEq, Eq, Structural)]
pub enum Dir {
    Left,
    Right,
    Up,
    Down,
}

/// High-level input actions that terminal events stand for.
#[derive(Debug, Clone, Copy, PartialEq, Eq, Structural)]
pub enum InputAction {
    Move(Dir),
    Reveal,
    Flag,
    Chord,
    Restart,
    ChangeDifficulty,
    Quit,
}

/// The keys that the bindings tell apart.
#[derive(Debug, Clone, Copy, PartialEq, Eq, Structural)]
pub enum Key {
    Left,
    Right,
    Up,
    Down,
    Enter,
    /// A character key, with the character as typed.
    Char(char),
    /// Any other key.
    Other,
}

/// What the library reads of a terminal event.
#[derive(Debug, Clone, Copy, PartialEq, Eq, Structural)]
pub enum InputEvent {
    /// A key press: the key, and whether Control was held.
    Key { key: Key, ctrl: bool },
    /// Anything else: mouse, resize, focus, paste.
    Other,
}

/// The outcome of an input action: an action for the session, or the request
/// to leave the program.
#[derive(Debug, Clone, Copy, PartialEq, Eq, Structural)]
pub enum AppOrSys {
    Action(Action),
    Quit,
}

/// What a key is bound to when Control plays no part.
///
/// - Movement: arrow keys, and W/A/S/d. Upper-case `D` is not a movement.
/// - Reveal: Enter or Space
/// - Flag: F/f
/// - Chord: C/c
/// - Restart: R/r
/// - ChangeDifficulty: D (upper case)
/// - Quit: Q/q
pub open spec fn binding(key: Key) -> Option<InputAction> {
    match key {
        Key::Left => Some(InputAction::Move(Dir::Left)),
        Key::Right => Some(InputAction::Move(Dir::Right)),
        Key::Up => Some(InputAction::Move(Dir::Up)),
        Key::Down => Some(InputAction::Move(Dir::Down)),
        Key::Enter => Some(InputAction::Reveal),
        Key::Char(c) => if c == ' ' {
            Some(InputAction::Reveal)
        } else if c == 'c' || c == 'C' {
            Some(InputAction::Chord)
        } else if c == 'f' || c == 'F' {
            Some(InputAction::Flag)
        } else if c == 'r' || c == 'R' {
            Some(InputAction::Restart)
        } else if c == 'D' {
            Some(InputAction::ChangeDifficulty)
        } else if c == 'q' || c == 'Q' {
            Some(InputAction::Quit)
        } else if c == 'a' || c == 'A' {
            Some(InputAction::Move(Dir::Left))
        } else if c == 'd' {
            Some(InputAction::Move(Dir::Right))
        } else if c == 'w' || c == 'W' {
            Some(InputAction::Move(Dir::Up))
        } else if c == 's' || c == 'S' {
            Some(InputAction::Move(Dir::Down))
        } else {
            None
        },
        Key::Other => None,
    }
}

/// What an event stands for: Control with C quits; any other key press
/// goes by its binding, whether or not Control is held; and no other event
/// means anything.
pub open spec fn translation(ev: InputEvent) -> Option<InputAction> {
    match ev {
        InputEvent::Key { key, ctrl } => if ctrl && (key == Key::Char('c') || key == Key::Char(
            'C',
        )) {
            Some(InputAction::Quit)
        } else {
            binding(key)
        },
        InputEvent::Other => None,
    }
}

/// What an input action asks for: an action for the session, or to quit. A
/// change of difficulty asks for the preset after `current`.
pub open spec fn request(input: InputAction, current: Difficulty) -> AppOrSys {
    match input {
        InputAction::Move(Dir::Left) => AppOrSys::Action(Action::MoveLeft),
        InputAction::Move(Dir::Right) => AppOrSys::Action(Action::MoveRight),
        InputAction::Move(Dir::Up) => AppOrSys::Action(Action::MoveUp),
        InputAction::Move(Dir::Down) => AppOrSys::Action(Action::MoveDown),
        InputAction::Reveal => AppOrSys::Action(Action::Reveal),
        InputAction::Flag => AppOrSys::Action(Action::ToggleFlag),
        InputAction::Chord => AppOrSys::Action(Action::Chord),
        InputAction::Restart => AppOrSys::Action(Action::Restart),
        InputAction::ChangeDifficulty => AppOrSys::Action(
            Action::SetDifficulty(current.spec_cycle()),
        ),
        InputAction::Quit => AppOrSys::Quit,
    }
}

/// Map an input event to the InputAction it stands for, if any.
///
/// Supported bindings:
/// - Movement: Arrow keys, WASD (W/A/S/d). Note: uppercase 'D' is reserved for ChangeDifficulty.
/// - Reveal: Enter or Space
/// - Flag: F/f
/// - Chord: C/c
/// - Restart: R/r
/// - ChangeDifficulty: D (uppercase)
/// - Quit: Q/q or Ctrl-C
pub fn translate_event(ev: InputEvent) -> (action: Option<InputAction>)
    ensures
        action == translation(ev),
{
    match ev {
        InputEvent::Key { key, ctrl } => {
            match key {
                // Movement via arrows
                Key::Left => Some(InputAction::Move(Dir::Left)),
                Key::Right => Some(InputAction::Move(Dir::Right)),
                Key::Up => Some(InputAction::Move(Dir::Up)),
                Key::Down => Some(InputAction::Move(Dir::Down)),
                Key::Enter => Some(InputAction::Reveal),
                Key::Char(c) => {
                    // Handle Ctrl-C as Quit regardless of case
                    if ctrl && (c == 'c' || c == 'C') {
                        return Some(InputAction::Quit);
                    }
                    if c == ' ' {
                        Some(InputAction::Reveal)
                    } else if c == 'c' || c == 'C' {
                        Some(InputAction::Chord)
                    } else if c == 'f' || c == 'F' {
                        Some(InputAction::Flag)
                    } else if c == 'r' || c == 'R' {
                        Some(InputAction::Restart)
                    } else if c == 'D' {
                        // Change difficulty (upper-case D)
                        Some(InputAction::ChangeDifficulty)
                    } else if c == 'q' || c == 'Q' {
                        Some(InputAction::Quit)
                    } else if c == 'a' || c == 'A' {
                        Some(InputAction::Move(Dir::Left))
                    } else if c == 'd' {
                        // lowercase only
                        Some(InputAction::Move(Dir::Right))
                    } else if c == 'w' || c == 'W' {
                        Some(InputAction::Move(Dir::Up))
                    } else if c == 's' || c == 'S' {
                        Some(InputAction::Move(Dir::Down))
                    } else {
                        None
                    }
                },
                Key::Other => None,
            }
        },
        InputEvent::Other => None,
    }
}

/// Map a high-level InputAction into an action for the session, or Quit.
pub fn input_action_to_action(input: InputAction, app: &AppState) -> (out: Option<AppOrSys>)
    ensures
        out == Some(request(input, app.difficulty)),
{
    match input {
        InputAction::Move(dir) => Some(
            AppOrSys::Action(
                match dir {
                    Dir::Left => Action::MoveLeft,
                    Dir::Right => Action::MoveRight,
                    Dir::Up => Action::MoveUp,
                    Dir::Down => Action::MoveDown,
                },
            ),
        ),
        InputAction::Reveal => Some(AppOrSys::Action(Action::Reveal)),
        InputAction::Flag => Some(AppOrSys::Action(Action::ToggleFlag)),
        InputAction::Chord => Some(AppOrSys::Action(Action::Chord)),
        InputAction::Restart => Some(AppOrSys::Action(Action::Restart)),
        InputAction::ChangeDifficulty => {
            let next = app.difficulty.cycle();
            Some(AppOrSys::Action(Action::SetDifficulty(next)))
        },
        InputAction::Quit => Some(AppOrSys::Quit),
    }
}

} // verus!
