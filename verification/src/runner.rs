//! What the event loop decides: how an event of the terminal is answered, and
//! how long the loop waits before the next frame.

use crate::window::CrosstermWindow;
use vstd::prelude::*;

verus! {

/// An event of the terminal, as far as the event loop looks into it.
#[derive(Copy, Clone, Debug, PartialEq, Eq, Structural)]
pub enum TerminalEvent {
    /// A key was pressed: the character of the key, if it has one, and
    /// whether the control key was held down with it.
    Key { character: Option<char>, control: bool },
    /// The mouse was moved or one of its buttons was used.
    Mouse,
    /// The terminal was resized to a number of columns and of lines.
    Resize { width: u16, height: u16 },
}

/// What the event loop does about an event, besides passing it on.
#[derive(Copy, Clone, Debug, PartialEq, Eq, Structural)]
pub struct Reaction {
    /// The application is asked to exit.
    pub exit: bool,
    /// The application is told that the window was resized.
    pub resized: bool,
}

/// Whether a key asks the application to exit: the key `c`, pressed with the
/// control key held down.
pub open spec fn is_interrupt(character: Option<char>, control: bool) -> bool {
    character == Some('c') && control
}

/// What the event loop does about `event`, and what the window is like
/// afterwards: a resize gives the window its new size, and nothing else
/// changes the window.
pub open spec fn reaction_to(event: TerminalEvent) -> Reaction {
    match event {
        TerminalEvent::Key { character, control } => Reaction {
            exit: is_interrupt(character, control),
            resized: false,
        },
        TerminalEvent::Mouse => Reaction { exit: false, resized: false },
        TerminalEvent::Resize { width, height } => Reaction { exit: false, resized: true },
    }
}

/// Answers an event of the terminal.
pub fn handle_event(window: &mut CrosstermWindow, event: TerminalEvent) -> (reaction: Reaction)
    ensures
        reaction == reaction_to(event),
        final(window).spec_colors() == old(window).spec_colors(),
        final(window).spec_title() == old(window).spec_title(),
        match event {
            TerminalEvent::Resize { width, height } => final(window).spec_width() == width
                && final(window).spec_height() == height,
            _ => {
                &&& final(window).spec_width() == old(window).spec_width()
                &&& final(window).spec_height() == old(window).spec_height()
            },
        },
{
    match event {
        TerminalEvent::Key { character, control } => {
            let pressed_c = match character {
                Some(c) => c == 'c',
                None => false,
            };
            Reaction { exit: pressed_c && control, resized: false }
        },
        TerminalEvent::Mouse => Reaction { exit: false, resized: false },
        TerminalEvent::Resize { width, height } => {
            window.resize(width, height);
            Reaction { exit: false, resized: true }
        },
    }
}

/// How long the event loop still waits after a frame that took `elapsed`,
/// where a frame is meant to take `wait`: the rest of that time, if any is
/// left. Both are in nanoseconds.
pub fn remaining_delay(wait: Option<u128>, elapsed: u128) -> (delay: Option<u128>)
    ensures
        delay == match wait {
            Some(wait) => if elapsed < wait {
                Some((wait - elapsed) as u128)
            } else {
                None
            },
            None => None,
        },
{
    match wait {
        Some(wait) => if elapsed < wait {
            Some(wait - elapsed)
        } else {
            None
        },
        None => None,
    }
}

} // verus!
