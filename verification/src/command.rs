//! What the renderer asks of the terminal.

use crate::style::{Attributes, Colors};
use vstd::prelude::*;

verus! {

/// One request to the terminal.
#[derive(Clone, Debug, PartialEq, Eq)]
pub enum Command {
    /// Hides the cursor.
    Hide,
    /// Shows the cursor.
    Show,
    /// Erases the whole screen.
    ClearAll,
    /// Switches every text attribute off.
    ResetAttributes,
    /// Switches the given text attributes on.
    SetAttributes(Attributes),
    /// Sets the colors. A channel that is left unset stays as it is.
    SetColors(Colors),
    /// Moves the cursor to a column and a row.
    MoveTo(u16, u16),
    /// Moves the cursor to the right by a number of columns.
    MoveRight(u16),
    /// Writes a text where the cursor is.
    Print(String),
}

/// A request to the terminal, with its text as a sequence of characters.
pub enum CommandView {
    Hide,
    Show,
    ClearAll,
    ResetAttributes,
    SetAttributes(Attributes),
    SetColors(Colors),
    MoveTo(u16, u16),
    MoveRight(u16),
    Print(Seq<char>),
}

impl DeepView for Command {
    type V = CommandView;

    open spec fn deep_view(&self) -> CommandView {
        match *self {
            Command::Hide => CommandView::Hide,
            Command::Show => CommandView::Show,
            Command::ClearAll => CommandView::ClearAll,
            Command::ResetAttributes => CommandView::ResetAttributes,
            Command::SetAttributes(attributes) => CommandView::SetAttributes(attributes),
            Command::SetColors(colors) => CommandView::SetColors(colors),
            Command::MoveTo(x, y) => CommandView::MoveTo(x, y),
            Command::MoveRight(columns) => CommandView::MoveRight(columns),
            Command::Print(text) => CommandView::Print(text@),
        }
    }
}

/// Pushing a request onto a list pushes its view onto the view of the list.
pub proof fn lemma_push_command(commands: Seq<Command>, command: Command)
    ensures
        commands.push(command).map_values(|c: Command| c.deep_view()) == commands.map_values(
            |c: Command| c.deep_view(),
        ).push(command.deep_view()),
{
    assert(commands.push(command).map_values(|c: Command| c.deep_view())
        =~= commands.map_values(|c: Command| c.deep_view()).push(command.deep_view()));
}

/// The requests of a list, each as its view.
pub open spec fn views(commands: Seq<Command>) -> Seq<CommandView> {
    commands.map_values(|c: Command| c.deep_view())
}

/// A text of `count` spaces.
pub fn spaces(count: u16) -> (text: String)
    ensures
        text@ == Seq::new(count as nat, |i: int| ' '),
{
    let mut text = String::new();
    let mut i: u16 = 0;
    proof {
        reveal_strlit(" ");
    }
    assert(text@ =~= Seq::new(0, |i: int| ' '));
    while i < count
        invariant
            i <= count,
            text@ == Seq::new(i as nat, |i: int| ' '),
            " "@ == seq![' '],
        decreases count - i,
    {
        text.append(" ");
        i += 1;
        assert(text@ =~= Seq::new(i as nat, |i: int| ' '));
    }
    text
}

} // verus!
