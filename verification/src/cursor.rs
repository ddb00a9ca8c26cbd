//! The text cursor.

use vstd::prelude::*;

verus! {

/// Where the text cursor is shown, if it is shown.
#[derive(Copy, Clone, Debug, PartialEq, Eq, Structural)]
pub struct Cursor {
    pub x: i32,
    pub y: i32,
    pub hidden: bool,
}

impl Default for Cursor {
    /// A hidden cursor in the top left corner.
    fn default() -> (cursor: Self)
        ensures
            cursor == (Cursor { x: 0, y: 0, hidden: true }),
    {
        Cursor { x: 0, y: 0, hidden: true }
    }
}

} // verus!
