//! What the terminal window is asked to look like when it is set up.

use crate::style::{Color, Colors};
use vstd::prelude::*;

verus! {

/// The colors and the title that the window starts with.
#[derive(Clone, Debug, PartialEq, Eq)]
pub struct CrosstermWindowSettings {
    colors: Colors,
    title: Option<String>,
}

impl Default for CrosstermWindowSettings {
    /// The terminal's own colors, and no title.
    fn default() -> (settings: Self)
        ensures
            settings.spec_colors() == (Colors {
                foreground: Some(Color::Reset),
                background: Some(Color::Reset),
            }),
            settings.spec_title() is None,
    {
        CrosstermWindowSettings { colors: Colors::term_colors(), title: None }
    }
}

impl CrosstermWindowSettings {
    pub closed spec fn spec_colors(&self) -> Colors {
        self.colors
    }

    /// The title, as its characters.
    pub closed spec fn spec_title(&self) -> Option<Seq<char>> {
        match self.title {
            Some(title) => Some(title@),
            None => None,
        }
    }

    pub fn colors(&self) -> (colors: Colors)
        ensures
            colors == self.spec_colors(),
    {
        self.colors
    }

    pub fn title(&self) -> (title: &Option<String>)
        ensures
            match *title {
                Some(text) => self.spec_title() == Some(text@),
                None => self.spec_title() is None,
            },
    {
        &self.title
    }

    /// Sets the title, and hands the settings back for the next change.
    pub fn set_title(&mut self, title: &str) -> (settings: &mut Self)
        ensures
            settings.spec_title() == Some(title@),
            settings.spec_colors() == old(self).spec_colors(),
            *final(self) == *final(settings),
    {
        self.title = Some(title.to_owned());
        self
    }

    /// Sets the colors, and hands the settings back for the next change.
    pub fn set_colors(&mut self, colors: Colors) -> (settings: &mut Self)
        ensures
            settings.spec_colors() == colors,
            settings.spec_title() == old(self).spec_title(),
            *final(self) == *final(settings),
    {
        self.colors = colors;
        self
    }
}

} // verus!
