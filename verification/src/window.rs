//! The terminal window as the renderer sees it.

use crate::style::Colors;
use crate::window_settings::CrosstermWindowSettings;
use vstd::prelude::*;

verus! {

/// The size of the terminal in cells, its ambient colors and its title.
#[derive(Debug)]
pub struct CrosstermWindow {
    height: u16,
    width: u16,
    colors: Colors,
    title: Option<String>,
}

impl CrosstermWindow {
    pub closed spec fn spec_height(&self) -> u16 {
        self.height
    }

    pub closed spec fn spec_width(&self) -> u16 {
        self.width
    }

    pub closed spec fn spec_colors(&self) -> Colors {
        self.colors
    }

    /// The title, as its characters.
    pub closed spec fn spec_title(&self) -> Option<Seq<char>> {
        match self.title {
            Some(title) => Some(title@),
            None => None,
        }
    }

    /// A window of the given size, with the colors and the title of
    /// `settings`.
    pub fn new(width: u16, height: u16, settings: &CrosstermWindowSettings) -> (window:
        CrosstermWindow)
        ensures
            window.spec_width() == width,
            window.spec_height() == height,
            window.spec_colors() == settings.spec_colors(),
            window.spec_title() == settings.spec_title(),
    {
        let title = match settings.title() {
            Some(text) => Some(text.clone()),
            None => None,
        };
        CrosstermWindow { height, width, colors: settings.colors(), title }
    }

    pub fn height(&self) -> (height: u16)
        ensures
            height == self.spec_height(),
    {
        self.height
    }

    pub fn width(&self) -> (width: u16)
        ensures
            width == self.spec_width(),
    {
        self.width
    }

    pub fn title(&self) -> (title: Option<&str>)
        ensures
            match title {
                Some(text) => self.spec_title() == Some(text@),
                None => self.spec_title() is None,
            },
    {
        match &self.title {
            Some(text) => Some(text.as_str()),
            None => None,
        }
    }

    pub fn colors(&self) -> (colors: Colors)
        ensures
            colors == self.spec_colors(),
    {
        self.colors
    }

    pub fn set_colors(&mut self, new_colors: Colors)
        ensures
            final(self).spec_colors() == new_colors,
            final(self).spec_width() == old(self).spec_width(),
            final(self).spec_height() == old(self).spec_height(),
            final(self).spec_title() == old(self).spec_title(),
    {
        self.colors = new_colors;
    }

    /// Takes over the size that the terminal was resized to.
    pub fn resize(&mut self, width: u16, height: u16)
        ensures
            final(self).spec_width() == width,
            final(self).spec_height() == height,
            final(self).spec_colors() == old(self).spec_colors(),
            final(self).spec_title() == old(self).spec_title(),
    {
        self.width = width;
        self.height = height;
    }

    /// The middle column, rounded down.
    pub fn x_center(&self) -> (center: u16)
        ensures
            center == self.spec_width() / 2,
    {
        self.width / 2
    }

    /// The middle row, rounded down.
    pub fn y_center(&self) -> (center: u16)
        ensures
            center == self.spec_height() / 2,
    {
        self.height / 2
    }
}

} // verus!
