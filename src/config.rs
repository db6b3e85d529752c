//! The launcher's configuration: the command tree and display hints, and the
//! options given on the command line.

use vstd::prelude::*;
use crate::bindings::Shortcut;
use crate::commands::Command;
use crate::window_position::WindowPosition;

verus! {

/// The loaded configuration.
#[derive(Debug)]
pub struct SpacerunConfig {
    /// The root of the command tree.
    pub commands: Command,
    /// The font size that the user interface should use, if set.
    pub font_size: Option<u32>,
    /// Where the user interface should place its window, if set.
    pub position: Option<WindowPosition>,
}

impl SpacerunConfig {
    /// The font size to use: the configured one, else `default`.
    pub fn font_size_or(&self, default: u32) -> (r: u32)
        ensures
            r == match self.font_size {
                Some(size) => size,
                None => default,
            },
    {
        match self.font_size {
            Some(size) => size,
            None => default,
        }
    }
}

/// The options given on the command line.
#[derive(Debug, Clone, Copy, PartialEq, Eq, Structural)]
pub struct Options {
    /// A shortcut to press once before the first display.
    pub initial_shortcut: Option<Shortcut>,
}

} // verus!
