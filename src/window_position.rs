//! Where the launcher window is placed on the screen.

use vstd::prelude::*;

verus! {

/// A placement hint for the window, passed on to the user interface.
#[derive(Debug, Clone, Copy, PartialEq, Eq, Structural)]
pub enum WindowPosition {
    Top,
    Bottom,
    Centered,
}

} // verus!
