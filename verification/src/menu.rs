//! The state of the menu flow: which screen the menu shows.

use vstd::prelude::*;

verus! {

/// The screen the menu currently shows.
#[derive(Debug, Clone, Copy, PartialEq, Eq, Structural)]
pub enum Step {
    Exit,
    Main,
    Settings,
}

} // verus!
