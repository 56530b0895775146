//! The actions a reader can ask of the session. The terminal layer maps
//! key presses onto these; the session maps them onto state
//! transitions.

use vstd::prelude::*;

verus! {

/// One user action, as the input layer reports it.
#[derive(Debug, Clone, Copy, PartialEq, Eq, Structural)]
pub enum UserAction {
    Quit,
    NextChapter,
    PreviousChapter,
    ScrollDown,
    ScrollUp,
    PageDown,
    PageUp,
    ViewImage,
}

} // verus!
