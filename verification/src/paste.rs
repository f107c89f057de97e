//! The Paste app exists on macOS only; elsewhere the paste panel is empty
//! and its commands answer that it is not there.

use vstd::prelude::*;

use crate::text::owned;

verus! {

/// What the paste panel shows.
pub struct PasteState {
    pub available: bool,
    pub items: Vec<()>,
}

/// The paste panel where there is no Paste app.
pub struct PasteHub;

impl PasteHub {
    /// Never available, never any items.
    pub fn current(&self) -> (r: PasteState)
        ensures
            !r.available,
            r.items@.len() == 0,
    {
        PasteState { available: false, items: Vec::new() }
    }
}

pub open spec fn not_here() -> Seq<char> {
    "Paste is only available on macOS"@
}

/// Copying an entry needs the Paste app.
pub fn paste_copy(id: i64) -> (r: Result<(), String>)
    ensures
        r matches Err(e) && e@ == not_here(),
{
    Err(owned("Paste is only available on macOS"))
}

/// Showing Paste's panel needs the Paste app.
pub fn paste_show() -> (r: Result<(), String>)
    ensures
        r matches Err(e) && e@ == not_here(),
{
    Err(owned("Paste is only available on macOS"))
}

} // verus!
