//! Plain configuration records, as the settings loader hands them to
//! the library: texture names, threshold times and threshold events.
//! How they are read from disk is the host's business.

use vstd::prelude::*;

verus! {

/// A named texture and the path it is loaded from.
#[derive(Debug, Clone, PartialEq)]
pub struct TextureElement {
    pub name: String,
    pub path: String,
}

/// A threshold time as configured, field by field.  Validation bounds
/// each field ([`crate::settings_loader::time_elem_ok`]) before the
/// value becomes a [`crate::state::WatchTime`].
#[derive(Debug, Clone, Copy, PartialEq, Eq, Structural)]
pub struct TimeElement {
    pub centiseconds: u32,
    pub seconds: u32,
    pub minutes: u32,
    pub hours: u32,
}

/// A configured skin-switch event: a skin name and the time it takes
/// effect from.
#[derive(Debug, Clone, PartialEq)]
pub struct EventElement {
    pub skin_name: String,
    pub from: TimeElement,
}

} // verus!
