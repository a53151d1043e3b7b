//! Verified core of an animated clock/stopwatch widget.
//!
//! Two components carry the logic: the timekeeping state machine
//! ([`model::Model`] driving [`state::State`]) and the persistent-state
//! codec ([`save_data::SaveData`]).  Everything the widget decides each
//! tick — which mode it is in, which skin is visible, when it quits —
//! is specified and proved here; rendering and I/O live outside.

pub mod error;
pub mod model;
pub mod hash;
pub mod save_data;
pub mod settings;
pub mod settings_loader;
pub mod state;
