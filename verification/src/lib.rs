//! Event wiring for declarative-markup UI widgets.
//!
//! The library models the reactive core of a widget harness: per-entity
//! component tables, a fire-once debounce that turns many value-change
//! notifications into at most one committed callback per mouse release,
//! a named registry binding markup strings to callbacks and templates,
//! and two-decimal formatting of slider values for text labels.

pub mod fire;
pub mod format;
pub mod registry;
pub mod systems;
pub mod table;
