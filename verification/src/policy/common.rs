//! Shared policy state: normalized per-axis pressure and the enter/exit triggers.

pub mod state;
