//! The policy's own state.

pub mod common;
