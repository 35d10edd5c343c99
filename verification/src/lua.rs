//! The Lua side of the policy: the virtual machine, what a script sees, and what is decided
//! without one.

pub mod context;
pub mod decision;
pub mod fallback;
pub mod sys;
pub mod vm;
