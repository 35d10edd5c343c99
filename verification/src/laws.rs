//! What the library promises, over all inputs.
//!
//! Each law relates what goes in to what comes out, in terms of the values themselves: a number is
//! named by what it is nearest to, a text by what it is made of, and a state by what two calls have
//! in common.

pub mod bus;
pub mod calls;
pub mod context;
pub mod forms;
pub mod frames;
pub mod gpu;
pub mod outcomes;
pub mod pressure;
pub mod readings;
pub mod repeats;
pub mod script;
pub mod sensors;
pub mod stand_ins;
pub mod texts;
pub mod triggers;
pub mod turns;
