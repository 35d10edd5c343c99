//! The resource manager of an on-device inference engine.
//!
//! Monitors report memory, compute, temperature and power as signals. A policy, which is a Lua
//! script, turns them into commands, and the commands go to the engine as numbered directives.
//! The engine answers each directive and reports its state in heartbeats.
//!
//! Signals enter at [`service`], which runs the policy of [`lua_policy`] and holds back what
//! repeats ([`pipeline`]). What a script sees is built in [`lua`], from the readings and triggers
//! of [`policy`]. The messages are in [`wire`]. [`mock_engine`] and [`mock_manager`] stand in for
//! either side. Numbers with a fraction are those of [`float`].

pub mod config;
pub mod emitter;
pub mod float;
pub mod laws;
pub mod lua;
pub mod lua_policy;
pub mod mock_engine;
pub mod mock_manager;
pub mod monitor;
pub mod pipeline;
pub mod policy;
pub mod service;
pub mod signal;
pub mod text;
pub mod types;
pub mod wire;
