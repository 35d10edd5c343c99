//! How signals leave the manager.

pub mod dbus;
