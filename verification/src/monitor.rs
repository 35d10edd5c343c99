//! Where readings come from.

pub mod gpu_provider;
