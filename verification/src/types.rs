//! The mode that the manager runs in.

use vstd::prelude::*;

verus! {

/// How hard the system is pressed, from the mildest mode to the hardest.
#[derive(Debug, Clone, Copy, PartialEq, Eq, PartialOrd, Ord, Structural)]
pub enum OperatingMode {
    Normal,
    Warning,
    Critical,
}

} // verus!
