//! Externally visible session modes.

use vstd::prelude::*;

verus! {

/// Mode of a simulation session as host management sees it.
#[derive(Clone, Copy, Debug, PartialEq, Eq, Structural, Hash)]
pub enum SessionMode {
    Running,
    Paused,
    Quarantined,
    Failed,
}

} // verus!
