//! The packages that a lockfile pins.

use vstd::prelude::*;

verus! {

/// One entry of a lockfile.
#[derive(Clone, Debug, PartialEq, Eq)]
pub struct LockfilePackage {
    pub name: String,
    pub version: String,
    /// The names of the packages that this one depends on.
    pub dependencies: Vec<String>,
    pub is_root: bool,
}

/// The contents of a lockfile.
#[derive(Clone, Debug, PartialEq, Eq)]
pub struct LockfileGraph {
    pub packages: Vec<LockfilePackage>,
}

} // verus!
