//! The kinds of manifest that are understood.

use vstd::prelude::*;

verus! {

/// The ecosystem that a manifest belongs to.
#[derive(Clone, Copy, Debug, PartialEq, Eq, Structural)]
pub enum FileType {
    Cargo,
    Npm,
    Python,
    Go,
    Php,
    Dart,
    Csharp,
    Ruby,
    Maven,
}

} // verus!
