//! The layout of the key-value store: three tables, the keys of `meta`,
//! and how the values of each are packed.

use vstd::prelude::*;

pub mod answersdb;
pub mod metadb;
pub mod queriesdb;

verus! {

/// Version string of the supported binary format.
pub const BIN_FORMAT_VERSION: &'static str = "2018-05-21";

} // verus!
