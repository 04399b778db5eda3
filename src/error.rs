//! Why an inspection failed.

use vstd::prelude::*;

verus! {

/// The failure of one binary's inspection.
#[derive(Debug)]
pub enum LinkageError {
    /// The target is not recognised, or the file is not in the format its target uses.
    UnsupportedBinary,
    /// The target's inspection cannot run on this host operating system.
    InvalidOs { host: String, target: String },
    /// The object parser rejected the file.
    Object(goblin::error::Error),
}

} // verus!
