//! Sources of code or data.

use crate::types::{BuildError, Sha256};
use vstd::prelude::*;

verus! {

/// A source of code or data that can be fetched, typically a remote repository
/// that is brought up to date before actions run.
pub trait Source {
    /// The current hash (e.g. commit) of the source.
    fn current_sha(&self) -> Result<Sha256, BuildError>;

    /// Fetches the latest data from the source.
    fn fetch(&mut self) -> Result<(), BuildError>;
}

} // verus!
