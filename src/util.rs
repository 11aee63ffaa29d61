//! Helpers that are not part of the public interface.

use vstd::prelude::*;

verus! {

/// A trait that only this crate can implement: it is public but lives in a
/// private module, so no other crate can name it.
pub trait Sealed {}

} // verus!
