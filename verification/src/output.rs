//! The closed set of category tags.

use vstd::prelude::*;

verus! {

/// A category tag: produced by a boolean-stage rule, consumed as the key of
/// an arithmetic-stage rule.
#[derive(Debug, Clone, Copy, PartialEq, Eq, Structural)]
pub enum H {
    M,
    P,
    T,
}

} // verus!
