//! Items that stand beside a schema without being part of it.

use vstd::prelude::*;

verus! {

/// This is not in the schema.
#[derive(Clone, Copy, PartialEq, Eq, Structural, Debug)]
pub enum NotHere {
    A,
    B,
}

} // verus!
