//! The values that names are bound to.

use vstd::prelude::*;

verus! {

/// A value of the language.
#[derive(Clone, Copy, Debug, PartialEq, Eq, Structural)]
pub enum Value {
    Number(i32),
    Unit,
}

} // verus!
