//! The signal of a `return`.

use crate::token::Value;
use vstd::prelude::*;

verus! {

/// What a `return` statement raises: the value on its way to the boundary
/// of the innermost call.
#[derive(Debug)]
pub struct Return {
    pub value: Value,
}

impl Return {
    pub fn new(value: Value) -> (signal: Self)
        ensures
            signal.value == value,
    {
        Self { value }
    }
}

} // verus!
