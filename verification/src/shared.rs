//! Shared ownership of lines: a line is held by every surface that it
//! bounds, behind a counted reference.

use std::rc::Rc;
use vstd::prelude::*;

verus! {

/// `Rc::clone`: another reference to the same value, which is not copied.
#[verifier::external_body]
pub(crate) fn share<T>(value: &Rc<T>) -> (shared: Rc<T>)
    ensures
        shared == *value,
{
    Rc::clone(value)
}

} // verus!
