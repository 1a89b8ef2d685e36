//! A helper for code that holds a result it knows to be good.

use vstd::prelude::*;

verus! {

/// The value of a result that is `Ok`. `message` says what the caller was
/// doing; it is of use only to a caller who breaks the precondition.
pub fn assert_ok<T, E: std::fmt::Debug>(result: Result<T, E>, message: &str) -> (value: T)
    requires
        result is Ok,
    ensures
        result == Ok::<T, E>(value),
{
    match result {
        Ok(value) => value,
        Err(_) => unreached(),
    }
}

} // verus!
