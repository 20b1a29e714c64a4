//! Choosing between optional values.

use vstd::prelude::*;

verus! {

/// The first value if there is one, else the second.
pub open spec fn either<T>(first: Option<T>, second: Option<T>) -> Option<T> {
    match first {
        Some(_) => first,
        None => second,
    }
}

/// The value if there is one, else the default.
pub open spec fn value_or<T>(value: Option<T>, default: T) -> T {
    match value {
        Some(value) => value,
        None => default,
    }
}

/// The first value, else the second, else the default.
pub(crate) fn pick<T>(first: Option<T>, second: Option<T>, default: T) -> (picked: T)
    ensures
        picked == value_or(either(first, second), default),
{
    match first {
        Some(value) => value,
        None => match second {
            Some(value) => value,
            None => default,
        },
    }
}

/// The first value if there is one, else the second.
pub(crate) fn pick_either<T>(first: Option<T>, second: Option<T>) -> (picked: Option<T>)
    ensures
        picked == either(first, second),
{
    match first {
        Some(value) => Some(value),
        None => second,
    }
}

} // verus!
