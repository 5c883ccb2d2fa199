//! Small comparisons on owned strings.

use vstd::prelude::*;

verus! {

/// The characters of an optional string.
pub open spec fn opt_string_view(s: Option<String>) -> Option<Seq<char>> {
    match s {
        Some(x) => Some(x@),
        None => None,
    }
}

/// `==` on two optional strings.
pub fn opt_string_eq(a: &Option<String>, b: &Option<String>) -> (eq: bool)
    ensures
        eq == (opt_string_view(*a) == opt_string_view(*b)),
{
    match (a, b) {
        (Some(x), Some(y)) => *x == *y,
        (None, None) => true,
        _ => false,
    }
}

} // verus!
