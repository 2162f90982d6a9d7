//! Comparison of names.

use vstd::prelude::*;

verus! {

/// Whether two names are the same.
pub fn same(a: &str, b: &str) -> (r: bool)
    ensures
        r == (a@ == b@),
{
    a.to_owned() == b.to_owned()
}

} // verus!
