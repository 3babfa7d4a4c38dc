use vstd::prelude::*;
use vstd::std_specs::cmp::{PartialOrdIs, PartialOrdSpec};

verus! {

/// The larger of `a` and `b`: `a` where `a >= b` holds, else `b` (so `b`
/// where the two are unordered).
pub fn max<T: PartialOrd + Copy>(a: T, b: T) -> (r: T)
    ensures
        r == a || r == b,
        T::obeys_partial_cmp_spec() ==> r == (if a.is_ge(&b) { a } else { b }),
{
    if a >= b {
        a
    } else {
        b
    }
}

} // verus!
