//! The contract of a standard-library function that the lists call and that
//! `vstd` leaves without one. It is taken on trust.

use vstd::prelude::*;

verus! {

/// `core::mem::replace` moves `src` into `dest` and hands back what `dest`
/// held before. It is a plain move of two values: it cannot fail.
pub assume_specification<T>[ core::mem::replace::<T> ](dest: &mut T, src: T) -> (prev: T)
    ensures
        *final(dest) == src,
        prev == *old(dest),
;

} // verus!
