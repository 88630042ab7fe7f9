//! Contracts for the two `String` methods that building converted text uses and
//! that vstd leaves unspecified.
use vstd::prelude::*;

verus! {

/// `String::with_capacity` makes an empty string; the capacity it reserves is an
/// allocation detail that nothing here relies on, so only emptiness is claimed.
pub assume_specification[ String::with_capacity ](capacity: usize) -> (res: String)
    ensures
        res@ == Seq::<char>::empty(),
;

/// `String::push` appends the one character it is given at the end of the string.
pub assume_specification[ String::push ](s: &mut String, ch: char)
    ensures
        final(s)@ == old(s)@.push(ch),
;

} // verus!
