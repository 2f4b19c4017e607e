//! What the library takes for granted of the standard library's text.

use vstd::prelude::*;

verus! {

/// `str`'s equality: two string slices are equal exactly when they hold the
/// same characters.
pub assume_specification[ <str as PartialEq>::eq ](left: &str, right: &str) -> (equal: bool)
    ensures
        equal == (left@ == right@),
;

} // verus!
