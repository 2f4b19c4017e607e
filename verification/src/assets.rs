//! Assets that are compiled into the program, handed out without copying.

use std::borrow::Cow;
use vstd::prelude::*;

verus! {

/// The bytes of a compiled-in asset as a borrowed copy-on-write value, as
/// image and vector-graphics handles take them.
pub fn get_static_cow_from_asset(static_asset: &'static [u8]) -> (asset: Cow<'static, [u8]>)
    ensures
        asset == Cow::<'static, [u8]>::Borrowed(static_asset),
        asset@ == static_asset@,
{
    Cow::Borrowed(static_asset)
}

} // verus!
