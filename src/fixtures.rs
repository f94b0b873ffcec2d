use vstd::prelude::*;

verus! {

/// A fixture with a fixed value.
pub fn fixture() -> (r: u32)
    ensures
        r == 42,
{
    42
}

/// A fixture that another fixture depends on.
pub fn n() -> (r: u32)
    ensures
        r == 24,
{
    24
}

/// A fixture built from the fixture `n`: twice its value.
pub fn f(n: u32) -> (r: u32)
    requires
        n <= u32::MAX / 2,
    ensures
        r == 2 * n,
{
    2 * n
}

} // verus!
