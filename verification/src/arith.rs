//! Integer arithmetic as the language and the machine do it.

use vstd::prelude::*;

verus! {

/// The quotient of `x` by `d`, rounded toward zero. `d` is not zero.
#[verifier::opaque]
pub open spec fn trunc_div(x: int, d: int) -> int {
    if x >= 0 && d > 0 {
        x / d
    } else if x < 0 && d < 0 {
        (-x) / (-d)
    } else if x < 0 {
        -((-x) / d)
    } else {
        -(x / (-d))
    }
}

/// The remainder of `x` by `d`: it has the sign of `x`, and a magnitude below
/// that of `d`. `d` is not zero.
#[verifier::opaque]
pub open spec fn trunc_rem(x: int, d: int) -> int {
    if x >= 0 && d > 0 {
        x % d
    } else if x < 0 && d < 0 {
        -((-x) % (-d))
    } else if x < 0 {
        -((-x) % d)
    } else {
        x % (-d)
    }
}

/// Whether `x` is a value of the language's integer type.
pub open spec fn fits_int(x: int) -> bool {
    i32::MIN <= x <= i32::MAX
}

/// The 32-bit integer that the machine makes of `x`: the integer of the
/// language that differs from `x` by a multiple of 2 to the power 32.
pub open spec fn wrap32(x: int) -> int {
    (x + 0x8000_0000) % 0x1_0000_0000 - 0x8000_0000
}

/// An integer of the language is what the machine makes of it.
pub proof fn lemma_wrap32_fits(x: int)
    requires
        fits_int(x),
    ensures
        wrap32(x) == x,
{
}

/// `1` for true and `0` for false.
pub open spec fn bit(b: bool) -> int {
    if b {
        1
    } else {
        0
    }
}

} // verus!
