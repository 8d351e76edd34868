//! What the bits of a single mean: the eight bits behind the sign are the exponent,
//! the others the fraction, and numbers are ordered as they should be.

use crate::ieee;
use vstd::prelude::*;

verus! {

/// The exponent bits of a single.
pub open spec fn exponent(bits: u32) -> int {
    (bits as int / 0x80_0000) % 256
}

/// The fraction bits of a single.
pub open spec fn fraction(bits: u32) -> int {
    bits as int % 0x80_0000
}

/// Does the single have a minus sign?
pub open spec fn minus(bits: u32) -> bool {
    bits as int / 0x8000_0000 == 1
}

/// A single is finite unless all bits of its exponent stand; of those, it is no
/// number unless its fraction is zero.
pub proof fn numbers_are_told_by_exponent(bits: u32)
    ensures
        ieee::finite(bits) <==> exponent(bits) != 255,
        ieee::nan(bits) <==> exponent(bits) == 255 && fraction(bits) != 0,
        ieee::signed(bits) <==> minus(bits),
{
}

/// Among numbers of one sign the exponent counts first, then the fraction; negative
/// numbers go before positive ones, the other way round among themselves; the two
/// zeros are equal; and nothing is less than what is no number, nor greater.
pub proof fn numbers_are_ordered_by_value(a: u32, b: u32)
    ensures
        ieee::nan(a) || ieee::nan(b) ==> !ieee::less(a, b) && !ieee::at_least(a, b),
        !ieee::nan(a) && !ieee::nan(b) ==> (ieee::at_least(a, b) <==> !ieee::less(a, b)),
        !ieee::nan(a) && !ieee::nan(b) && !minus(a) && !minus(b) ==> (ieee::less(a, b) <==> exponent(
            a,
        ) < exponent(b) || (exponent(a) == exponent(b) && fraction(a) < fraction(b))),
        !ieee::nan(a) && !ieee::nan(b) && minus(a) && minus(b) ==> (ieee::less(a, b) <==> exponent(b)
            < exponent(a) || (exponent(a) == exponent(b) && fraction(b) < fraction(a))),
        !ieee::nan(a) && !ieee::nan(b) && minus(a) && !minus(b) ==> (ieee::less(a, b) <==> !(exponent(
            a,
        ) == 0 && fraction(a) == 0 && exponent(b) == 0 && fraction(b) == 0)),
        !minus(a) && minus(b) ==> !ieee::less(a, b),
{
}

/// Below zero is what has a minus sign, but for the negative zero and what is no
/// number.
pub proof fn negative_numbers_are_below_zero(bits: u32)
    ensures
        ieee::below_zero(bits) <==> minus(bits) && !ieee::nan(bits) && !(exponent(bits) == 0
            && fraction(bits) == 0),
        ieee::below_zero(bits) <==> 0x8000_0000 < bits <= 0xff80_0000,
{
}

/// Holding a number between zero and one keeps those that are, makes zero of those
/// below and one of those above, and leaves what is no number.
pub proof fn numbers_are_held_in_the_unit(bits: u32)
    ensures
        ieee::below_zero(bits) ==> ieee::clamped(bits) == 0,
        0x3f80_0000 < bits <= 0x7f80_0000 ==> ieee::clamped(bits) == 0x3f80_0000,
        bits <= 0x3f80_0000 ==> ieee::clamped(bits) == bits,
        bits == 0x8000_0000 ==> ieee::clamped(bits) == bits,
        ieee::nan(bits) ==> ieee::clamped(bits) == bits,
        ieee::in_unit(bits) <==> bits <= 0x3f80_0000 || bits == 0x8000_0000,
{
}

/// The opposite of a number differs in its sign alone.
pub proof fn opposites_differ_in_sign(bits: u32)
    ensures
        minus(ieee::opposite(bits)) != minus(bits),
        exponent(ieee::opposite(bits)) == exponent(bits),
        fraction(ieee::opposite(bits)) == fraction(bits),
{
}

/// In the total order whatever has a minus sign goes before whatever has none, and
/// where the numbers differ the total order is theirs.
pub proof fn total_order_keeps_order(a: u32, b: u32)
    ensures
        minus(a) && !minus(b) ==> ieee::total_rank(a) < ieee::total_rank(b),
        ieee::less(a, b) ==> ieee::total_rank(a) < ieee::total_rank(b),
        !minus(a) && !ieee::nan(a) && !minus(b) && ieee::nan(b) ==> ieee::total_rank(a)
            < ieee::total_rank(b),
        minus(a) && ieee::nan(a) && !ieee::nan(b) ==> ieee::total_rank(a) < ieee::total_rank(b),
{
}

} // verus!
