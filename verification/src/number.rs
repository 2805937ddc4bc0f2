//! Doubles as bit patterns, and the arithmetic that the caller supplies.

use std::cmp::Ordering;
use vstd::prelude::*;
use vstd::string::*;

verus! {

/// Bit pattern of the double `1.0`.
pub const ONE: u64 = 0x3ff0_0000_0000_0000;

/// Bit pattern of the double `+0.0`.
pub const ZERO: u64 = 0;

/// The four operations on two doubles that the library asks of its caller.
#[derive(Clone, Copy, Debug, PartialEq, Eq, Structural)]
pub enum ArithOp {
    Add,
    Sub,
    Mul,
    Div,
}

/// `arith` may be called on every triple of arguments, and each triple has
/// at most one result.
pub open spec fn functional<A: Fn(ArithOp, u64, u64) -> u64>(arith: &A) -> bool {
    &&& forall|op: ArithOp, a: u64, b: u64| arith.requires((op, a, b))
    &&& forall|op: ArithOp, a: u64, b: u64, r1: u64, r2: u64|
        arith.ensures((op, a, b), r1) && arith.ensures((op, a, b), r2) ==> r1 == r2
}

/// What `arith` returns for `op` on `a` and `b`.
pub open spec fn answer<A: Fn(ArithOp, u64, u64) -> u64>(
    arith: &A,
    op: ArithOp,
    a: u64,
    b: u64,
) -> u64 {
    choose|r: u64| arith.ensures((op, a, b), r)
}

/// The arithmetic of `arith` as a mathematical function.
pub open spec fn oracle<A: Fn(ArithOp, u64, u64) -> u64>(arith: &A) -> spec_fn(
    ArithOp,
    u64,
    u64,
) -> u64 {
    |op: ArithOp, a: u64, b: u64| answer(arith, op, a, b)
}

/// Calls `arith` once.
pub fn apply<A: Fn(ArithOp, u64, u64) -> u64>(arith: &A, op: ArithOp, a: u64, b: u64) -> (r: u64)
    requires
        functional(arith),
    ensures
        arith.ensures((op, a, b), r),
        r == oracle(arith)(op, a, b),
{
    arith(op, a, b)
}

/// The pattern without its sign bit.
pub open spec fn magnitude(bits: u64) -> u64 {
    bits & 0x7fff_ffff_ffff_ffff
}

/// The sign bit is set.
pub open spec fn is_negative(bits: u64) -> bool {
    bits & 0x8000_0000_0000_0000 != 0
}

/// The pattern is one of the NaNs: all exponent bits set, fraction not zero.
pub open spec fn is_nan(bits: u64) -> bool {
    magnitude(bits) > 0x7ff0_0000_0000_0000
}

/// The pattern of the negated double: the sign bit flipped.
pub open spec fn negated(bits: u64) -> u64 {
    bits ^ 0x8000_0000_0000_0000
}

/// Place of a double that is no NaN on the number line: doubles of one sign
/// are ordered as their magnitudes are, and the two zeros share a place.
pub open spec fn place(bits: u64) -> int {
    if is_negative(bits) {
        -(magnitude(bits) as int)
    } else {
        magnitude(bits) as int
    }
}

/// The order of two doubles; a NaN is ordered with nothing.
pub open spec fn order(a: u64, b: u64) -> Option<Ordering> {
    if is_nan(a) || is_nan(b) {
        None
    } else if place(a) < place(b) {
        Some(Ordering::Less)
    } else if place(a) == place(b) {
        Some(Ordering::Equal)
    } else {
        Some(Ordering::Greater)
    }
}

/// The eleven exponent bits.
pub open spec fn exponent(bits: u64) -> u64 {
    (bits >> 52) & 0x7ff
}

/// The fifty-two fraction bits.
pub open spec fn fraction(bits: u64) -> u64 {
    bits & 0x000f_ffff_ffff_ffff
}

/// The double cut to a whole number of 64 bits: NaN and everything below one
/// give 0, everything from 2^64 on gives the largest value.
pub open spec fn whole(bits: u64) -> u64 {
    if is_nan(bits) || is_negative(bits) || exponent(bits) < 1023 {
        0
    } else if exponent(bits) >= 1087 {
        u64::MAX
    } else if exponent(bits) <= 1075 {
        (fraction(bits) | 0x0010_0000_0000_0000) >> ((1075 - exponent(bits)) as u64)
    } else {
        (fraction(bits) | 0x0010_0000_0000_0000) << ((exponent(bits) - 1075) as u64)
    }
}

/// `whole`, held to what a `usize` can take.
pub open spec fn count(bits: u64) -> usize {
    if whole(bits) > usize::MAX {
        usize::MAX
    } else {
        whole(bits) as usize
    }
}

pub fn number_is_nan(bits: u64) -> (r: bool)
    ensures
        r == is_nan(bits),
{
    (bits & 0x7fff_ffff_ffff_ffff) > 0x7ff0_0000_0000_0000
}

pub fn negate(bits: u64) -> (r: u64)
    ensures
        r == negated(bits),
{
    bits ^ 0x8000_0000_0000_0000
}

pub fn from_bool(b: bool) -> (r: u64)
    ensures
        r == if b { ONE } else { ZERO },
{
    if b {
        ONE
    } else {
        ZERO
    }
}

/// Compares two doubles as IEEE 754 orders them.
pub fn compare(a: u64, b: u64) -> (r: Option<Ordering>)
    ensures
        r == order(a, b),
{
    if number_is_nan(a) || number_is_nan(b) {
        return None;
    }
    let ma: u64 = a & 0x7fff_ffff_ffff_ffff;
    let mb: u64 = b & 0x7fff_ffff_ffff_ffff;
    let na: bool = a & 0x8000_0000_0000_0000 != 0;
    let nb: bool = b & 0x8000_0000_0000_0000 != 0;
    if na && nb {
        if ma > mb {
            Some(Ordering::Less)
        } else if ma == mb {
            Some(Ordering::Equal)
        } else {
            Some(Ordering::Greater)
        }
    } else if na {
        if ma == 0 && mb == 0 {
            Some(Ordering::Equal)
        } else {
            Some(Ordering::Less)
        }
    } else if nb {
        if ma == 0 && mb == 0 {
            Some(Ordering::Equal)
        } else {
            Some(Ordering::Greater)
        }
    } else {
        if ma < mb {
            Some(Ordering::Less)
        } else if ma == mb {
            Some(Ordering::Equal)
        } else {
            Some(Ordering::Greater)
        }
    }
}

/// Cuts a double to the number of repetitions it stands for.
pub fn truncate(bits: u64) -> (r: usize)
    ensures
        r == count(bits),
{
    let e: u64 = (bits >> 52) & 0x7ff;
    let negative: bool = bits & 0x8000_0000_0000_0000 != 0;
    assert(e <= 0x7ff) by (bit_vector)
        requires
            e == (bits >> 52) & 0x7ff,
    ;
    let w: u64 = if number_is_nan(bits) || negative || e < 1023 {
        0
    } else if e >= 1087 {
        u64::MAX
    } else if e <= 1075 {
        ((bits & 0x000f_ffff_ffff_ffff) | 0x0010_0000_0000_0000) >> (1075 - e)
    } else {
        ((bits & 0x000f_ffff_ffff_ffff) | 0x0010_0000_0000_0000) << (e - 1075)
    };
    if w > usize::MAX as u64 {
        usize::MAX
    } else {
        w as usize
    }
}

/// `read` may be called on every text, and texts of the same characters
/// have the same result.
pub open spec fn reads<P: Fn(String) -> u64>(read: &P) -> bool {
    &&& forall|s: String| read.requires((s,))
    &&& forall|s1: String, s2: String, r1: u64, r2: u64|
        s1@ == s2@ && read.ensures((s1,), r1) && read.ensures((s2,), r2) ==> r1 == r2
}

/// `read` may return `r` for a string of the characters `text`.
pub open spec fn yields<P: Fn(String) -> u64>(read: &P, text: Seq<char>, r: u64) -> bool {
    exists|s: String| (#[trigger] read.ensures((s,), r)) && s@ == text
}

/// The reading of decimal literals by `read` as a mathematical function:
/// from the characters of a literal to the bit pattern of its double.
pub open spec fn reading<P: Fn(String) -> u64>(read: &P) -> spec_fn(Seq<char>) -> u64 {
    |text: Seq<char>| choose|r: u64| yields(read, text, r)
}

/// Calls `read` once.
pub fn read_number<P: Fn(String) -> u64>(read: &P, text: String) -> (r: u64)
    requires
        reads(read),
    ensures
        yields(read, text@, r),
        r == reading(read)(text@),
{
    let ghost given = text;
    let r = read(text);
    assert(yields(read, given@, r));
    r
}

} // verus!
