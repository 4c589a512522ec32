//! Coordinates: integers ordered like the single-precision numbers they stand for.
use vstd::prelude::*;

verus! {

/// A coordinate.
///
/// The integer holds an IEEE 754 single-precision number in the form in which
/// integer order is numeric order: a number with a clear sign bit is held as
/// its bit pattern, a number with the sign bit set as the negated pattern of
/// its magnitude. Both zeros are held as `0`. Values beyond the two
/// infinities hold no number; the library orders them as the integers they are.
pub type Coord = i32;

/// Positive infinity.
pub const INFINITY: Coord = 0x7f80_0000;

/// Negative infinity.
pub const NEG_INFINITY: Coord = -0x7f80_0000;

/// The number one.
pub const ONE: Coord = 0x3f80_0000;

/// The number minus one.
pub const NEG_ONE: Coord = -0x3f80_0000;

/// The pattern of the sign bit.
pub const SIGN_BIT: u32 = 0x8000_0000;

/// The coordinate that holds the number with the given bit pattern.
pub open spec fn key_of_bits(bits: u32) -> int {
    if bits < SIGN_BIT {
        bits as int
    } else {
        -(bits - SIGN_BIT)
    }
}

/// The bit pattern of the number that a coordinate holds.
pub open spec fn bits_of_key(k: int) -> int {
    if k >= 0 {
        k
    } else if k == i32::MIN {
        u32::MAX as int
    } else {
        SIGN_BIT - k
    }
}

/// The additive inverse of a coordinate. The one integer without an inverse
/// holds no number and goes to the largest integer.
pub open spec fn negated_spec(k: Coord) -> Coord {
    if k == i32::MIN {
        i32::MAX
    } else {
        (-k) as i32
    }
}

/// Converts a single-precision bit pattern to a coordinate.
pub fn from_bits(bits: u32) -> (k: Coord)
    ensures
        k == key_of_bits(bits),
{
    if bits < SIGN_BIT {
        bits as i32
    } else {
        let magnitude: u32 = bits - SIGN_BIT;
        -(magnitude as i32)
    }
}

/// Converts a coordinate to the bit pattern of the number it holds.
pub fn to_bits(k: Coord) -> (bits: u32)
    ensures
        bits == bits_of_key(k as int),
{
    if k >= 0 {
        k as u32
    } else if k == i32::MIN {
        u32::MAX
    } else {
        let magnitude: i32 = -k;
        SIGN_BIT + (magnitude as u32)
    }
}

/// Negates a coordinate.
#[verifier::when_used_as_spec(negated_spec)]
pub fn negated(k: Coord) -> (r: Coord)
    ensures
        r == negated_spec(k),
{
    if k == i32::MIN {
        i32::MAX
    } else {
        -k
    }
}

/// Whether the coordinate is one of the two infinities.
pub open spec fn is_infinite_spec(k: Coord) -> bool {
    k == INFINITY || k == NEG_INFINITY
}

/// Whether the coordinate is one of the two infinities.
#[verifier::when_used_as_spec(is_infinite_spec)]
pub fn is_infinite(k: Coord) -> (r: bool)
    ensures
        r == is_infinite_spec(k),
{
    k == INFINITY || k == NEG_INFINITY
}

/// Converting a coordinate to bits and back gives the coordinate again.
pub proof fn lemma_key_round_trip(k: Coord)
    requires
        k != i32::MIN,
    ensures
        0 <= bits_of_key(k as int) <= u32::MAX,
        key_of_bits(bits_of_key(k as int) as u32) == k,
{
}

/// Converting bits to a coordinate and back gives the bits again, but for
/// the negative zero, which comes back as the positive one.
pub proof fn lemma_bits_round_trip(bits: u32)
    ensures
        i32::MIN < key_of_bits(bits) <= i32::MAX,
        bits != SIGN_BIT ==> bits_of_key(key_of_bits(bits)) == bits,
        bits == SIGN_BIT ==> bits_of_key(key_of_bits(bits)) == 0,
{
}

/// Among patterns of one sign the larger magnitude lies further from zero,
/// and no pattern with the sign bit set lies above one with the bit clear.
pub proof fn lemma_key_order(a: u32, b: u32)
    ensures
        a < SIGN_BIT && b < SIGN_BIT ==> (a < b <==> key_of_bits(a) < key_of_bits(b)),
        a >= SIGN_BIT && b >= SIGN_BIT ==> (a < b <==> key_of_bits(a) > key_of_bits(b)),
        a >= SIGN_BIT && b < SIGN_BIT ==> key_of_bits(a) <= key_of_bits(b),
{
}

/// Negation is an involution on every coordinate that holds a number and
/// reverses order.
pub proof fn lemma_negated(a: Coord, b: Coord)
    requires
        a != i32::MIN,
        b != i32::MIN,
    ensures
        negated_spec(negated_spec(a)) == a,
        a < b <==> negated_spec(b) < negated_spec(a),
        is_infinite_spec(a) <==> is_infinite_spec(negated_spec(a)),
{
}

} // verus!
