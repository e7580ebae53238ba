//! Word arithmetic of the machine: every operation yields a 15-bit value.

use vstd::prelude::*;

verus! {

/// Number of distinct data values; all arithmetic is reduced modulo this.
pub const MODULUS: u16 = 32768;

/// Largest data value, and the mask of the fifteen data bits.
pub const WORD_MAX: u16 = 32767;

/// `(b + c) mod 32768`.
pub open spec fn sum(b: u16, c: u16) -> u16 {
    ((b + c) % 32768) as u16
}

/// `(b * c) mod 32768`, the product taken over the integers.
pub open spec fn product(b: u16, c: u16) -> u16 {
    ((b * c) % 32768) as u16
}

/// The remainder of `b` divided by `c`, reduced to fifteen bits.
pub open spec fn remainder(b: u16, c: u16) -> u16
    recommends
        c != 0,
{
    ((b % c) % 32768) as u16
}

/// Bitwise and, reduced to fifteen bits.
pub open spec fn conjunction(b: u16, c: u16) -> u16 {
    (b & c) & 0x7fff
}

/// Bitwise or, reduced to fifteen bits.
pub open spec fn disjunction(b: u16, c: u16) -> u16 {
    (b | c) & 0x7fff
}

/// Bitwise complement restricted to the fifteen data bits.
pub open spec fn complement(b: u16) -> u16 {
    (!b) & 0x7fff
}

/// 1 if `b == c`, else 0.
pub open spec fn equal_flag(b: u16, c: u16) -> u16 {
    if b == c { 1 } else { 0 }
}

/// 1 if `b > c`, else 0.
pub open spec fn greater_flag(b: u16, c: u16) -> u16 {
    if b > c { 1 } else { 0 }
}

/// Complementing twice gives back every 15-bit value.
pub proof fn law_complement_involution(x: u16)
    requires
        x <= 32767,
    ensures
        complement(complement(x)) == x,
{
    assert(x <= 32767 ==> (!((!x) & 0x7fffu16)) & 0x7fffu16 == x) by (bit_vector);
}

/// The complement of a 15-bit value is its distance from 32767, and is
/// again a 15-bit value.
pub proof fn law_complement_value(x: u16)
    requires
        x <= 32767,
    ensures
        complement(x) == 32767 - x,
{
    assert(x <= 32767 ==> (!x) & 0x7fffu16 == 32767 - x) by (bit_vector);
}

/// On 15-bit values the bitwise operations and the remainder need no
/// reduction: they are the plain `&`, `|` and `%`.
pub proof fn law_plain_on_words(b: u16, c: u16)
    requires
        b <= 32767,
        c <= 32767,
    ensures
        conjunction(b, c) == b & c,
        disjunction(b, c) == b | c,
        c != 0 ==> remainder(b, c) == b % c,
{
    assert(b <= 32767 && c <= 32767 ==> (b & c) & 0x7fffu16 == b & c) by (bit_vector);
    assert(b <= 32767 && c <= 32767 ==> (b | c) & 0x7fffu16 == b | c) by (bit_vector);
}

/// A comparison yields 0 or 1 and nothing else.
pub proof fn law_flags_are_bits(b: u16, c: u16)
    ensures
        equal_flag(b, c) == 0 || equal_flag(b, c) == 1,
        greater_flag(b, c) == 0 || greater_flag(b, c) == 1,
        equal_flag(b, c) == 1 <==> b == c,
        greater_flag(b, c) == 1 <==> b > c,
{
}

/// Every operation of the machine's arithmetic yields a 15-bit value.
pub proof fn law_results_are_words(b: u16, c: u16)
    ensures
        sum(b, c) <= 32767,
        product(b, c) <= 32767,
        c != 0 ==> remainder(b, c) <= 32767,
        conjunction(b, c) <= 32767,
        disjunction(b, c) <= 32767,
        complement(b) <= 32767,
        equal_flag(b, c) <= 1,
        greater_flag(b, c) <= 1,
{
    assert((b & c) & 0x7fffu16 <= 32767) by (bit_vector);
    assert((b | c) & 0x7fffu16 <= 32767) by (bit_vector);
    assert((!b) & 0x7fffu16 <= 32767) by (bit_vector);
}

/// Adds two words modulo 32768.
pub fn word_add(b: u16, c: u16) -> (r: u16)
    ensures
        r == sum(b, c),
        r < 32768,
{
    let wide: u32 = b as u32 + c as u32;
    (wide % MODULUS as u32) as u16
}

/// Multiplies two words modulo 32768; the product is taken in 32 bits, so
/// nothing is lost before the reduction.
pub fn word_mult(b: u16, c: u16) -> (r: u16)
    ensures
        r == product(b, c),
        r < 32768,
{
    assert(b * c <= 65535 * 65535) by (nonlinear_arith)
        requires
            b <= 65535,
            c <= 65535,
    ;
    let wide: u32 = b as u32 * c as u32;
    (wide % MODULUS as u32) as u16
}

/// The remainder of `b` divided by `c`.
pub fn word_mod(b: u16, c: u16) -> (r: u16)
    requires
        c != 0,
    ensures
        r == remainder(b, c),
        r < 32768,
{
    (b % c) % MODULUS
}

/// Bitwise and of two words.
pub fn word_and(b: u16, c: u16) -> (r: u16)
    ensures
        r == conjunction(b, c),
        r < 32768,
{
    let r: u16 = (b & c) & WORD_MAX;
    assert((b & c) & 0x7fff < 32768) by (bit_vector);
    r
}

/// Bitwise or of two words.
pub fn word_or(b: u16, c: u16) -> (r: u16)
    ensures
        r == disjunction(b, c),
        r < 32768,
{
    let r: u16 = (b | c) & WORD_MAX;
    assert((b | c) & 0x7fff < 32768) by (bit_vector);
    r
}

/// Bitwise complement of the fifteen data bits of a word.
pub fn word_not(b: u16) -> (r: u16)
    ensures
        r == complement(b),
        r < 32768,
{
    let r: u16 = (!b) & WORD_MAX;
    assert((!b) & 0x7fff < 32768) by (bit_vector);
    r
}

/// 1 if the two words are equal, else 0.
pub fn word_eq(b: u16, c: u16) -> (r: u16)
    ensures
        r == equal_flag(b, c),
{
    if b == c { 1 } else { 0 }
}

/// 1 if `b` is greater than `c`, else 0.
pub fn word_gt(b: u16, c: u16) -> (r: u16)
    ensures
        r == greater_flag(b, c),
{
    if b > c { 1 } else { 0 }
}

} // verus!
