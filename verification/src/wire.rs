//! The byte layout as mathematics.
//!
//! An encoding of `width` bytes holds the low `8 * width` bits of a number,
//! eight bits per byte, the least significant byte first. Read as digits in
//! base 256 the bytes spell `wrapped(v, width)`, the unsigned number that
//! shares those bits with `v`.

use vstd::arithmetic::div_mod::*;
use vstd::arithmetic::mul::*;
use vstd::arithmetic::power::*;
use vstd::prelude::*;

verus! {

/// `256^width`: how many numbers `width` bytes can tell apart.
pub open spec fn radix(width: nat) -> int {
    pow(256, width)
}

/// Whether `v` can be stored in `width` bytes, as a two's-complement number
/// when `signed` and as a plain binary number otherwise.
pub open spec fn fits(v: int, width: nat, signed: bool) -> bool {
    if signed {
        -radix(width) <= 2 * v < radix(width)
    } else {
        0 <= v < radix(width)
    }
}

/// The little-endian encoding of `v` in `width` bytes: byte `i` holds bits
/// `8 * i` up to `8 * i + 8` of `v`, in two's complement where `v` is
/// negative.
pub open spec fn le_bytes(v: int, width: nat) -> Seq<u8> {
    Seq::new(width, |i: int| ((v / radix(i as nat)) % 256) as u8)
}

/// The unsigned number that `s` spells in base 256, least significant digit
/// first.
pub open spec fn le_value(s: Seq<u8>) -> nat
    decreases s.len(),
{
    if s.len() == 0 {
        0
    } else {
        s[0] as nat + 256 * le_value(s.drop_first())
    }
}

/// The unsigned number made of the low `8 * width` bits of the
/// two's-complement form of `v`. For `0 <= v < radix(width)` it is `v` itself.
pub open spec fn wrapped(v: int, width: nat) -> nat {
    (v % radix(width)) as nat
}

/// The number that `width` bytes spelling the unsigned number `u` stand for
/// when their highest bit is read as a sign.
pub open spec fn signed_of(u: nat, width: nat) -> int {
    if 2 * u >= radix(width) {
        u - radix(width)
    } else {
        u as int
    }
}

/// The number that the little-endian bytes `s` stand for.
pub open spec fn decoded(s: Seq<u8>, signed: bool) -> int {
    if signed {
        signed_of(le_value(s), s.len())
    } else {
        le_value(s) as int
    }
}

/// The number whose encoding is the encoding of `v` read backwards.
pub open spec fn byte_swapped(v: int, width: nat, signed: bool) -> int {
    decoded(le_bytes(v, width).reverse(), signed)
}

/// `radix` grows by a factor of 256 with every byte, and is positive.
pub proof fn lemma_radix_step(width: nat)
    ensures
        radix(0) == 1,
        radix(width + 1) == 256 * radix(width),
        radix(width) > 0,
{
    reveal(pow);
    lemma_pow_positive(256, width);
}

/// The values of `radix` at the widths of the machine integers.
pub proof fn lemma_radix_values()
    ensures
        radix(0) == 1,
        radix(1) == 0x100,
        radix(2) == 0x1_0000,
        radix(4) == 0x1_0000_0000,
        radix(8) == 0x1_0000_0000_0000_0000,
{
    lemma_radix_step(0);
    lemma_radix_step(1);
    lemma_radix_step(2);
    lemma_radix_step(3);
    lemma_radix_step(4);
    lemma_radix_step(5);
    lemma_radix_step(6);
    lemma_radix_step(7);
}

/// `radix` does not shrink as the width grows.
pub proof fn lemma_radix_monotonic(narrow: nat, wide: nat)
    requires
        narrow <= wide,
    ensures
        0 < radix(narrow) <= radix(wide),
{
    lemma_pow_positive(256, narrow);
    lemma_pow_increases(256, narrow, wide);
}

/// A sequence of `n` bytes spells a number below `256^n`.
pub proof fn lemma_le_value_bound(s: Seq<u8>)
    ensures
        le_value(s) < radix(s.len()),
    decreases s.len(),
{
    if s.len() == 0 {
        lemma_radix_step(0);
    } else {
        lemma_le_value_bound(s.drop_first());
        lemma_radix_step(s.drop_first().len());
    }
}

/// Dropping the first byte of the encoding of `u` is dividing `u` by 256.
proof fn lemma_le_bytes_tail(u: nat, width: nat)
    requires
        width > 0,
    ensures
        le_bytes(u as int, width)[0] == u % 256,
        le_bytes(u as int, width).drop_first() == le_bytes(u as int / 256, (width - 1) as nat),
{
    lemma_radix_step(0);
    assert(le_bytes(u as int, width)[0] == ((u as int / radix(0)) % 256) as u8);
    let tail = le_bytes(u as int, width).drop_first();
    let shifted = le_bytes(u as int / 256, (width - 1) as nat);
    assert forall|i: int| 0 <= i < width - 1 implies tail[i] == shifted[i] by {
        lemma_radix_step(i as nat);
        lemma_div_denominator(u as int, 256, radix(i as nat));
    }
    assert(tail =~= shifted);
}

/// The encoding of `u` spells `u` again, as far as `width` bytes can.
proof fn lemma_le_value_of_nat_bytes(u: nat, width: nat)
    ensures
        le_value(le_bytes(u as int, width)) == u % (radix(width) as nat),
    decreases width,
{
    if width == 0 {
        lemma_radix_step(0);
    } else {
        let rest = (width - 1) as nat;
        lemma_le_bytes_tail(u, width);
        lemma_le_value_of_nat_bytes(u / 256, rest);
        lemma_radix_step(rest);
        lemma_mod_breakdown(u as int, 256, radix(rest));
    }
}

/// The encoding of the number that `s` spells is `s`.
proof fn lemma_nat_bytes_of_le_value(s: Seq<u8>)
    ensures
        le_bytes(le_value(s) as int, s.len()) == s,
    decreases s.len(),
{
    let u = le_value(s);
    if s.len() > 0 {
        let tail = s.drop_first();
        lemma_nat_bytes_of_le_value(tail);
        lemma_le_bytes_tail(u, s.len());
        lemma_fundamental_div_mod_converse(u as int, 256, le_value(tail) as int, s[0] as int);
        assert(le_bytes(u as int, s.len()) =~= seq![s[0]] + le_bytes(u as int / 256, tail.len()));
        assert(s =~= seq![s[0]] + tail);
    }
    assert(le_bytes(u as int, s.len()) =~= s);
}

/// Only the low `8 * width` bits of a number reach its encoding in `width`
/// bytes: a negative number is encoded as the unsigned number it wraps to.
pub proof fn lemma_le_bytes_wrapped(v: int, width: nat)
    ensures
        le_bytes(v, width) == le_bytes(wrapped(v, width) as int, width),
{
    let r = radix(width);
    let q = v / r;
    let w = wrapped(v, width) as int;
    lemma_radix_step(width);
    lemma_fundamental_div_mod(v, r);
    assert forall|i: int| 0 <= i < width implies le_bytes(v, width)[i] == le_bytes(w, width)[i] by {
        let low = radix(i as nat);
        let high = radix((width - i - 1) as nat);
        lemma_radix_step(i as nat);
        lemma_radix_step((width - i - 1) as nat);
        assert(r == low * (256 * high)) by {
            lemma_pow_adds(256, i as nat, (width - i) as nat);
        }
        assert(v == w + (q * (256 * high)) * low) by {
            lemma_mul_is_associative(q, 256 * high, low);
            lemma_mul_is_commutative(256 * high, low);
            lemma_mul_is_commutative(r, q);
        }
        lemma_hoist_over_denominator(w, q * (256 * high), low as nat);
        assert(q * (256 * high) == 256 * (q * high)) by {
            lemma_mul_is_associative(q, 256, high);
            lemma_mul_is_commutative(q, 256);
            lemma_mul_is_associative(256, q, high);
        }
        lemma_mod_multiples_vanish(q * high, w / low, 256);
    }
    assert(le_bytes(v, width) =~= le_bytes(w, width));
}

/// Two numbers that differ by a multiple of `256^width` have the same
/// encoding in `width` bytes.
pub proof fn lemma_le_bytes_congruent(v: int, k: int, width: nat)
    ensures
        le_bytes(v + k * radix(width), width) == le_bytes(v, width),
{
    lemma_radix_step(width);
    lemma_mul_is_commutative(k, radix(width));
    lemma_mod_multiples_vanish(k, v, radix(width));
    lemma_le_bytes_wrapped(v, width);
    lemma_le_bytes_wrapped(v + k * radix(width), width);
}

/// The bytes of an encoding spell the wrapped number.
pub proof fn lemma_le_value_of_bytes(v: int, width: nat)
    ensures
        le_value(le_bytes(v, width)) == wrapped(v, width),
{
    lemma_radix_step(width);
    lemma_le_bytes_wrapped(v, width);
    lemma_le_value_of_nat_bytes(wrapped(v, width), width);
    lemma_mod_twice(v, radix(width));
}

/// Decoding undoes encoding: a number that fits in `width` bytes is what its
/// encoding stands for.
pub proof fn lemma_decode_encode(v: int, width: nat, signed: bool)
    requires
        fits(v, width, signed),
    ensures
        decoded(le_bytes(v, width), signed) == v,
{
    let r = radix(width);
    lemma_radix_step(width);
    lemma_le_value_of_bytes(v, width);
    if v >= 0 {
        lemma_small_mod(v as nat, r as nat);
    } else {
        lemma_mod_multiples_vanish(1, v, r);
        lemma_small_mod((v + r) as nat, r as nat);
    }
}

/// Every byte sequence stands for a number, and that number fits in as many
/// bytes: no region of the right length is refused for what it holds.
pub proof fn lemma_decoded_fits(s: Seq<u8>, signed: bool)
    ensures
        fits(decoded(s, signed), s.len(), signed),
{
    lemma_le_value_bound(s);
}

/// Encoding undoes decoding: every byte sequence is the encoding of the
/// number it stands for, so no two sequences of one length stand for the same
/// number.
pub proof fn lemma_encode_decode(s: Seq<u8>, signed: bool)
    ensures
        le_bytes(decoded(s, signed), s.len()) == s,
{
    let u = le_value(s);
    lemma_le_value_bound(s);
    lemma_nat_bytes_of_le_value(s);
    if decoded(s, signed) != u {
        lemma_le_bytes_congruent(u as int, -1, s.len());
    }
}

/// Swapping the bytes twice gives the number back.
pub proof fn lemma_byte_swapped_twice(v: int, width: nat, signed: bool)
    requires
        fits(v, width, signed),
    ensures
        byte_swapped(byte_swapped(v, width, signed), width, signed) == v,
{
    let bytes = le_bytes(v, width);
    lemma_encode_decode(bytes.reverse(), signed);
    assert(bytes.reverse().reverse() =~= bytes);
    lemma_decode_encode(v, width, signed);
}

/// A single byte has no order: its encoding reads the same backwards, and
/// swapping the bytes of a one-byte number changes nothing.
pub proof fn lemma_single_byte_has_no_order(v: int, signed: bool)
    ensures
        le_bytes(v, 1).reverse() == le_bytes(v, 1),
        fits(v, 1, signed) ==> byte_swapped(v, 1, signed) == v,
{
    assert(le_bytes(v, 1).reverse() =~= le_bytes(v, 1));
    if fits(v, 1, signed) {
        lemma_decode_encode(v, 1, signed);
    }
}

} // verus!
