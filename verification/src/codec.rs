//! Moving a number into and out of a byte region.
//!
//! The routines here work on 64-bit carriers and on regions of any length that
//! a carrier can fill, so that one loop serves every integer width.

use crate::wire::{
    le_bytes, le_value, lemma_le_value_bound, lemma_radix_monotonic, lemma_radix_step,
    lemma_radix_values, radix,
};
use vstd::arithmetic::div_mod::*;
use vstd::prelude::*;

verus! {

/// Fills `dst` with the little-endian encoding of `bits`, the least
/// significant byte first. A region longer than eight bytes is padded with
/// zero bytes, a shorter one receives the low bytes only.
pub fn write_le(bits: u64, dst: &mut [u8])
    ensures
        final(dst)@ == le_bytes(bits as int, old(dst)@.len()),
{
    let n: usize = dst.len();
    let mut rest: u64 = bits;
    let mut i: usize = 0;
    proof {
        lemma_radix_step(0);
    }
    while i < n
        invariant
            i <= n,
            dst@.len() == n,
            rest == bits as int / radix(i as nat),
            forall|j: int| 0 <= j < i ==> dst@[j] == le_bytes(bits as int, n as nat)[j],
        decreases n - i,
    {
        proof {
            lemma_radix_step(i as nat);
            lemma_div_denominator(bits as int, radix(i as nat), 256);
        }
        dst[i] = (rest % 256) as u8;
        rest = rest / 256;
        i += 1;
    }
    proof {
        assert(dst@ =~= le_bytes(bits as int, n as nat));
    }
}

/// Reads the unsigned number that the little-endian bytes of `src` spell.
pub fn read_le(src: &[u8]) -> (bits: u64)
    requires
        src@.len() <= 8,
    ensures
        bits == le_value(src@),
{
    let n: usize = src.len();
    let mut bits: u64 = 0;
    let mut i: usize = n;
    proof {
        assert(src@.subrange(n as int, n as int) =~= Seq::<u8>::empty());
    }
    while i > 0
        invariant
            i <= n,
            n == src@.len(),
            n <= 8,
            bits == le_value(src@.subrange(i as int, n as int)),
        decreases i,
    {
        proof {
            let upper = src@.subrange(i as int, n as int);
            let next = src@.subrange(i - 1, n as int);
            assert(next.drop_first() =~= upper);
            lemma_le_value_bound(upper);
            lemma_radix_monotonic(upper.len(), 7);
            lemma_radix_step(7);
            lemma_radix_values();
        }
        i -= 1;
        bits = bits * 256 + src[i] as u64;
    }
    proof {
        assert(src@.subrange(0, n as int) =~= src@);
    }
    bits
}

/// Reverses the order of the bytes of `buf` in place.
pub fn reverse_bytes(buf: &mut [u8])
    ensures
        final(buf)@ == old(buf)@.reverse(),
{
    let n: usize = buf.len();
    let mut i: usize = 0;
    while i < n / 2
        invariant
            i <= n / 2,
            buf@.len() == n,
            n == old(buf)@.len(),
            forall|j: int| 0 <= j < i ==> buf@[j] == old(buf)@[n - 1 - j],
            forall|j: int| n - i <= j < n ==> buf@[j] == old(buf)@[n - 1 - j],
            forall|j: int| i <= j < n - i ==> buf@[j] == old(buf)@[j],
        decreases n / 2 - i,
    {
        let low: u8 = buf[i];
        let high: u8 = buf[n - 1 - i];
        buf[i] = high;
        buf[n - 1 - i] = low;
        i += 1;
    }
    proof {
        assert(buf@ =~= old(buf)@.reverse());
    }
}

/// The unsigned number with the same low bits as the two's-complement number
/// `v`, where `half` is the weight of the sign bit: `v` itself if `v` is not
/// negative, and `v + 2 * half` otherwise.
pub fn wrap_signed(v: i64, half: u64) -> (bits: u64)
    requires
        0 < half <= 0x8000_0000_0000_0000,
        -half <= v < half,
    ensures
        bits == (v as int) % (2 * half),
        bits == if v < 0 { v + 2 * half } else { v as int },
{
    proof {
        if v < 0 {
            lemma_mod_multiples_vanish(1, v as int, 2 * half);
            lemma_small_mod((v + 2 * half) as nat, (2 * half) as nat);
        } else {
            lemma_small_mod(v as nat, (2 * half) as nat);
        }
    }
    if v >= 0 {
        v as u64
    } else {
        let above_min: u64 = (v - i64::MIN) as u64;
        above_min - (0x8000_0000_0000_0000 - half) + half
    }
}

/// The two's-complement number that the unsigned number `bits` stands for,
/// where `half` is the weight of the sign bit: `bits` itself below `half`, and
/// `bits - 2 * half` from `half` on.
pub fn unwrap_signed(bits: u64, half: u64) -> (v: i64)
    requires
        0 < half <= 0x8000_0000_0000_0000,
        bits < 2 * half,
    ensures
        v == if bits >= half { bits - 2 * half } else { bits as int },
{
    if bits < half {
        bits as i64
    } else {
        let below_zero: i64 = (bits - half) as i64 + i64::MIN;
        below_zero + (0x8000_0000_0000_0000 - half) as i64
    }
}

} // verus!
