//! The fixed-width capability of the machine integers.

use crate::codec::{read_le, reverse_bytes, unwrap_signed, wrap_signed, write_le};
use crate::host::{host_is_little_endian, in_host_order};
use crate::wire::{
    byte_swapped, decoded, fits, le_bytes, lemma_byte_swapped_twice, lemma_decode_encode,
    lemma_le_bytes_congruent, lemma_le_value_bound, lemma_radix_values,
};
use vstd::layout::{
    layout_of_primitives, signed_int_min_max_values, size_of, unsigned_int_max_values,
};
use vstd::prelude::*;

verus! {

/// An integer type whose values have a little-endian encoding of a fixed
/// number of bytes.
///
/// The three spec functions say what a value is as mathematics: how many bytes
/// it takes, whether its highest bit is a sign, and which integer it is. Every
/// contract below is stated over them and over the layout of [`crate::wire`].
pub trait FixedInt: Sized + Copy {
    /// The number of bytes of an encoding.
    const REQUIRED_SPACE: usize;

    /// The number of bytes of an encoding.
    spec fn byte_width() -> nat;

    /// Whether the type is a two's-complement type.
    spec fn is_signed() -> bool;

    /// The integer that `self` is.
    spec fn as_int(self) -> int;

    /// The width is the size of the type in memory, at most that of a 64-bit
    /// integer, and `REQUIRED_SPACE` is that width.
    proof fn lemma_layout()
        ensures
            Self::byte_width() == size_of::<Self>(),
            1 <= Self::byte_width() <= 8,
            Self::REQUIRED_SPACE == Self::byte_width(),
    ;

    /// Every value fits in the width of its type.
    proof fn lemma_as_int_fits(self)
        ensures
            fits(self.as_int(), Self::byte_width(), Self::is_signed()),
    ;

    /// A value is determined by the integer that it is.
    proof fn lemma_as_int_injective(a: Self, b: Self)
        requires
            a.as_int() == b.as_int(),
        ensures
            a == b,
    ;

    /// Returns how many bytes an encoding takes.
    fn required_space() -> (n: usize)
        ensures
            n == Self::byte_width(),
    ;

    /// Writes the little-endian encoding of `self` into `dst`, which must be
    /// exactly `REQUIRED_SPACE` bytes long.
    fn encode_fixed(self, dst: &mut [u8])
        requires
            old(dst)@.len() == Self::byte_width(),
        ensures
            final(dst)@ == le_bytes(self.as_int(), Self::byte_width()),
    ;

    /// Reads a value from its little-endian encoding `src`, which must be
    /// exactly `REQUIRED_SPACE` bytes long.
    fn decode_fixed(src: &[u8]) -> (v: Self)
        requires
            src@.len() == Self::byte_width(),
        ensures
            v.as_int() == decoded(src@, Self::is_signed()),
    ;

    /// Returns the bytes of `self` in the order in which the host keeps them
    /// in memory: the little-endian encoding on a little-endian host, and
    /// that encoding read backwards on a big-endian one. Not for the wire.
    fn encode_fixed_light(&self) -> (bytes: Vec<u8>)
        ensures
            bytes@ == le_bytes(self.as_int(), Self::byte_width())
                || bytes@ == le_bytes(self.as_int(), Self::byte_width()).reverse(),
    {
        in_host_order(self.encode_fixed_vec(), host_is_little_endian())
    }

    /// Returns the little-endian encoding of `self` in a new buffer.
    fn encode_fixed_vec(self) -> (bytes: Vec<u8>)
        ensures
            bytes@ == le_bytes(self.as_int(), Self::byte_width()),
    {
        let mut bytes: Vec<u8> = Vec::new();
        bytes.resize(Self::required_space(), 0);
        self.encode_fixed(bytes.as_mut_slice());
        bytes
    }

    /// Reads a value from its little-endian encoding `bytes`, which must be
    /// exactly `REQUIRED_SPACE` bytes long.
    fn decode_fixed_vec(bytes: &Vec<u8>) -> (v: Self)
        requires
            bytes@.len() == Self::byte_width(),
        ensures
            v.as_int() == decoded(bytes@, Self::is_signed()),
    {
        Self::decode_fixed(bytes.as_slice())
    }

    /// Returns the value whose bytes are those of `self` in reverse order:
    /// what a big-endian reader makes of the encoding of `self`.
    fn switch_endianness(self) -> (swapped: Self)
        ensures
            swapped.as_int() == byte_swapped(self.as_int(), Self::byte_width(), Self::is_signed()),
    {
        let mut bytes: Vec<u8> = self.encode_fixed_vec();
        reverse_bytes(bytes.as_mut_slice());
        Self::decode_fixed_vec(&bytes)
    }
}

impl FixedInt for u8 {
    const REQUIRED_SPACE: usize = 1;

    open spec fn byte_width() -> nat {
        1
    }

    open spec fn is_signed() -> bool {
        false
    }

    open spec fn as_int(self) -> int {
        self as int
    }

    proof fn lemma_layout() {
        broadcast use layout_of_primitives;
    }

    proof fn lemma_as_int_fits(self) {
        lemma_radix_values();
    }

    proof fn lemma_as_int_injective(a: Self, b: Self) {
    }

    fn required_space() -> (n: usize)
        ensures
            n == 1,
    {
        Self::REQUIRED_SPACE
    }

    fn encode_fixed(self, dst: &mut [u8]) {
        write_le(self as u64, dst)
    }

    fn decode_fixed(src: &[u8]) -> (v: Self) {
        proof {
            lemma_le_value_bound(src@);
            lemma_radix_values();
        }
        read_le(src) as u8
    }
}

impl FixedInt for u16 {
    const REQUIRED_SPACE: usize = 2;

    open spec fn byte_width() -> nat {
        2
    }

    open spec fn is_signed() -> bool {
        false
    }

    open spec fn as_int(self) -> int {
        self as int
    }

    proof fn lemma_layout() {
        broadcast use layout_of_primitives;
    }

    proof fn lemma_as_int_fits(self) {
        lemma_radix_values();
    }

    proof fn lemma_as_int_injective(a: Self, b: Self) {
    }

    fn required_space() -> (n: usize)
        ensures
            n == 2,
    {
        Self::REQUIRED_SPACE
    }

    fn encode_fixed(self, dst: &mut [u8]) {
        write_le(self as u64, dst)
    }

    fn decode_fixed(src: &[u8]) -> (v: Self) {
        proof {
            lemma_le_value_bound(src@);
            lemma_radix_values();
        }
        read_le(src) as u16
    }
}

impl FixedInt for u32 {
    const REQUIRED_SPACE: usize = 4;

    open spec fn byte_width() -> nat {
        4
    }

    open spec fn is_signed() -> bool {
        false
    }

    open spec fn as_int(self) -> int {
        self as int
    }

    proof fn lemma_layout() {
        broadcast use layout_of_primitives;
    }

    proof fn lemma_as_int_fits(self) {
        lemma_radix_values();
    }

    proof fn lemma_as_int_injective(a: Self, b: Self) {
    }

    fn required_space() -> (n: usize)
        ensures
            n == 4,
    {
        Self::REQUIRED_SPACE
    }

    fn encode_fixed(self, dst: &mut [u8]) {
        write_le(self as u64, dst)
    }

    fn decode_fixed(src: &[u8]) -> (v: Self) {
        proof {
            lemma_le_value_bound(src@);
            lemma_radix_values();
        }
        read_le(src) as u32
    }
}

impl FixedInt for u64 {
    const REQUIRED_SPACE: usize = 8;

    open spec fn byte_width() -> nat {
        8
    }

    open spec fn is_signed() -> bool {
        false
    }

    open spec fn as_int(self) -> int {
        self as int
    }

    proof fn lemma_layout() {
        broadcast use layout_of_primitives;
    }

    proof fn lemma_as_int_fits(self) {
        lemma_radix_values();
    }

    proof fn lemma_as_int_injective(a: Self, b: Self) {
    }

    fn required_space() -> (n: usize)
        ensures
            n == 8,
    {
        Self::REQUIRED_SPACE
    }

    fn encode_fixed(self, dst: &mut [u8]) {
        write_le(self, dst)
    }

    fn decode_fixed(src: &[u8]) -> (v: Self) {
        proof {
            lemma_le_value_bound(src@);
            lemma_radix_values();
        }
        read_le(src)
    }
}

impl FixedInt for i8 {
    const REQUIRED_SPACE: usize = 1;

    open spec fn byte_width() -> nat {
        1
    }

    open spec fn is_signed() -> bool {
        true
    }

    open spec fn as_int(self) -> int {
        self as int
    }

    proof fn lemma_layout() {
        broadcast use layout_of_primitives;
    }

    proof fn lemma_as_int_fits(self) {
        lemma_radix_values();
    }

    proof fn lemma_as_int_injective(a: Self, b: Self) {
    }

    fn required_space() -> (n: usize)
        ensures
            n == 1,
    {
        Self::REQUIRED_SPACE
    }

    fn encode_fixed(self, dst: &mut [u8]) {
        let bits: u64 = wrap_signed(self as i64, 0x80);
        proof {
            lemma_radix_values();
            lemma_le_bytes_congruent(self as int, if self < 0 { 1 } else { 0 }, 1);
        }
        write_le(bits, dst)
    }

    fn decode_fixed(src: &[u8]) -> (v: Self) {
        proof {
            lemma_le_value_bound(src@);
            lemma_radix_values();
        }
        unwrap_signed(read_le(src), 0x80) as i8
    }
}

impl FixedInt for i16 {
    const REQUIRED_SPACE: usize = 2;

    open spec fn byte_width() -> nat {
        2
    }

    open spec fn is_signed() -> bool {
        true
    }

    open spec fn as_int(self) -> int {
        self as int
    }

    proof fn lemma_layout() {
        broadcast use layout_of_primitives;
    }

    proof fn lemma_as_int_fits(self) {
        lemma_radix_values();
    }

    proof fn lemma_as_int_injective(a: Self, b: Self) {
    }

    fn required_space() -> (n: usize)
        ensures
            n == 2,
    {
        Self::REQUIRED_SPACE
    }

    fn encode_fixed(self, dst: &mut [u8]) {
        let bits: u64 = wrap_signed(self as i64, 0x8000);
        proof {
            lemma_radix_values();
            lemma_le_bytes_congruent(self as int, if self < 0 { 1 } else { 0 }, 2);
        }
        write_le(bits, dst)
    }

    fn decode_fixed(src: &[u8]) -> (v: Self) {
        proof {
            lemma_le_value_bound(src@);
            lemma_radix_values();
        }
        unwrap_signed(read_le(src), 0x8000) as i16
    }
}

impl FixedInt for i32 {
    const REQUIRED_SPACE: usize = 4;

    open spec fn byte_width() -> nat {
        4
    }

    open spec fn is_signed() -> bool {
        true
    }

    open spec fn as_int(self) -> int {
        self as int
    }

    proof fn lemma_layout() {
        broadcast use layout_of_primitives;
    }

    proof fn lemma_as_int_fits(self) {
        lemma_radix_values();
    }

    proof fn lemma_as_int_injective(a: Self, b: Self) {
    }

    fn required_space() -> (n: usize)
        ensures
            n == 4,
    {
        Self::REQUIRED_SPACE
    }

    fn encode_fixed(self, dst: &mut [u8]) {
        let bits: u64 = wrap_signed(self as i64, 0x8000_0000);
        proof {
            lemma_radix_values();
            lemma_le_bytes_congruent(self as int, if self < 0 { 1 } else { 0 }, 4);
        }
        write_le(bits, dst)
    }

    fn decode_fixed(src: &[u8]) -> (v: Self) {
        proof {
            lemma_le_value_bound(src@);
            lemma_radix_values();
        }
        unwrap_signed(read_le(src), 0x8000_0000) as i32
    }
}

impl FixedInt for i64 {
    const REQUIRED_SPACE: usize = 8;

    open spec fn byte_width() -> nat {
        8
    }

    open spec fn is_signed() -> bool {
        true
    }

    open spec fn as_int(self) -> int {
        self as int
    }

    proof fn lemma_layout() {
        broadcast use layout_of_primitives;
    }

    proof fn lemma_as_int_fits(self) {
        lemma_radix_values();
    }

    proof fn lemma_as_int_injective(a: Self, b: Self) {
    }

    fn required_space() -> (n: usize)
        ensures
            n == 8,
    {
        Self::REQUIRED_SPACE
    }

    fn encode_fixed(self, dst: &mut [u8]) {
        let bits: u64 = wrap_signed(self, 0x8000_0000_0000_0000);
        proof {
            lemma_radix_values();
            lemma_le_bytes_congruent(self as int, if self < 0 { 1 } else { 0 }, 8);
        }
        write_le(bits, dst)
    }

    fn decode_fixed(src: &[u8]) -> (v: Self) {
        proof {
            lemma_le_value_bound(src@);
            lemma_radix_values();
        }
        unwrap_signed(read_le(src), 0x8000_0000_0000_0000)
    }
}

impl FixedInt for usize {
    const REQUIRED_SPACE: usize = (usize::BITS / 8) as usize;

    open spec fn byte_width() -> nat {
        size_of::<usize>()
    }

    open spec fn is_signed() -> bool {
        false
    }

    open spec fn as_int(self) -> int {
        self as int
    }

    proof fn lemma_layout() {
        broadcast use layout_of_primitives;
        assert(Self::REQUIRED_SPACE == (usize::BITS / 8) as usize);
    }

    proof fn lemma_as_int_fits(self) {
        unsigned_int_max_values();
    }

    proof fn lemma_as_int_injective(a: Self, b: Self) {
    }

    fn required_space() -> (n: usize)
        ensures
            n == size_of::<usize>(),
    {
        proof {
            Self::lemma_layout();
        }
        Self::REQUIRED_SPACE
    }

    fn encode_fixed(self, dst: &mut [u8]) {
        write_le(self as u64, dst)
    }

    fn decode_fixed(src: &[u8]) -> (v: Self) {
        proof {
            Self::lemma_layout();
            lemma_le_value_bound(src@);
            unsigned_int_max_values();
        }
        read_le(src) as usize
    }
}

impl FixedInt for isize {
    const REQUIRED_SPACE: usize = (isize::BITS / 8) as usize;

    open spec fn byte_width() -> nat {
        size_of::<isize>()
    }

    open spec fn is_signed() -> bool {
        true
    }

    open spec fn as_int(self) -> int {
        self as int
    }

    proof fn lemma_layout() {
        broadcast use layout_of_primitives;
        assert(Self::REQUIRED_SPACE == (isize::BITS / 8) as usize);
    }

    proof fn lemma_as_int_fits(self) {
        signed_int_min_max_values();
    }

    proof fn lemma_as_int_injective(a: Self, b: Self) {
    }

    fn required_space() -> (n: usize)
        ensures
            n == size_of::<isize>(),
    {
        proof {
            Self::lemma_layout();
        }
        Self::REQUIRED_SPACE
    }

    fn encode_fixed(self, dst: &mut [u8]) {
        proof {
            signed_int_min_max_values();
        }
        let half: u64 = isize::MAX as u64 + 1;
        let bits: u64 = wrap_signed(self as i64, half);
        proof {
            lemma_le_bytes_congruent(self as int, if self < 0 { 1 } else { 0 }, size_of::<isize>());
        }
        write_le(bits, dst)
    }

    fn decode_fixed(src: &[u8]) -> (v: Self) {
        proof {
            Self::lemma_layout();
            lemma_le_value_bound(src@);
            signed_int_min_max_values();
        }
        let half: u64 = isize::MAX as u64 + 1;
        unwrap_signed(read_le(src), half) as isize
    }
}

/// Decoding the encoding of a value gives the value back: the encoding has
/// the width of the type, it spells the integer that `v` is, and whatever
/// value is that integer is `v`.
pub proof fn lemma_round_trip<T: FixedInt>(v: T)
    ensures
        le_bytes(v.as_int(), T::byte_width()).len() == T::byte_width(),
        decoded(le_bytes(v.as_int(), T::byte_width()), T::is_signed()) == v.as_int(),
        forall|back: T|
            #[trigger] back.as_int() == decoded(le_bytes(v.as_int(), T::byte_width()), T::is_signed())
                ==> back == v,
{
    v.lemma_as_int_fits();
    lemma_decode_encode(v.as_int(), T::byte_width(), T::is_signed());
    assert forall|back: T| #[trigger] back.as_int() == v.as_int() implies back == v by {
        T::lemma_as_int_injective(back, v);
    }
}

/// Switching the byte order twice gives the value back: swapping the bytes of
/// the integer that `v` is, and then the bytes of the result, ends at that
/// integer, and whatever value is that integer is `v`.
pub proof fn lemma_switch_endianness_twice<T: FixedInt>(v: T)
    ensures
        byte_swapped(
            byte_swapped(v.as_int(), T::byte_width(), T::is_signed()),
            T::byte_width(),
            T::is_signed(),
        ) == v.as_int(),
        forall|once: T, twice: T|
            #[trigger] once.as_int() == byte_swapped(v.as_int(), T::byte_width(), T::is_signed())
                && #[trigger] twice.as_int() == byte_swapped(
                    once.as_int(),
                    T::byte_width(),
                    T::is_signed(),
                ) ==> twice == v,
{
    v.lemma_as_int_fits();
    lemma_byte_swapped_twice(v.as_int(), T::byte_width(), T::is_signed());
    assert forall|back: T| #[trigger] back.as_int() == v.as_int() implies back == v by {
        T::lemma_as_int_injective(back, v);
    }
}

} // verus!
