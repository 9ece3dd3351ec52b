//! The byte order of the host.

use crate::codec::reverse_bytes;
use crate::wire::{le_bytes, lemma_radix_values};
use vstd::prelude::*;

verus! {

/// `u16::to_ne_bytes`: the two bytes of `x` as the host keeps them in memory.
/// Believed, not proved: they are the little-endian encoding of `x` or that
/// encoding read backwards, and which of the two is the host's affair.
#[verifier::external_body]
fn native_bytes(x: u16) -> (bytes: [u8; 2])
    ensures
        bytes@ == le_bytes(x as int, 2) || bytes@ == le_bytes(x as int, 2).reverse(),
{
    x.to_ne_bytes()
}

/// Whether the host keeps the least significant byte of an integer first.
/// The answer is a fact about the machine, so nothing is promised of it.
pub(crate) fn host_is_little_endian() -> bool {
    is_little_endian_probe(native_bytes(1))
}

/// Whether `probe`, the two bytes of the number 1 as some host keeps them, are
/// its little-endian encoding.
pub fn is_little_endian_probe(probe: [u8; 2]) -> (little: bool)
    ensures
        little == (probe@ == le_bytes(1, 2)),
{
    proof {
        lemma_radix_values();
        assert(le_bytes(1, 2) =~= seq![1u8, 0u8]);
        if probe@ == le_bytes(1, 2) {
            assert(probe@[0] == 1 && probe@[1] == 0);
        } else if probe@[0] == 1 && probe@[1] == 0 {
            assert(probe@ =~= seq![1u8, 0u8]);
        }
    }
    probe[0] == 1 && probe[1] == 0
}

/// Puts the little-endian bytes `bytes` into the order of a host that is
/// little-endian or not, as `little_endian` says.
pub fn in_host_order(bytes: Vec<u8>, little_endian: bool) -> (ordered: Vec<u8>)
    ensures
        ordered@ == if little_endian { bytes@ } else { bytes@.reverse() },
{
    let mut ordered: Vec<u8> = bytes;
    if !little_endian {
        reverse_bytes(ordered.as_mut_slice());
    }
    ordered
}

} // verus!
