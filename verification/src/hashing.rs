//! Keccak-256 digests and EIP-55 checksummed address rendering.

use vstd::prelude::*;

use crate::address::hex_char_lower_exec;
use crate::address::lower_hex_of;
use crate::address::push_lower_hex;
use crate::address::Address;

verus! {

/// The Keccak-256 digest of a byte string. Only named: the digest is computed
/// by an outside implementation and is a function of the input bytes alone.
pub uninterp spec fn keccak_of(data: Seq<u8>) -> Seq<u8>;

/// Relies on `alloy_primitives::keccak256`: the Keccak-256 digest of the
/// input bytes, always 32 bytes long and a function of the input alone.
#[verifier::external_body]
pub(crate) fn keccak256(data: &[u8]) -> (r: Vec<u8>)
    ensures
        r@ == keccak_of(data@),
        r@.len() == 32,
{
    alloy_primitives::keccak256(data).0.to_vec()
}

/// The nibble of a 32-byte digest that EIP-55 consults for hex position `i`:
/// high nibble for even positions, low nibble for odd ones.
pub open spec fn nibble_of(h: Seq<u8>, i: int) -> u8 {
    if i % 2 == 0 {
        (h[i / 2] / 16) as u8
    } else {
        (h[i / 2] % 16) as u8
    }
}

/// Uppercases a lowercase hex letter when its digest nibble is 8 or more.
pub open spec fn checksum_adjust(b: u8, nib: u8) -> u8 {
    if b >= 97 && nib >= 8 {
        (b - 32) as u8
    } else {
        b
    }
}

/// The EIP-55 checksummed rendering of a 20-byte address: `0x` followed by
/// the 40 hex digits of the address, where the Keccak-256 digest of the
/// lowercase digits decides the case of each letter.
pub open spec fn checksum_hex_of(addr: Seq<u8>) -> Seq<u8> {
    let lower = lower_hex_of(addr);
    let h = keccak_of(lower);
    seq![48u8, 120u8] + Seq::new(40, |i: int| checksum_adjust(lower[i], nibble_of(h, i)))
}

/// Renders an address in EIP-55 checksummed form, as ASCII bytes.
pub fn checksummed_hex(addr: &Address) -> (r: Vec<u8>)
    ensures
        r@ == checksum_hex_of(addr@),
{
    let mut lower: Vec<u8> = Vec::new();
    push_lower_hex(&mut lower, &addr.bytes);
    assert(lower@ =~= lower_hex_of(addr@));
    let h = keccak256(lower.as_slice());
    let mut out: Vec<u8> = Vec::new();
    out.push(48u8);
    out.push(120u8);
    let mut i: usize = 0;
    while i < 40
        invariant
            lower@ == lower_hex_of(addr@),
            lower@.len() == 40,
            h@ == keccak_of(lower@),
            h@.len() == 32,
            i <= 40,
            out@.len() == 2 + i,
            out@[0] == 48 && out@[1] == 120,
            forall|j: int|
                0 <= j < i ==> out@[2 + j] == checksum_adjust(lower@[j], nibble_of(h@, j)),
        decreases 40 - i,
    {
        let b = lower[i];
        let nib: u8 = if i % 2 == 0 {
            h[i / 2] / 16
        } else {
            h[i / 2] % 16
        };
        if b >= 97 && nib >= 8 {
            out.push(b - 32);
        } else {
            out.push(b);
        }
        i += 1;
    }
    proof {
        assert(out@ =~= checksum_hex_of(addr@));
    }
    out
}

} // verus!
