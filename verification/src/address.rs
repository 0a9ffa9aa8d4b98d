//! 20-byte account addresses and their hex string form.

use vstd::prelude::*;

use crate::error::X402Error;
use vstd::string::StringExecFns;
use vstd::string::StringSliceAdditionalSpecFns;

verus! {

/// A 20-byte account address.
#[derive(Clone, Copy, PartialEq, Eq, Debug)]
pub struct Address {
    pub bytes: [u8; 20],
}

impl View for Address {
    type V = Seq<u8>;

    open spec fn view(&self) -> Seq<u8> {
        self.bytes@
    }
}

impl Address {
    /// The all-zero address.
    pub fn zero() -> (r: Address)
        ensures
            r@ =~= Seq::new(20, |i: int| 0u8),
    {
        Address { bytes: [0u8; 20] }
    }

    /// Exact equality of two addresses.
    pub fn eq_addr(&self, other: &Address) -> (r: bool)
        ensures
            r <==> self@ == other@,
    {
        let mut i: usize = 0;
        while i < 20
            invariant
                i <= 20,
                forall|j: int| 0 <= j < i ==> self@[j] == other@[j],
            decreases 20 - i,
        {
            if self.bytes[i] != other.bytes[i] {
                return false;
            }
            i += 1;
        }
        assert(self@ =~= other@);
        true
    }

    /// Parses an address from a hex string: an optional `0x` prefix followed
    /// by exactly 40 hex digits of either case.
    pub fn parse(s: &str) -> (r: Result<Address, X402Error>)
        ensures
            r matches Ok(a) ==> spec_addr_from_hex(s.spec_bytes()) == Some(a@),
            r is Err ==> spec_addr_from_hex(s.spec_bytes()) is None,
            r is Err ==> r->Err_0 matches X402Error::InvalidAddress(_),
    {
        match addr_from_hex_bytes(s.as_bytes()) {
            Some(a) => Ok(a),
            None => Err(X402Error::InvalidAddress(String::from_str(
                "expected an optional 0x prefix and 40 hex digits",
            ))),
        }
    }

    /// The `0x`-prefixed lowercase hex form of this address, as ASCII bytes.
    pub fn to_hex_bytes(&self) -> (r: Vec<u8>)
        ensures
            r@ == hex_with_0x(self@),
    {
        let mut out: Vec<u8> = Vec::new();
        out.push(48u8);
        out.push(120u8);
        push_lower_hex(&mut out, &self.bytes);
        proof {
            assert(out@ =~= hex_with_0x(self@));
        }
        out
    }
}

/// Parses address bytes from hex text: an optional `0x` prefix followed by
/// exactly 40 hex digits of either case.
pub fn addr_from_hex_bytes(bs: &[u8]) -> (r: Option<Address>)
    ensures
        r matches Some(a) ==> spec_addr_from_hex(bs@) == Some(a@),
        r is None ==> spec_addr_from_hex(bs@) is None,
{
    let body: &[u8] = if bs.len() >= 2 && bs[0] == 48 && bs[1] == 120 {
        &bs[2..bs.len()]
    } else {
        bs
    };
    proof {
        assert(body@ =~= strip_0x(bs@));
    }
    if body.len() != 40 {
        return None;
    }
    let mut out: [u8; 20] = [0u8; 20];
    let mut i: usize = 0;
    while i < 20
        invariant
            body@.len() == 40,
            body@ == strip_0x(bs@),
            i <= 20,
            forall|j: int| 0 <= j < 2 * i ==> hex_nibble_ok(#[trigger] body@[j]),
            forall|j: int|
                0 <= j < i ==> out@[j] == 16 * hex_nibble_val(body@[2 * j]) + hex_nibble_val(
                    body@[2 * j + 1],
                ),
        decreases 20 - i,
    {
        let hi = match hex_nibble(body[2 * i]) {
            Some(v) => v,
            None => {
                return None;
            },
        };
        let lo = match hex_nibble(body[2 * i + 1]) {
            Some(v) => v,
            None => {
                return None;
            },
        };
        out[i] = 16 * hi + lo;
        i += 1;
    }
    let a = Address { bytes: out };
    proof {
        let h = strip_0x(bs@);
        assert(forall|j: int| 0 <= j < 40 ==> hex_nibble_ok(#[trigger] h[j])) by {
            assert(forall|j: int| 0 <= j < 40 ==> hex_nibble_ok(#[trigger] body@[j]));
        }
        assert(a@ =~= Seq::new(
            20,
            |i: int| (16 * hex_nibble_val(h[2 * i]) + hex_nibble_val(h[2 * i + 1])) as u8,
        ));
    }
    Some(a)
}

/// Whether a byte is an ASCII hex digit of either case.
pub open spec fn hex_nibble_ok(b: u8) -> bool {
    (48 <= b <= 57) || (97 <= b <= 102) || (65 <= b <= 70)
}

/// The value of an ASCII hex digit.
pub open spec fn hex_nibble_val(b: u8) -> u8 {
    if 48 <= b <= 57 {
        (b - 48) as u8
    } else if 97 <= b <= 102 {
        (b - 87) as u8
    } else if 65 <= b <= 70 {
        (b - 55) as u8
    } else {
        0
    }
}

/// An ASCII hex digit with the given value, lowercase.
pub open spec fn hex_char_lower(n: u8) -> u8 {
    if n < 10 {
        (48 + n) as u8
    } else {
        (87 + n) as u8
    }
}

/// Drops a leading `0x`, if present.
pub open spec fn strip_0x(s: Seq<u8>) -> Seq<u8> {
    if s.len() >= 2 && s[0] == 48 && s[1] == 120 {
        s.skip(2)
    } else {
        s
    }
}

/// The 20 bytes named by a hex address string, or `None` if it is malformed.
pub open spec fn spec_addr_from_hex(s: Seq<u8>) -> Option<Seq<u8>> {
    let h = strip_0x(s);
    if h.len() == 40 && (forall|i: int| 0 <= i < 40 ==> hex_nibble_ok(#[trigger] h[i])) {
        Some(
            Seq::new(
                20,
                |i: int| (16 * hex_nibble_val(h[2 * i]) + hex_nibble_val(h[2 * i + 1])) as u8,
            ),
        )
    } else {
        None
    }
}

/// The lowercase hex rendering of a byte string, two digits per byte.
pub open spec fn lower_hex_of(bytes: Seq<u8>) -> Seq<u8> {
    Seq::new(
        2 * bytes.len(),
        |i: int|
            if i % 2 == 0 {
                hex_char_lower((bytes[i / 2] / 16) as u8)
            } else {
                hex_char_lower((bytes[i / 2] % 16) as u8)
            },
    )
}

/// A `0x` prefix followed by the lowercase hex rendering.
pub open spec fn hex_with_0x(bytes: Seq<u8>) -> Seq<u8> {
    seq![48u8, 120u8] + lower_hex_of(bytes)
}

/// An exec hex digit classifier matching `hex_nibble_ok`/`hex_nibble_val`.
pub fn hex_nibble(b: u8) -> (r: Option<u8>)
    ensures
        r matches Some(v) ==> hex_nibble_ok(b) && v == hex_nibble_val(b),
        r is None ==> !hex_nibble_ok(b),
{
    if 48 <= b && b <= 57 {
        Some(b - 48)
    } else if 97 <= b && b <= 102 {
        Some(b - 87)
    } else if 65 <= b && b <= 70 {
        Some(b - 55)
    } else {
        None
    }
}

/// Appends the lowercase hex rendering of `bytes` to `out`.
pub fn push_lower_hex(out: &mut Vec<u8>, bytes: &[u8])
    ensures
        final(out)@ == old(out)@ + lower_hex_of(bytes@),
{
    let n = bytes.len();
    let mut i: usize = 0;
    while i < n
        invariant
            n == bytes@.len(),
            i <= n,
            out@.len() == old(out)@.len() + 2 * i,
            forall|j: int| 0 <= j < old(out)@.len() ==> out@[j] == old(out)@[j],
            forall|j: int|
                0 <= j < 2 * i ==> out@[old(out)@.len() + j] == lower_hex_of(bytes@)[j],
        decreases n - i,
    {
        let b = bytes[i];
        out.push(hex_char_lower_exec(b / 16));
        out.push(hex_char_lower_exec(b % 16));
        i += 1;
    }
    proof {
        assert(final(out)@ =~= old(out)@ + lower_hex_of(bytes@));
    }
}

/// The exec counterpart of `hex_char_lower`.
pub fn hex_char_lower_exec(n: u8) -> (r: u8)
    requires
        n < 16,
    ensures
        r == hex_char_lower(n),
{
    if n < 10 {
        48 + n
    } else {
        87 + n
    }
}

/// Parsing inverts rendering: the `0x`-prefixed lowercase hex form of any
/// 20 bytes parses back to exactly those bytes.
pub proof fn lemma_addr_hex_roundtrip(bytes: Seq<u8>)
    requires
        bytes.len() == 20,
    ensures
        spec_addr_from_hex(hex_with_0x(bytes)) == Some(bytes),
{
    let s = hex_with_0x(bytes);
    let h = strip_0x(s);
    assert(h =~= lower_hex_of(bytes));
    assert(forall|i: int| 0 <= i < 40 ==> hex_nibble_ok(#[trigger] h[i])) by {
        assert(forall|i: int| 0 <= i < 40 ==> {
            let b = lower_hex_of(bytes)[i];
            hex_nibble_ok(#[trigger] h[i]) == hex_nibble_ok(b)
        });
    }
    let rebuilt = spec_addr_from_hex(s)->Some_0;
    assert(rebuilt =~= bytes) by {
        assert(forall|i: int| 0 <= i < 20 ==> #[trigger] rebuilt[i] == bytes[i]) by {
            assert(forall|i: int| 0 <= i < 20 ==> {
                &&& #[trigger] h[2 * i] == hex_char_lower((bytes[i] / 16) as u8)
                &&& h[2 * i + 1] == hex_char_lower((bytes[i] % 16) as u8)
            });
        }
    }
}

} // verus!
