//! Unsigned 256-bit integers, stored as four 64-bit little-endian words.
//!
//! Payment amounts are genuine 256-bit values: comparison and decimal
//! rendering are exact, with no truncation to a narrower machine type.

use vstd::prelude::*;

verus! {

/// The value of one word position, `2^64`.
pub open spec fn pow64() -> nat {
    0x1_0000_0000_0000_0000
}

/// An unsigned 256-bit integer; `w0` is the least significant word.
#[derive(Clone, Copy, PartialEq, Eq, Structural, Debug)]
pub struct Uint256 {
    pub w0: u64,
    pub w1: u64,
    pub w2: u64,
    pub w3: u64,
}

impl Uint256 {
    /// The mathematical value of this integer.
    pub open spec fn val(self) -> nat {
        (self.w0 + self.w1 * 0x1_0000_0000_0000_0000nat
            + self.w2 * 0x1_0000_0000_0000_0000_0000_0000_0000_0000nat
            + self.w3 * 0x1_0000_0000_0000_0000_0000_0000_0000_0000_0000_0000_0000_0000nat) as nat
    }

    pub fn zero() -> (r: Uint256)
        ensures
            r.val() == 0,
    {
        Uint256 { w0: 0, w1: 0, w2: 0, w3: 0 }
    }

    pub fn from_u64(x: u64) -> (r: Uint256)
        ensures
            r.val() == x,
    {
        Uint256 { w0: x, w1: 0, w2: 0, w3: 0 }
    }

    pub fn is_zero(&self) -> (r: bool)
        ensures
            r <==> self.val() == 0,
    {
        self.w0 == 0 && self.w1 == 0 && self.w2 == 0 && self.w3 == 0
    }

    /// Exact comparison over the full 256-bit value.
    pub fn lt(&self, other: &Uint256) -> (r: bool)
        ensures
            r <==> self.val() < other.val(),
    {
        if self.w3 != other.w3 {
            self.w3 < other.w3
        } else if self.w2 != other.w2 {
            self.w2 < other.w2
        } else if self.w1 != other.w1 {
            self.w1 < other.w1
        } else {
            self.w0 < other.w0
        }
    }

    pub fn ge(&self, other: &Uint256) -> (r: bool)
        ensures
            r <==> self.val() >= other.val(),
    {
        !self.lt(other)
    }

    /// Divides by ten, returning the quotient and the remainder digit.
    pub fn divmod10(&self) -> (r: (Uint256, u8))
        ensures
            r.0.val() * 10 + r.1 == self.val(),
            r.1 < 10,
    {
        let c3: u128 = self.w3 as u128;
        let q3: u64 = (c3 / 10) as u64;
        let r3: u64 = (c3 % 10) as u64;
        let c2: u128 = (r3 as u128) * 0x1_0000_0000_0000_0000 + self.w2 as u128;
        let q2: u64 = (c2 / 10) as u64;
        let r2: u64 = (c2 % 10) as u64;
        let c1: u128 = (r2 as u128) * 0x1_0000_0000_0000_0000 + self.w1 as u128;
        let q1: u64 = (c1 / 10) as u64;
        let r1: u64 = (c1 % 10) as u64;
        let c0: u128 = (r1 as u128) * 0x1_0000_0000_0000_0000 + self.w0 as u128;
        let q0: u64 = (c0 / 10) as u64;
        let r0: u64 = (c0 % 10) as u64;
        let q = Uint256 { w0: q0, w1: q1, w2: q2, w3: q3 };
        proof {
            assert(c3 == 10 * (q3 as int) + r3 && r3 < 10);
            assert(c2 == 10 * (q2 as int) + r2 && r2 < 10);
            assert(c1 == 10 * (q1 as int) + r1 && r1 < 10);
            assert(c0 == 10 * (q0 as int) + r0 && r0 < 10);
        }
        (q, r0 as u8)
    }

    /// Multiplies by ten and adds a digit, or reports 256-bit overflow.
    pub fn mul10_add(&self, d: u8) -> (r: Option<Uint256>)
        requires
            d < 10,
        ensures
            r matches Some(v) ==> v.val() == self.val() * 10 + d,
            r is None ==> self.val() * 10 + d >= pow256(),
    {
        let c0: u128 = (self.w0 as u128) * 10 + d as u128;
        let n0: u64 = (c0 % 0x1_0000_0000_0000_0000) as u64;
        let k0: u64 = (c0 / 0x1_0000_0000_0000_0000) as u64;
        let c1: u128 = (self.w1 as u128) * 10 + k0 as u128;
        let n1: u64 = (c1 % 0x1_0000_0000_0000_0000) as u64;
        let k1: u64 = (c1 / 0x1_0000_0000_0000_0000) as u64;
        let c2: u128 = (self.w2 as u128) * 10 + k1 as u128;
        let n2: u64 = (c2 % 0x1_0000_0000_0000_0000) as u64;
        let k2: u64 = (c2 / 0x1_0000_0000_0000_0000) as u64;
        let c3: u128 = (self.w3 as u128) * 10 + k2 as u128;
        let n3: u64 = (c3 % 0x1_0000_0000_0000_0000) as u64;
        let k3: u64 = (c3 / 0x1_0000_0000_0000_0000) as u64;
        let v = Uint256 { w0: n0, w1: n1, w2: n2, w3: n3 };
        proof {
            let b: int = 0x1_0000_0000_0000_0000;
            assert(c0 == b * (k0 as int) + n0);
            assert(c1 == b * (k1 as int) + n1);
            assert(c2 == b * (k2 as int) + n2);
            assert(c3 == b * (k3 as int) + n3);
            assert(v.val() + (k3 as int) * pow256() == self.val() * 10 + d) by {
                assert(c0 == self.w0 * 10 + d);
                assert(c1 == self.w1 * 10 + k0);
                assert(c2 == self.w2 * 10 + k1);
                assert(c3 == self.w3 * 10 + k2);
            }
            assert(v.val() < pow256());
        }
        if k3 == 0 {
            Some(v)
        } else {
            None
        }
    }

    /// The decimal digits of this value, most significant first, as ASCII bytes.
    pub fn to_dec_bytes(&self) -> (r: Vec<u8>)
        ensures
            r@ == dec_of(self.val()),
    {
        if self.is_zero() {
            let mut out: Vec<u8> = Vec::new();
            out.push(48u8);
            proof {
                assert(out@ =~= dec_of(0));
            }
            return out;
        }
        let mut rev: Vec<u8> = Vec::new();
        let mut x: Uint256 = *self;
        proof {
            assert(dec_of(self.val()) =~= dec_of(x.val()) + rev@.reverse());
        }
        while !x.is_zero()
            invariant
                x.val() > 0 ==> dec_of(self.val()) =~= dec_of(x.val()) + rev@.reverse(),
                x.val() == 0 ==> dec_of(self.val()) =~= rev@.reverse(),
                x.val() == 0 ==> rev@.len() > 0,
            decreases x.val(),
        {
            let (q, r) = x.divmod10();
            let ghost old_rev = rev@;
            rev.push(48u8 + r);
            proof {
                assert(rev@.reverse() =~= seq![(48 + r) as u8] + old_rev.reverse());
                assert(x.val() / 10 == q.val() && x.val() % 10 == r);
                if q.val() > 0 {
                    assert(x.val() >= 10);
                    assert(dec_of(x.val()) == dec_of(q.val()).push((48 + r) as u8));
                    assert(dec_of(x.val()) =~= dec_of(q.val()) + seq![(48 + r) as u8]);
                    assert(dec_of(self.val()) =~= dec_of(q.val()) + rev@.reverse());
                } else {
                    assert(x.val() < 10);
                    assert(dec_of(x.val()) =~= seq![(48 + r) as u8]);
                    assert(dec_of(self.val()) =~= rev@.reverse());
                }
            }
            x = q;
        }
        reversed_bytes(&rev)
    }

    /// Parses decimal ASCII digits into a 256-bit value. Fails on an empty
    /// input, a non-digit byte, or a value that does not fit in 256 bits.
    pub fn from_dec_bytes(s: &[u8]) -> (r: Option<Uint256>)
        ensures
            r matches Some(v) ==> s@.len() > 0 && all_dec_digits(s@) && dec_val(s@) < pow256()
                && v.val() == dec_val(s@),
            r is None ==> s@.len() == 0 || !all_dec_digits(s@) || dec_val(s@) >= pow256(),
    {
        let n = s.len();
        if n == 0 {
            return None;
        }
        let mut acc = Uint256::zero();
        let mut i: usize = 0;
        proof {
            assert(s@.subrange(0, 0) =~= Seq::<u8>::empty());
        }
        while i < n
            invariant
                n == s@.len(),
                i <= n,
                all_dec_digits(s@.subrange(0, i as int)),
                acc.val() == dec_val(s@.subrange(0, i as int)),
            decreases n - i,
        {
            let b = s[i];
            if b < 48 || b > 57 {
                assert(!is_dec_digit(s@[i as int]));
                return None;
            }
            let ghost pre = s@.subrange(0, i as int);
            let ghost ext = s@.subrange(0, i + 1);
            proof {
                assert(ext.drop_last() =~= pre);
                assert(ext.last() == s@[i as int]);
                assert(dec_val(ext) == dec_val(pre) * 10 + (b - 48));
            }
            match acc.mul10_add(b - 48) {
                Some(v) => {
                    acc = v;
                },
                None => {
                    proof {
                        assert(dec_val(ext) >= pow256());
                        if all_dec_digits(s@) {
                            lemma_dec_val_prefix_le(s@, i + 1);
                        }
                    }
                    return None;
                },
            }
            i += 1;
        }
        proof {
            assert(s@.subrange(0, n as int) =~= s@);
        }
        Some(acc)
    }
}

/// The value of `2^256`, just above the largest representable value.
pub open spec fn pow256() -> nat {
    0x1_0000_0000_0000_0000_0000_0000_0000_0000_0000_0000_0000_0000_0000_0000_0000_0000nat
}

/// The decimal rendering of a natural number, most significant digit first,
/// as ASCII bytes with no leading zeros.
pub open spec fn dec_of(n: nat) -> Seq<u8>
    decreases n,
{
    if n < 10 {
        seq![(48 + n) as u8]
    } else {
        dec_of(n / 10).push((48 + n % 10) as u8)
    }
}

pub open spec fn is_dec_digit(b: u8) -> bool {
    48 <= b <= 57
}

pub open spec fn all_dec_digits(s: Seq<u8>) -> bool {
    forall|i: int| 0 <= i < s.len() ==> is_dec_digit(#[trigger] s[i])
}

/// The value of a sequence of decimal ASCII digits, most significant first.
pub open spec fn dec_val(s: Seq<u8>) -> nat
    decreases s.len(),
{
    if s.len() == 0 {
        0
    } else {
        (dec_val(s.drop_last()) * 10 + (s.last() - 48)) as nat
    }
}

/// A digit string's value only grows as more digits are appended.
pub proof fn lemma_dec_val_prefix_le(s: Seq<u8>, i: int)
    requires
        all_dec_digits(s),
        0 <= i <= s.len(),
    ensures
        dec_val(s.subrange(0, i)) <= dec_val(s),
    decreases s.len() - i,
{
    if i == s.len() {
        assert(s.subrange(0, i) =~= s);
    } else {
        lemma_dec_val_prefix_le(s, i + 1);
        let ext = s.subrange(0, i + 1);
        assert(ext.drop_last() =~= s.subrange(0, i));
        assert(is_dec_digit(s[i]));
        assert(dec_val(ext) == dec_val(s.subrange(0, i)) * 10 + (s[i] - 48));
    }
}

/// Decimal rendering and decimal parsing agree: `dec_of(n)` is a nonempty
/// digit string whose value is `n`, and it has no leading zero unless it is
/// the single digit `0`.
pub proof fn lemma_dec_of_val(n: nat)
    ensures
        dec_of(n).len() > 0,
        all_dec_digits(dec_of(n)),
        dec_val(dec_of(n)) == n,
        dec_of(n)[0] == 48 ==> n == 0,
    decreases n,
{
    if n < 10 {
        let s = dec_of(n);
        assert(s =~= seq![(48 + n) as u8]);
        assert(s.drop_last() =~= Seq::<u8>::empty());
        assert(s.last() == (48 + n) as u8);
        assert((48 + n) as u8 == 48 + n);
        assert(dec_val(s) == (dec_val(s.drop_last()) * 10 + (s.last() - 48)) as nat);
    } else {
        lemma_dec_of_val(n / 10);
        let s = dec_of(n);
        assert(s == dec_of(n / 10).push((48 + n % 10) as u8));
        assert(s.drop_last() =~= dec_of(n / 10));
        assert(s.last() == (48 + n % 10) as u8);
        assert((48 + n % 10) as u8 == 48 + n % 10);
        assert(dec_val(s) == (dec_val(s.drop_last()) * 10 + (s.last() - 48)) as nat);
        assert(dec_val(s) == (n / 10) * 10 + n % 10);
    }
}

/// Every representable value is below `2^256`.
pub proof fn lemma_val_bound(u: Uint256)
    ensures
        u.val() < pow256(),
{
}

/// The bytes of `v` in reverse order.
pub fn reversed_bytes(v: &Vec<u8>) -> (r: Vec<u8>)
    ensures
        r@ == v@.reverse(),
{
    let mut out: Vec<u8> = Vec::new();
    let n = v.len();
    let mut i: usize = n;
    while i > 0
        invariant
            n == v@.len(),
            i <= n,
            out@.len() == n - i,
            forall|j: int| 0 <= j < out@.len() ==> out@[j] == v@[n - 1 - j],
        decreases i,
    {
        i -= 1;
        out.push(v[i]);
    }
    proof {
        assert(out@ =~= v@.reverse());
    }
    out
}

} // verus!
