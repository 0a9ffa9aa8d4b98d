//! The canonical JSON wire form of the payment records.
//!
//! Encoding renders a record as one fixed JSON object: fields in a fixed
//! order, strings escaped, amounts as quoted decimal strings, addresses as
//! `0x`-prefixed hex, optional fields omitted when absent. Decoding accepts
//! exactly that canonical form (plus the documented legacy spellings) and is
//! specified by exec-mirroring spec functions, so that rendering and parsing
//! are proved to be inverses.

use vstd::prelude::*;

use crate::address::addr_from_hex_bytes;
use crate::address::hex_with_0x;
use crate::address::push_lower_hex;
use crate::address::spec_addr_from_hex;
use crate::address::hex_char_lower_exec;
use crate::address::Address;
use crate::network::Network;
use crate::types::PaymentPayload;
use crate::types::PaymentRequirements;
use crate::types::PayloadView;
use crate::types::ReqView;
use crate::types::SignedPayment;
use crate::types::SignedView;
use crate::uint256::all_dec_digits;
use crate::uint256::dec_of;
use crate::uint256::dec_val;
use crate::uint256::is_dec_digit;
use crate::uint256::pow256;
use crate::uint256::Uint256;
use vstd::utf8::decode_utf8;
use vstd::utf8::encode_utf8;
use vstd::utf8::encode_utf8_decode_utf8;
use vstd::utf8::encode_utf8_valid_utf8;
use vstd::utf8::valid_utf8;

verus! {

/// Matches the exact byte string `lit` at position `i`, returning the
/// position just past it.
pub open spec fn sp_lit(s: Seq<u8>, i: int, lit: Seq<u8>) -> Option<int> {
    if 0 <= i && i + lit.len() <= s.len() && s.subrange(i, i + lit.len()) == lit {
        Some(i + lit.len())
    } else {
        None
    }
}

/// The first position at or after `i` that does not hold a decimal digit.
pub open spec fn digits_end(s: Seq<u8>, i: int) -> int
    decreases s.len() - i,
{
    if i < s.len() && is_dec_digit(s[i]) {
        digits_end(s, i + 1)
    } else {
        i
    }
}

pub proof fn lemma_digits_end_ge(s: Seq<u8>, i: int)
    ensures
        digits_end(s, i) >= i,
        digits_end(s, i) > i ==> digits_end(s, i) <= s.len(),
    decreases s.len() - i,
{
    if i < s.len() && is_dec_digit(s[i]) {
        lemma_digits_end_ge(s, i + 1);
    }
}

/// A run of digits bounded by a non-digit (or the end) parses to there.
pub proof fn lemma_digits_end_range(s: Seq<u8>, i: int, j: int)
    requires
        0 <= i <= j <= s.len(),
        forall|k: int| i <= k < j ==> is_dec_digit(#[trigger] s[k]),
        j < s.len() ==> !is_dec_digit(s[j]),
    ensures
        digits_end(s, i) == j,
    decreases j - i,
{
    if i < j {
        lemma_digits_end_range(s, i + 1, j);
    }
}

/// Parses a run of decimal digits at `i` as a 256-bit value: the digit run
/// must be nonempty and its value must fit in 256 bits.
pub open spec fn sp_u256(s: Seq<u8>, i: int) -> Option<(nat, int)> {
    let j = digits_end(s, i);
    if j == i {
        None
    } else if dec_val(s.subrange(i, j)) < pow256() {
        Some((dec_val(s.subrange(i, j)), j))
    } else {
        None
    }
}

/// As `sp_u256`, further requiring the value to fit in 64 bits.
pub open spec fn sp_u64(s: Seq<u8>, i: int) -> Option<(u64, int)> {
    match sp_u256(s, i) {
        Some((v, j)) => if v < 0x1_0000_0000_0000_0000nat {
            Some((v as u64, j))
        } else {
            None
        },
        None => None,
    }
}

/// As `sp_u256`, further requiring the value to fit in one byte.
pub open spec fn sp_u8(s: Seq<u8>, i: int) -> Option<(u8, int)> {
    match sp_u256(s, i) {
        Some((v, j)) => if v < 256 {
            Some((v as u8, j))
        } else {
            None
        },
        None => None,
    }
}

/// Finds the end of the digit run starting at `i`.
fn scan_digits(s: &[u8], i: usize) -> (j: usize)
    requires
        i <= s@.len(),
    ensures
        j == digits_end(s@, i as int),
        i <= j <= s@.len(),
        forall|k: int| i <= k < j ==> is_dec_digit(#[trigger] s@[k]),
    decreases s@.len() - i,
{
    let mut j = i;
    while j < s.len() && 48 <= s[j] && s[j] <= 57
        invariant
            i <= j <= s@.len(),
            digits_end(s@, i as int) == digits_end(s@, j as int),
            forall|k: int| i <= k < j ==> is_dec_digit(#[trigger] s@[k]),
        decreases s@.len() - j,
    {
        j += 1;
    }
    j
}

/// Parses a nonempty digit run at `i` into a 256-bit value.
pub fn p_u256(s: &[u8], i: usize) -> (r: Option<(Uint256, usize)>)
    requires
        i <= s@.len(),
    ensures
        r matches Some((v, j)) ==> sp_u256(s@, i as int) == Some((v.val(), j as int)) && i < j
            <= s@.len(),
        r is None ==> sp_u256(s@, i as int) is None,
{
    let j = scan_digits(s, i);
    if j == i {
        return None;
    }
    match Uint256::from_dec_bytes(&s[i..j]) {
        Some(v) => {
            proof {
                assert(s@.subrange(i as int, j as int) == s@.subrange(i as int, j as int));
            }
            Some((v, j))
        },
        None => {
            proof {
                assert(all_dec_digits(s@.subrange(i as int, j as int)));
            }
            None
        },
    }
}

/// Parses a nonempty digit run at `i` into a `u64`.
pub fn p_u64(s: &[u8], i: usize) -> (r: Option<(u64, usize)>)
    requires
        i <= s@.len(),
    ensures
        r matches Some((v, j)) ==> sp_u64(s@, i as int) == Some((v, j as int)) && i < j
            <= s@.len(),
        r is None ==> sp_u64(s@, i as int) is None,
{
    match p_u256(s, i) {
        Some((v, j)) => {
            if v.w1 == 0 && v.w2 == 0 && v.w3 == 0 {
                assert(v.val() == v.w0);
                Some((v.w0, j))
            } else {
                assert(v.val() >= 0x1_0000_0000_0000_0000nat);
                None
            }
        },
        None => None,
    }
}

/// Parses a nonempty digit run at `i` into one byte.
pub fn p_u8(s: &[u8], i: usize) -> (r: Option<(u8, usize)>)
    requires
        i <= s@.len(),
    ensures
        r matches Some((v, j)) ==> sp_u8(s@, i as int) == Some((v, j as int)) && i < j
            <= s@.len(),
        r is None ==> sp_u8(s@, i as int) is None,
{
    match p_u64(s, i) {
        Some((v, j)) => {
            if v <= 255 {
                Some((v as u8, j))
            } else {
                None
            }
        },
        None => None,
    }
}

/// The JSON escape of one byte of string content: quotes and backslashes get
/// a backslash, control bytes become `\u00XX`, and every other byte (UTF-8
/// continuation bytes included) stands for itself.
pub open spec fn esc_byte(b: u8) -> Seq<u8> {
    if b == 34 {
        seq![92u8, 34u8]
    } else if b == 92 {
        seq![92u8, 92u8]
    } else if b < 32 {
        seq![
            92u8,
            117u8,
            48u8,
            48u8,
            crate::address::hex_char_lower((b / 16) as u8),
            crate::address::hex_char_lower((b % 16) as u8),
        ]
    } else {
        seq![b]
    }
}

/// The JSON escape of a whole byte string.
pub open spec fn esc_bytes(bs: Seq<u8>) -> Seq<u8>
    decreases bs.len(),
{
    if bs.len() == 0 {
        Seq::empty()
    } else {
        esc_byte(bs[0]) + esc_bytes(bs.drop_first())
    }
}

pub proof fn lemma_esc_bytes_snoc(bs: Seq<u8>, b: u8)
    ensures
        esc_bytes(bs.push(b)) == esc_bytes(bs) + esc_byte(b),
    decreases bs.len(),
{
    if bs.len() == 0 {
        assert(bs.push(b)[0] == b);
        assert(bs.push(b).drop_first() =~= Seq::<u8>::empty());
        assert(esc_bytes(bs.push(b)) == esc_byte(b) + esc_bytes(Seq::<u8>::empty()));
        assert(esc_byte(b) + Seq::<u8>::empty() =~= esc_byte(b));
        assert(esc_bytes(bs) + esc_byte(b) =~= esc_byte(b));
    } else {
        assert(bs.push(b)[0] == bs[0]);
        assert(bs.push(b).drop_first() =~= bs.drop_first().push(b));
        lemma_esc_bytes_snoc(bs.drop_first(), b);
        assert(esc_bytes(bs.push(b)) == esc_byte(bs[0]) + esc_bytes(bs.drop_first().push(b)));
        assert(esc_bytes(bs.push(b)) == esc_byte(bs[0]) + (esc_bytes(bs.drop_first())
            + esc_byte(b)));
        assert(esc_byte(bs[0]) + (esc_bytes(bs.drop_first()) + esc_byte(b)) =~= (esc_byte(bs[0])
            + esc_bytes(bs.drop_first())) + esc_byte(b));
    }
}

/// The canonical JSON string form of text: a quoted, escaped rendering of
/// its UTF-8 bytes.
pub open spec fn jstr_of(cs: Seq<char>) -> Seq<u8> {
    seq![34u8] + esc_bytes(encode_utf8(cs)) + seq![34u8]
}

/// Appends the canonical JSON string form of `s` to `out`.
pub fn push_json_string(out: &mut Vec<u8>, s: &str)
    ensures
        final(out)@ == old(out)@ + jstr_of(s@),
{
    out.push(34u8);
    let bs = s.as_bytes();
    let n = bs.len();
    let mut i: usize = 0;
    proof {
        assert(bs@.take(0) =~= Seq::<u8>::empty());
        assert(out@ =~= old(out)@ + seq![34u8] + esc_bytes(bs@.take(0)));
    }
    while i < n
        invariant
            n == bs@.len(),
            bs@ == encode_utf8(s@),
            i <= n,
            out@ == old(out)@ + seq![34u8] + esc_bytes(bs@.take(i as int)),
        decreases n - i,
    {
        let b = bs[i];
        let ghost pre = out@;
        if b == 34 {
            out.push(92u8);
            out.push(34u8);
        } else if b == 92 {
            out.push(92u8);
            out.push(92u8);
        } else if b < 32 {
            out.push(92u8);
            out.push(117u8);
            out.push(48u8);
            out.push(48u8);
            out.push(hex_char_lower_exec(b / 16));
            out.push(hex_char_lower_exec(b % 16));
        } else {
            out.push(b);
        }
        proof {
            assert(out@ =~= pre + esc_byte(b));
            assert(bs@.take(i + 1) =~= bs@.take(i as int).push(b));
            lemma_esc_bytes_snoc(bs@.take(i as int), b);
            assert(out@ =~= old(out)@ + seq![34u8] + esc_bytes(bs@.take(i + 1)));
        }
        i += 1;
    }
    out.push(34u8);
    proof {
        assert(bs@.take(n as int) =~= bs@);
        assert(final(out)@ =~= old(out)@ + jstr_of(s@));
    }
}

/// Scans escaped string content from `i` up to the closing quote, yielding
/// the unescaped bytes and the position of that quote.
pub open spec fn sp_jsb(s: Seq<u8>, i: int) -> Option<(Seq<u8>, int)>
    decreases s.len() - i,
{
    if i < 0 || i >= s.len() {
        None
    } else if s[i] == 34 {
        Some((Seq::empty(), i))
    } else if s[i] == 92 {
        if i + 1 < s.len() && (s[i + 1] == 34 || s[i + 1] == 92) {
            match sp_jsb(s, i + 2) {
                Some((c, j)) => Some((seq![s[i + 1]] + c, j)),
                None => None,
            }
        } else if i + 5 < s.len() && s[i + 1] == 117 && s[i + 2] == 48 && s[i + 3] == 48
            && crate::address::hex_nibble_ok(s[i + 4]) && crate::address::hex_nibble_ok(s[i + 5])
            && 16 * crate::address::hex_nibble_val(s[i + 4]) + crate::address::hex_nibble_val(
            s[i + 5],
        ) < 128 {
            let b = (16 * crate::address::hex_nibble_val(s[i + 4])
                + crate::address::hex_nibble_val(s[i + 5])) as u8;
            match sp_jsb(s, i + 6) {
                Some((c, j)) => Some((seq![b] + c, j)),
                None => None,
            }
        } else {
            None
        }
    } else if s[i] >= 32 {
        match sp_jsb(s, i + 1) {
            Some((c, j)) => Some((seq![s[i]] + c, j)),
            None => None,
        }
    } else {
        None
    }
}

/// Iteratively unescapes string content, mirroring `sp_jsb`.
fn p_jsb(s: &[u8], i: usize) -> (r: Option<(Vec<u8>, usize)>)
    requires
        i <= s@.len(),
    ensures
        r matches Some((c, j)) ==> sp_jsb(s@, i as int) == Some((c@, j as int)) && i <= j
            < s@.len(),
        r is None ==> sp_jsb(s@, i as int) is None,
{
    let mut acc: Vec<u8> = Vec::new();
    let mut cur: usize = i;
    loop
        invariant
            i <= cur <= s@.len(),
            sp_jsb(s@, i as int) == (match sp_jsb(s@, cur as int) {
                Some((c, j)) => Some((acc@ + c, j)),
                None => None::<(Seq<u8>, int)>,
            }),
        decreases s@.len() - cur,
    {
        if cur >= s.len() {
            return None;
        }
        let b = s[cur];
        if b == 34 {
            proof {
                assert(acc@ + Seq::<u8>::empty() =~= acc@);
            }
            return Some((acc, cur));
        } else if b == 92 {
            if cur + 1 < s.len() && (s[cur + 1] == 34 || s[cur + 1] == 92) {
                let ghost pre = acc@;
                let e = s[cur + 1];
                acc.push(e);
                proof {
                    lemma_jsb_step_assoc(s@, i as int, cur as int, pre, seq![e], cur + 2);
                }
                cur = cur + 2;
            } else if s.len() - cur > 6 && s[cur + 1] == 117 && s[cur + 2] == 48 && s[cur + 3]
                == 48 {
                let hi = match crate::address::hex_nibble(s[cur + 4]) {
                    Some(v) => v,
                    None => {
                        return None;
                    },
                };
                let lo = match crate::address::hex_nibble(s[cur + 5]) {
                    Some(v) => v,
                    None => {
                        return None;
                    },
                };
                let v = 16 * hi + lo;
                if v >= 128 {
                    return None;
                }
                let ghost pre = acc@;
                acc.push(v);
                proof {
                    lemma_jsb_step_assoc(s@, i as int, cur as int, pre, seq![v], cur + 6);
                }
                cur = cur + 6;
            } else {
                return None;
            }
        } else if b >= 32 {
            let ghost pre = acc@;
            acc.push(b);
            proof {
                lemma_jsb_step_assoc(s@, i as int, cur as int, pre, seq![b], cur + 1);
            }
            cur = cur + 1;
        } else {
            return None;
        }
    }
}

/// One unescaping step preserves the continuation invariant of `p_jsb`:
/// when scanning from `cur` yields `piece` and then continues at `next`,
/// accumulating `piece` and moving on agrees with the whole scan.
proof fn lemma_jsb_step_assoc(s: Seq<u8>, i: int, cur: int, pre: Seq<u8>, piece: Seq<u8>, next: int)
    requires
        sp_jsb(s, i) == (match sp_jsb(s, cur) {
            Some((c, j)) => Some((pre + c, j)),
            None => None::<(Seq<u8>, int)>,
        }),
        sp_jsb(s, cur) == (match sp_jsb(s, next) {
            Some((c, j)) => Some((piece + c, j)),
            None => None::<(Seq<u8>, int)>,
        }),
    ensures
        sp_jsb(s, i) == (match sp_jsb(s, next) {
            Some((c, j)) => Some(((pre + piece) + c, j)),
            None => None::<(Seq<u8>, int)>,
        }),
{
    match sp_jsb(s, next) {
        Some((c, j)) => {
            assert(pre + (piece + c) =~= (pre + piece) + c);
        },
        None => {},
    }
}

/// Parses a quoted JSON string at `i`, yielding the unescaped content bytes
/// and the position just past the closing quote.
pub open spec fn sp_jstring(s: Seq<u8>, i: int) -> Option<(Seq<u8>, int)> {
    if 0 <= i && i < s.len() && s[i] == 34 {
        match sp_jsb(s, i + 1) {
            Some((c, j)) => Some((c, j + 1)),
            None => None,
        }
    } else {
        None
    }
}

/// As `sp_jstring`, but further requiring the content to be valid UTF-8,
/// yielding the decoded text.
pub open spec fn sp_jtext(s: Seq<u8>, i: int) -> Option<(Seq<char>, int)> {
    match sp_jstring(s, i) {
        Some((c, j)) => if valid_utf8(c) {
            Some((decode_utf8(c), j))
        } else {
            None
        },
        None => None,
    }
}

/// Relies on `String::from_utf8`: it succeeds exactly on valid UTF-8 input
/// and returns the string holding those bytes.
#[verifier::external_body]
fn string_from_utf8(bytes: Vec<u8>) -> (r: Result<String, ()>)
    ensures
        r matches Ok(st) ==> bytes@ == encode_utf8(st@),
        (exists|cs: Seq<char>| bytes@ == encode_utf8(cs)) ==> r is Ok,
{
    String::from_utf8(bytes).map_err(|_| ())
}

/// Parses a quoted JSON string at `i` into text.
pub fn p_jtext(s: &[u8], i: usize) -> (r: Option<(String, usize)>)
    requires
        i <= s@.len(),
    ensures
        r matches Some((st, j)) ==> sp_jtext(s@, i as int) == Some((st@, j as int)) && i < j
            <= s@.len(),
        r is None ==> sp_jtext(s@, i as int) is None,
{
    if i >= s.len() || s[i] != 34 {
        return None;
    }
    let (content, j) = match p_jsb(s, i + 1) {
        Some(pair) => pair,
        None => {
            return None;
        },
    };
    let ghost cbytes = content@;
    match string_from_utf8(content) {
        Ok(st) => {
            proof {
                encode_utf8_valid_utf8(st@);
                encode_utf8_decode_utf8(st@);
            }
            Some((st, j + 1))
        },
        Err(_) => {
            proof {
                if valid_utf8(cbytes) {
                    vstd::utf8::decode_utf8_encode_utf8(cbytes);
                    assert(cbytes == encode_utf8(decode_utf8(cbytes)));
                }
            }
            None
        },
    }
}

/// The position of the first quote at or after `i`.
pub open spec fn quote_end(s: Seq<u8>, i: int) -> Option<int>
    decreases s.len() - i,
{
    if i < 0 || i >= s.len() {
        None
    } else if s[i] == 34 {
        Some(i)
    } else {
        quote_end(s, i + 1)
    }
}

/// Finds the first quote at or after `i`.
fn scan_quote(s: &[u8], i: usize) -> (r: Option<usize>)
    requires
        i <= s@.len(),
    ensures
        r matches Some(j) ==> quote_end(s@, i as int) == Some(j as int) && i <= j < s@.len()
            && s@[j as int] == 34,
        r is None ==> quote_end(s@, i as int) is None,
{
    let mut cur = i;
    while cur < s.len() && s[cur] != 34
        invariant
            i <= cur <= s@.len(),
            quote_end(s@, i as int) == quote_end(s@, cur as int),
        decreases s@.len() - cur,
    {
        cur += 1;
    }
    if cur < s.len() {
        Some(cur)
    } else {
        None
    }
}

/// The canonical JSON form of an address: its quoted `0x` hex rendering.
pub open spec fn jaddr_of(a: Seq<u8>) -> Seq<u8> {
    seq![34u8] + hex_with_0x(a) + seq![34u8]
}

/// Appends the canonical JSON form of an address to `out`.
pub fn push_jaddr(out: &mut Vec<u8>, a: &Address)
    ensures
        final(out)@ == old(out)@ + jaddr_of(a@),
{
    out.push(34u8);
    out.push(48u8);
    out.push(120u8);
    push_lower_hex(out, &a.bytes);
    out.push(34u8);
    proof {
        assert(final(out)@ =~= old(out)@ + jaddr_of(a@));
    }
}

/// Parses a quoted hex address at `i`.
pub open spec fn sp_jaddr(s: Seq<u8>, i: int) -> Option<(Seq<u8>, int)> {
    if 0 <= i && i < s.len() && s[i] == 34 {
        match quote_end(s, i + 1) {
            Some(j) => match spec_addr_from_hex(s.subrange(i + 1, j)) {
                Some(b) => Some((b, j + 1)),
                None => None,
            },
            None => None,
        }
    } else {
        None
    }
}

pub fn p_jaddr(s: &[u8], i: usize) -> (r: Option<(Address, usize)>)
    requires
        i <= s@.len(),
    ensures
        r matches Some((a, j)) ==> sp_jaddr(s@, i as int) == Some((a@, j as int)) && i < j
            <= s@.len(),
        r is None ==> sp_jaddr(s@, i as int) is None,
{
    if i >= s.len() || s[i] != 34 {
        return None;
    }
    let j = match scan_quote(s, i + 1) {
        Some(j) => j,
        None => {
            return None;
        },
    };
    match addr_from_hex_bytes(&s[i + 1..j]) {
        Some(a) => Some((a, j + 1)),
        None => None,
    }
}

/// The canonical JSON form of a network: its quoted wire name.
pub open spec fn jnetwork_of(n: Network) -> Seq<u8> {
    seq![34u8] + n.spec_name_bytes() + seq![34u8]
}

/// Appends the canonical JSON form of a network to `out`.
pub fn push_jnetwork(out: &mut Vec<u8>, n: &Network)
    ensures
        final(out)@ == old(out)@ + jnetwork_of(*n),
{
    out.push(34u8);
    n.push_name_bytes(out);
    out.push(34u8);
    proof {
        assert(final(out)@ =~= old(out)@ + jnetwork_of(*n));
    }
}

/// Parses a quoted network name at `i`.
pub open spec fn sp_jnetwork(s: Seq<u8>, i: int) -> Option<(Network, int)> {
    if 0 <= i && i < s.len() && s[i] == 34 {
        match quote_end(s, i + 1) {
            Some(j) => match Network::spec_from_name_bytes(s.subrange(i + 1, j)) {
                Some(n) => Some((n, j + 1)),
                None => None,
            },
            None => None,
        }
    } else {
        None
    }
}

pub fn p_jnetwork(s: &[u8], i: usize) -> (r: Option<(Network, usize)>)
    requires
        i <= s@.len(),
    ensures
        r matches Some((n, j)) ==> sp_jnetwork(s@, i as int) == Some((n, j as int)) && i < j
            <= s@.len(),
        r is None ==> sp_jnetwork(s@, i as int) is None,
{
    if i >= s.len() || s[i] != 34 {
        return None;
    }
    let j = match scan_quote(s, i + 1) {
        Some(j) => j,
        None => {
            return None;
        },
    };
    match Network::from_name_bytes(&s[i + 1..j]) {
        Some(n) => Some((n, j + 1)),
        None => None,
    }
}

/// The label bytes `{\"amount\":\"`.
pub open spec fn lit_l_obj_amount() -> Seq<u8> {
    seq![123u8, 34u8, 97u8, 109u8, 111u8, 117u8, 110u8, 116u8, 34u8, 58u8, 34u8]
}

/// Appends `lit_l_obj_amount()` to `out`.
pub fn push_l_obj_amount(out: &mut Vec<u8>)
    ensures
        final(out)@ == old(out)@ + lit_l_obj_amount(),
{
    out.push(123u8);
    out.push(34u8);
    out.push(97u8);
    out.push(109u8);
    out.push(111u8);
    out.push(117u8);
    out.push(110u8);
    out.push(116u8);
    out.push(34u8);
    out.push(58u8);
    out.push(34u8);
    assert(final(out)@ =~= old(out)@ + lit_l_obj_amount());
}

/// Matches `lit_l_obj_amount()` at position `i`.
pub fn scan_l_obj_amount(s: &[u8], i: usize) -> (r: Option<usize>)
    requires
        i <= s@.len(),
    ensures
        r matches Some(j) ==> sp_lit(s@, i as int, lit_l_obj_amount()) == Some(j as int)
            && j == i + 11 && j <= s@.len(),
        r is None ==> sp_lit(s@, i as int, lit_l_obj_amount()) is None,
{
    if s.len() - i < 11 {
        return None;
    }
    if s[i + 0] != 123u8 {
        proof {
            assert(s@.subrange(i as int, i + 11) != lit_l_obj_amount()) by {
                assert(s@.subrange(i as int, i + 11)[0] != lit_l_obj_amount()[0]);
            }
        }
        return None;
    }
    if s[i + 1] != 34u8 {
        proof {
            assert(s@.subrange(i as int, i + 11) != lit_l_obj_amount()) by {
                assert(s@.subrange(i as int, i + 11)[1] != lit_l_obj_amount()[1]);
            }
        }
        return None;
    }
    if s[i + 2] != 97u8 {
        proof {
            assert(s@.subrange(i as int, i + 11) != lit_l_obj_amount()) by {
                assert(s@.subrange(i as int, i + 11)[2] != lit_l_obj_amount()[2]);
            }
        }
        return None;
    }
    if s[i + 3] != 109u8 {
        proof {
            assert(s@.subrange(i as int, i + 11) != lit_l_obj_amount()) by {
                assert(s@.subrange(i as int, i + 11)[3] != lit_l_obj_amount()[3]);
            }
        }
        return None;
    }
    if s[i + 4] != 111u8 {
        proof {
            assert(s@.subrange(i as int, i + 11) != lit_l_obj_amount()) by {
                assert(s@.subrange(i as int, i + 11)[4] != lit_l_obj_amount()[4]);
            }
        }
        return None;
    }
    if s[i + 5] != 117u8 {
        proof {
            assert(s@.subrange(i as int, i + 11) != lit_l_obj_amount()) by {
                assert(s@.subrange(i as int, i + 11)[5] != lit_l_obj_amount()[5]);
            }
        }
        return None;
    }
    if s[i + 6] != 110u8 {
        proof {
            assert(s@.subrange(i as int, i + 11) != lit_l_obj_amount()) by {
                assert(s@.subrange(i as int, i + 11)[6] != lit_l_obj_amount()[6]);
            }
        }
        return None;
    }
    if s[i + 7] != 116u8 {
        proof {
            assert(s@.subrange(i as int, i + 11) != lit_l_obj_amount()) by {
                assert(s@.subrange(i as int, i + 11)[7] != lit_l_obj_amount()[7]);
            }
        }
        return None;
    }
    if s[i + 8] != 34u8 {
        proof {
            assert(s@.subrange(i as int, i + 11) != lit_l_obj_amount()) by {
                assert(s@.subrange(i as int, i + 11)[8] != lit_l_obj_amount()[8]);
            }
        }
        return None;
    }
    if s[i + 9] != 58u8 {
        proof {
            assert(s@.subrange(i as int, i + 11) != lit_l_obj_amount()) by {
                assert(s@.subrange(i as int, i + 11)[9] != lit_l_obj_amount()[9]);
            }
        }
        return None;
    }
    if s[i + 10] != 34u8 {
        proof {
            assert(s@.subrange(i as int, i + 11) != lit_l_obj_amount()) by {
                assert(s@.subrange(i as int, i + 11)[10] != lit_l_obj_amount()[10]);
            }
        }
        return None;
    }
    proof {
        assert(s@.subrange(i as int, i + 11) =~= lit_l_obj_amount());
    }
    Some(i + 11)
}

/// The label bytes `\",\"recipient\":`.
pub open spec fn lit_l_q_recipient() -> Seq<u8> {
    seq![34u8, 44u8, 34u8, 114u8, 101u8, 99u8, 105u8, 112u8, 105u8, 101u8, 110u8, 116u8, 34u8, 58u8]
}

/// Appends `lit_l_q_recipient()` to `out`.
pub fn push_l_q_recipient(out: &mut Vec<u8>)
    ensures
        final(out)@ == old(out)@ + lit_l_q_recipient(),
{
    out.push(34u8);
    out.push(44u8);
    out.push(34u8);
    out.push(114u8);
    out.push(101u8);
    out.push(99u8);
    out.push(105u8);
    out.push(112u8);
    out.push(105u8);
    out.push(101u8);
    out.push(110u8);
    out.push(116u8);
    out.push(34u8);
    out.push(58u8);
    assert(final(out)@ =~= old(out)@ + lit_l_q_recipient());
}

/// Matches `lit_l_q_recipient()` at position `i`.
pub fn scan_l_q_recipient(s: &[u8], i: usize) -> (r: Option<usize>)
    requires
        i <= s@.len(),
    ensures
        r matches Some(j) ==> sp_lit(s@, i as int, lit_l_q_recipient()) == Some(j as int)
            && j == i + 14 && j <= s@.len(),
        r is None ==> sp_lit(s@, i as int, lit_l_q_recipient()) is None,
{
    if s.len() - i < 14 {
        return None;
    }
    if s[i + 0] != 34u8 {
        proof {
            assert(s@.subrange(i as int, i + 14) != lit_l_q_recipient()) by {
                assert(s@.subrange(i as int, i + 14)[0] != lit_l_q_recipient()[0]);
            }
        }
        return None;
    }
    if s[i + 1] != 44u8 {
        proof {
            assert(s@.subrange(i as int, i + 14) != lit_l_q_recipient()) by {
                assert(s@.subrange(i as int, i + 14)[1] != lit_l_q_recipient()[1]);
            }
        }
        return None;
    }
    if s[i + 2] != 34u8 {
        proof {
            assert(s@.subrange(i as int, i + 14) != lit_l_q_recipient()) by {
                assert(s@.subrange(i as int, i + 14)[2] != lit_l_q_recipient()[2]);
            }
        }
        return None;
    }
    if s[i + 3] != 114u8 {
        proof {
            assert(s@.subrange(i as int, i + 14) != lit_l_q_recipient()) by {
                assert(s@.subrange(i as int, i + 14)[3] != lit_l_q_recipient()[3]);
            }
        }
        return None;
    }
    if s[i + 4] != 101u8 {
        proof {
            assert(s@.subrange(i as int, i + 14) != lit_l_q_recipient()) by {
                assert(s@.subrange(i as int, i + 14)[4] != lit_l_q_recipient()[4]);
            }
        }
        return None;
    }
    if s[i + 5] != 99u8 {
        proof {
            assert(s@.subrange(i as int, i + 14) != lit_l_q_recipient()) by {
                assert(s@.subrange(i as int, i + 14)[5] != lit_l_q_recipient()[5]);
            }
        }
        return None;
    }
    if s[i + 6] != 105u8 {
        proof {
            assert(s@.subrange(i as int, i + 14) != lit_l_q_recipient()) by {
                assert(s@.subrange(i as int, i + 14)[6] != lit_l_q_recipient()[6]);
            }
        }
        return None;
    }
    if s[i + 7] != 112u8 {
        proof {
            assert(s@.subrange(i as int, i + 14) != lit_l_q_recipient()) by {
                assert(s@.subrange(i as int, i + 14)[7] != lit_l_q_recipient()[7]);
            }
        }
        return None;
    }
    if s[i + 8] != 105u8 {
        proof {
            assert(s@.subrange(i as int, i + 14) != lit_l_q_recipient()) by {
                assert(s@.subrange(i as int, i + 14)[8] != lit_l_q_recipient()[8]);
            }
        }
        return None;
    }
    if s[i + 9] != 101u8 {
        proof {
            assert(s@.subrange(i as int, i + 14) != lit_l_q_recipient()) by {
                assert(s@.subrange(i as int, i + 14)[9] != lit_l_q_recipient()[9]);
            }
        }
        return None;
    }
    if s[i + 10] != 110u8 {
        proof {
            assert(s@.subrange(i as int, i + 14) != lit_l_q_recipient()) by {
                assert(s@.subrange(i as int, i + 14)[10] != lit_l_q_recipient()[10]);
            }
        }
        return None;
    }
    if s[i + 11] != 116u8 {
        proof {
            assert(s@.subrange(i as int, i + 14) != lit_l_q_recipient()) by {
                assert(s@.subrange(i as int, i + 14)[11] != lit_l_q_recipient()[11]);
            }
        }
        return None;
    }
    if s[i + 12] != 34u8 {
        proof {
            assert(s@.subrange(i as int, i + 14) != lit_l_q_recipient()) by {
                assert(s@.subrange(i as int, i + 14)[12] != lit_l_q_recipient()[12]);
            }
        }
        return None;
    }
    if s[i + 13] != 58u8 {
        proof {
            assert(s@.subrange(i as int, i + 14) != lit_l_q_recipient()) by {
                assert(s@.subrange(i as int, i + 14)[13] != lit_l_q_recipient()[13]);
            }
        }
        return None;
    }
    proof {
        assert(s@.subrange(i as int, i + 14) =~= lit_l_q_recipient());
    }
    Some(i + 14)
}

/// The label bytes `,\"network\":`.
pub open spec fn lit_l_network() -> Seq<u8> {
    seq![44u8, 34u8, 110u8, 101u8, 116u8, 119u8, 111u8, 114u8, 107u8, 34u8, 58u8]
}

/// Appends `lit_l_network()` to `out`.
pub fn push_l_network(out: &mut Vec<u8>)
    ensures
        final(out)@ == old(out)@ + lit_l_network(),
{
    out.push(44u8);
    out.push(34u8);
    out.push(110u8);
    out.push(101u8);
    out.push(116u8);
    out.push(119u8);
    out.push(111u8);
    out.push(114u8);
    out.push(107u8);
    out.push(34u8);
    out.push(58u8);
    assert(final(out)@ =~= old(out)@ + lit_l_network());
}

/// Matches `lit_l_network()` at position `i`.
pub fn scan_l_network(s: &[u8], i: usize) -> (r: Option<usize>)
    requires
        i <= s@.len(),
    ensures
        r matches Some(j) ==> sp_lit(s@, i as int, lit_l_network()) == Some(j as int)
            && j == i + 11 && j <= s@.len(),
        r is None ==> sp_lit(s@, i as int, lit_l_network()) is None,
{
    if s.len() - i < 11 {
        return None;
    }
    if s[i + 0] != 44u8 {
        proof {
            assert(s@.subrange(i as int, i + 11) != lit_l_network()) by {
                assert(s@.subrange(i as int, i + 11)[0] != lit_l_network()[0]);
            }
        }
        return None;
    }
    if s[i + 1] != 34u8 {
        proof {
            assert(s@.subrange(i as int, i + 11) != lit_l_network()) by {
                assert(s@.subrange(i as int, i + 11)[1] != lit_l_network()[1]);
            }
        }
        return None;
    }
    if s[i + 2] != 110u8 {
        proof {
            assert(s@.subrange(i as int, i + 11) != lit_l_network()) by {
                assert(s@.subrange(i as int, i + 11)[2] != lit_l_network()[2]);
            }
        }
        return None;
    }
    if s[i + 3] != 101u8 {
        proof {
            assert(s@.subrange(i as int, i + 11) != lit_l_network()) by {
                assert(s@.subrange(i as int, i + 11)[3] != lit_l_network()[3]);
            }
        }
        return None;
    }
    if s[i + 4] != 116u8 {
        proof {
            assert(s@.subrange(i as int, i + 11) != lit_l_network()) by {
                assert(s@.subrange(i as int, i + 11)[4] != lit_l_network()[4]);
            }
        }
        return None;
    }
    if s[i + 5] != 119u8 {
        proof {
            assert(s@.subrange(i as int, i + 11) != lit_l_network()) by {
                assert(s@.subrange(i as int, i + 11)[5] != lit_l_network()[5]);
            }
        }
        return None;
    }
    if s[i + 6] != 111u8 {
        proof {
            assert(s@.subrange(i as int, i + 11) != lit_l_network()) by {
                assert(s@.subrange(i as int, i + 11)[6] != lit_l_network()[6]);
            }
        }
        return None;
    }
    if s[i + 7] != 114u8 {
        proof {
            assert(s@.subrange(i as int, i + 11) != lit_l_network()) by {
                assert(s@.subrange(i as int, i + 11)[7] != lit_l_network()[7]);
            }
        }
        return None;
    }
    if s[i + 8] != 107u8 {
        proof {
            assert(s@.subrange(i as int, i + 11) != lit_l_network()) by {
                assert(s@.subrange(i as int, i + 11)[8] != lit_l_network()[8]);
            }
        }
        return None;
    }
    if s[i + 9] != 34u8 {
        proof {
            assert(s@.subrange(i as int, i + 11) != lit_l_network()) by {
                assert(s@.subrange(i as int, i + 11)[9] != lit_l_network()[9]);
            }
        }
        return None;
    }
    if s[i + 10] != 58u8 {
        proof {
            assert(s@.subrange(i as int, i + 11) != lit_l_network()) by {
                assert(s@.subrange(i as int, i + 11)[10] != lit_l_network()[10]);
            }
        }
        return None;
    }
    proof {
        assert(s@.subrange(i as int, i + 11) =~= lit_l_network());
    }
    Some(i + 11)
}

/// The label bytes `,\"token\":`.
pub open spec fn lit_l_token() -> Seq<u8> {
    seq![44u8, 34u8, 116u8, 111u8, 107u8, 101u8, 110u8, 34u8, 58u8]
}

/// Appends `lit_l_token()` to `out`.
pub fn push_l_token(out: &mut Vec<u8>)
    ensures
        final(out)@ == old(out)@ + lit_l_token(),
{
    out.push(44u8);
    out.push(34u8);
    out.push(116u8);
    out.push(111u8);
    out.push(107u8);
    out.push(101u8);
    out.push(110u8);
    out.push(34u8);
    out.push(58u8);
    assert(final(out)@ =~= old(out)@ + lit_l_token());
}

/// Matches `lit_l_token()` at position `i`.
pub fn scan_l_token(s: &[u8], i: usize) -> (r: Option<usize>)
    requires
        i <= s@.len(),
    ensures
        r matches Some(j) ==> sp_lit(s@, i as int, lit_l_token()) == Some(j as int)
            && j == i + 9 && j <= s@.len(),
        r is None ==> sp_lit(s@, i as int, lit_l_token()) is None,
{
    if s.len() - i < 9 {
        return None;
    }
    if s[i + 0] != 44u8 {
        proof {
            assert(s@.subrange(i as int, i + 9) != lit_l_token()) by {
                assert(s@.subrange(i as int, i + 9)[0] != lit_l_token()[0]);
            }
        }
        return None;
    }
    if s[i + 1] != 34u8 {
        proof {
            assert(s@.subrange(i as int, i + 9) != lit_l_token()) by {
                assert(s@.subrange(i as int, i + 9)[1] != lit_l_token()[1]);
            }
        }
        return None;
    }
    if s[i + 2] != 116u8 {
        proof {
            assert(s@.subrange(i as int, i + 9) != lit_l_token()) by {
                assert(s@.subrange(i as int, i + 9)[2] != lit_l_token()[2]);
            }
        }
        return None;
    }
    if s[i + 3] != 111u8 {
        proof {
            assert(s@.subrange(i as int, i + 9) != lit_l_token()) by {
                assert(s@.subrange(i as int, i + 9)[3] != lit_l_token()[3]);
            }
        }
        return None;
    }
    if s[i + 4] != 107u8 {
        proof {
            assert(s@.subrange(i as int, i + 9) != lit_l_token()) by {
                assert(s@.subrange(i as int, i + 9)[4] != lit_l_token()[4]);
            }
        }
        return None;
    }
    if s[i + 5] != 101u8 {
        proof {
            assert(s@.subrange(i as int, i + 9) != lit_l_token()) by {
                assert(s@.subrange(i as int, i + 9)[5] != lit_l_token()[5]);
            }
        }
        return None;
    }
    if s[i + 6] != 110u8 {
        proof {
            assert(s@.subrange(i as int, i + 9) != lit_l_token()) by {
                assert(s@.subrange(i as int, i + 9)[6] != lit_l_token()[6]);
            }
        }
        return None;
    }
    if s[i + 7] != 34u8 {
        proof {
            assert(s@.subrange(i as int, i + 9) != lit_l_token()) by {
                assert(s@.subrange(i as int, i + 9)[7] != lit_l_token()[7]);
            }
        }
        return None;
    }
    if s[i + 8] != 58u8 {
        proof {
            assert(s@.subrange(i as int, i + 9) != lit_l_token()) by {
                assert(s@.subrange(i as int, i + 9)[8] != lit_l_token()[8]);
            }
        }
        return None;
    }
    proof {
        assert(s@.subrange(i as int, i + 9) =~= lit_l_token());
    }
    Some(i + 9)
}

/// The label bytes `,\"description\":`.
pub open spec fn lit_l_description() -> Seq<u8> {
    seq![44u8, 34u8, 100u8, 101u8, 115u8, 99u8, 114u8, 105u8, 112u8, 116u8, 105u8, 111u8, 110u8, 34u8, 58u8]
}

/// Appends `lit_l_description()` to `out`.
pub fn push_l_description(out: &mut Vec<u8>)
    ensures
        final(out)@ == old(out)@ + lit_l_description(),
{
    out.push(44u8);
    out.push(34u8);
    out.push(100u8);
    out.push(101u8);
    out.push(115u8);
    out.push(99u8);
    out.push(114u8);
    out.push(105u8);
    out.push(112u8);
    out.push(116u8);
    out.push(105u8);
    out.push(111u8);
    out.push(110u8);
    out.push(34u8);
    out.push(58u8);
    assert(final(out)@ =~= old(out)@ + lit_l_description());
}

/// Matches `lit_l_description()` at position `i`.
pub fn scan_l_description(s: &[u8], i: usize) -> (r: Option<usize>)
    requires
        i <= s@.len(),
    ensures
        r matches Some(j) ==> sp_lit(s@, i as int, lit_l_description()) == Some(j as int)
            && j == i + 15 && j <= s@.len(),
        r is None ==> sp_lit(s@, i as int, lit_l_description()) is None,
{
    if s.len() - i < 15 {
        return None;
    }
    if s[i + 0] != 44u8 {
        proof {
            assert(s@.subrange(i as int, i + 15) != lit_l_description()) by {
                assert(s@.subrange(i as int, i + 15)[0] != lit_l_description()[0]);
            }
        }
        return None;
    }
    if s[i + 1] != 34u8 {
        proof {
            assert(s@.subrange(i as int, i + 15) != lit_l_description()) by {
                assert(s@.subrange(i as int, i + 15)[1] != lit_l_description()[1]);
            }
        }
        return None;
    }
    if s[i + 2] != 100u8 {
        proof {
            assert(s@.subrange(i as int, i + 15) != lit_l_description()) by {
                assert(s@.subrange(i as int, i + 15)[2] != lit_l_description()[2]);
            }
        }
        return None;
    }
    if s[i + 3] != 101u8 {
        proof {
            assert(s@.subrange(i as int, i + 15) != lit_l_description()) by {
                assert(s@.subrange(i as int, i + 15)[3] != lit_l_description()[3]);
            }
        }
        return None;
    }
    if s[i + 4] != 115u8 {
        proof {
            assert(s@.subrange(i as int, i + 15) != lit_l_description()) by {
                assert(s@.subrange(i as int, i + 15)[4] != lit_l_description()[4]);
            }
        }
        return None;
    }
    if s[i + 5] != 99u8 {
        proof {
            assert(s@.subrange(i as int, i + 15) != lit_l_description()) by {
                assert(s@.subrange(i as int, i + 15)[5] != lit_l_description()[5]);
            }
        }
        return None;
    }
    if s[i + 6] != 114u8 {
        proof {
            assert(s@.subrange(i as int, i + 15) != lit_l_description()) by {
                assert(s@.subrange(i as int, i + 15)[6] != lit_l_description()[6]);
            }
        }
        return None;
    }
    if s[i + 7] != 105u8 {
        proof {
            assert(s@.subrange(i as int, i + 15) != lit_l_description()) by {
                assert(s@.subrange(i as int, i + 15)[7] != lit_l_description()[7]);
            }
        }
        return None;
    }
    if s[i + 8] != 112u8 {
        proof {
            assert(s@.subrange(i as int, i + 15) != lit_l_description()) by {
                assert(s@.subrange(i as int, i + 15)[8] != lit_l_description()[8]);
            }
        }
        return None;
    }
    if s[i + 9] != 116u8 {
        proof {
            assert(s@.subrange(i as int, i + 15) != lit_l_description()) by {
                assert(s@.subrange(i as int, i + 15)[9] != lit_l_description()[9]);
            }
        }
        return None;
    }
    if s[i + 10] != 105u8 {
        proof {
            assert(s@.subrange(i as int, i + 15) != lit_l_description()) by {
                assert(s@.subrange(i as int, i + 15)[10] != lit_l_description()[10]);
            }
        }
        return None;
    }
    if s[i + 11] != 111u8 {
        proof {
            assert(s@.subrange(i as int, i + 15) != lit_l_description()) by {
                assert(s@.subrange(i as int, i + 15)[11] != lit_l_description()[11]);
            }
        }
        return None;
    }
    if s[i + 12] != 110u8 {
        proof {
            assert(s@.subrange(i as int, i + 15) != lit_l_description()) by {
                assert(s@.subrange(i as int, i + 15)[12] != lit_l_description()[12]);
            }
        }
        return None;
    }
    if s[i + 13] != 34u8 {
        proof {
            assert(s@.subrange(i as int, i + 15) != lit_l_description()) by {
                assert(s@.subrange(i as int, i + 15)[13] != lit_l_description()[13]);
            }
        }
        return None;
    }
    if s[i + 14] != 58u8 {
        proof {
            assert(s@.subrange(i as int, i + 15) != lit_l_description()) by {
                assert(s@.subrange(i as int, i + 15)[14] != lit_l_description()[14]);
            }
        }
        return None;
    }
    proof {
        assert(s@.subrange(i as int, i + 15) =~= lit_l_description());
    }
    Some(i + 15)
}

/// The label bytes `,\"expiresAt\":`.
pub open spec fn lit_l_expires_at() -> Seq<u8> {
    seq![44u8, 34u8, 101u8, 120u8, 112u8, 105u8, 114u8, 101u8, 115u8, 65u8, 116u8, 34u8, 58u8]
}

/// Appends `lit_l_expires_at()` to `out`.
pub fn push_l_expires_at(out: &mut Vec<u8>)
    ensures
        final(out)@ == old(out)@ + lit_l_expires_at(),
{
    out.push(44u8);
    out.push(34u8);
    out.push(101u8);
    out.push(120u8);
    out.push(112u8);
    out.push(105u8);
    out.push(114u8);
    out.push(101u8);
    out.push(115u8);
    out.push(65u8);
    out.push(116u8);
    out.push(34u8);
    out.push(58u8);
    assert(final(out)@ =~= old(out)@ + lit_l_expires_at());
}

/// Matches `lit_l_expires_at()` at position `i`.
pub fn scan_l_expires_at(s: &[u8], i: usize) -> (r: Option<usize>)
    requires
        i <= s@.len(),
    ensures
        r matches Some(j) ==> sp_lit(s@, i as int, lit_l_expires_at()) == Some(j as int)
            && j == i + 13 && j <= s@.len(),
        r is None ==> sp_lit(s@, i as int, lit_l_expires_at()) is None,
{
    if s.len() - i < 13 {
        return None;
    }
    if s[i + 0] != 44u8 {
        proof {
            assert(s@.subrange(i as int, i + 13) != lit_l_expires_at()) by {
                assert(s@.subrange(i as int, i + 13)[0] != lit_l_expires_at()[0]);
            }
        }
        return None;
    }
    if s[i + 1] != 34u8 {
        proof {
            assert(s@.subrange(i as int, i + 13) != lit_l_expires_at()) by {
                assert(s@.subrange(i as int, i + 13)[1] != lit_l_expires_at()[1]);
            }
        }
        return None;
    }
    if s[i + 2] != 101u8 {
        proof {
            assert(s@.subrange(i as int, i + 13) != lit_l_expires_at()) by {
                assert(s@.subrange(i as int, i + 13)[2] != lit_l_expires_at()[2]);
            }
        }
        return None;
    }
    if s[i + 3] != 120u8 {
        proof {
            assert(s@.subrange(i as int, i + 13) != lit_l_expires_at()) by {
                assert(s@.subrange(i as int, i + 13)[3] != lit_l_expires_at()[3]);
            }
        }
        return None;
    }
    if s[i + 4] != 112u8 {
        proof {
            assert(s@.subrange(i as int, i + 13) != lit_l_expires_at()) by {
                assert(s@.subrange(i as int, i + 13)[4] != lit_l_expires_at()[4]);
            }
        }
        return None;
    }
    if s[i + 5] != 105u8 {
        proof {
            assert(s@.subrange(i as int, i + 13) != lit_l_expires_at()) by {
                assert(s@.subrange(i as int, i + 13)[5] != lit_l_expires_at()[5]);
            }
        }
        return None;
    }
    if s[i + 6] != 114u8 {
        proof {
            assert(s@.subrange(i as int, i + 13) != lit_l_expires_at()) by {
                assert(s@.subrange(i as int, i + 13)[6] != lit_l_expires_at()[6]);
            }
        }
        return None;
    }
    if s[i + 7] != 101u8 {
        proof {
            assert(s@.subrange(i as int, i + 13) != lit_l_expires_at()) by {
                assert(s@.subrange(i as int, i + 13)[7] != lit_l_expires_at()[7]);
            }
        }
        return None;
    }
    if s[i + 8] != 115u8 {
        proof {
            assert(s@.subrange(i as int, i + 13) != lit_l_expires_at()) by {
                assert(s@.subrange(i as int, i + 13)[8] != lit_l_expires_at()[8]);
            }
        }
        return None;
    }
    if s[i + 9] != 65u8 {
        proof {
            assert(s@.subrange(i as int, i + 13) != lit_l_expires_at()) by {
                assert(s@.subrange(i as int, i + 13)[9] != lit_l_expires_at()[9]);
            }
        }
        return None;
    }
    if s[i + 10] != 116u8 {
        proof {
            assert(s@.subrange(i as int, i + 13) != lit_l_expires_at()) by {
                assert(s@.subrange(i as int, i + 13)[10] != lit_l_expires_at()[10]);
            }
        }
        return None;
    }
    if s[i + 11] != 34u8 {
        proof {
            assert(s@.subrange(i as int, i + 13) != lit_l_expires_at()) by {
                assert(s@.subrange(i as int, i + 13)[11] != lit_l_expires_at()[11]);
            }
        }
        return None;
    }
    if s[i + 12] != 58u8 {
        proof {
            assert(s@.subrange(i as int, i + 13) != lit_l_expires_at()) by {
                assert(s@.subrange(i as int, i + 13)[12] != lit_l_expires_at()[12]);
            }
        }
        return None;
    }
    proof {
        assert(s@.subrange(i as int, i + 13) =~= lit_l_expires_at());
    }
    Some(i + 13)
}

/// The label bytes `,\"resource\":`.
pub open spec fn lit_l_resource() -> Seq<u8> {
    seq![44u8, 34u8, 114u8, 101u8, 115u8, 111u8, 117u8, 114u8, 99u8, 101u8, 34u8, 58u8]
}

/// Appends `lit_l_resource()` to `out`.
pub fn push_l_resource(out: &mut Vec<u8>)
    ensures
        final(out)@ == old(out)@ + lit_l_resource(),
{
    out.push(44u8);
    out.push(34u8);
    out.push(114u8);
    out.push(101u8);
    out.push(115u8);
    out.push(111u8);
    out.push(117u8);
    out.push(114u8);
    out.push(99u8);
    out.push(101u8);
    out.push(34u8);
    out.push(58u8);
    assert(final(out)@ =~= old(out)@ + lit_l_resource());
}

/// Matches `lit_l_resource()` at position `i`.
pub fn scan_l_resource(s: &[u8], i: usize) -> (r: Option<usize>)
    requires
        i <= s@.len(),
    ensures
        r matches Some(j) ==> sp_lit(s@, i as int, lit_l_resource()) == Some(j as int)
            && j == i + 12 && j <= s@.len(),
        r is None ==> sp_lit(s@, i as int, lit_l_resource()) is None,
{
    if s.len() - i < 12 {
        return None;
    }
    if s[i + 0] != 44u8 {
        proof {
            assert(s@.subrange(i as int, i + 12) != lit_l_resource()) by {
                assert(s@.subrange(i as int, i + 12)[0] != lit_l_resource()[0]);
            }
        }
        return None;
    }
    if s[i + 1] != 34u8 {
        proof {
            assert(s@.subrange(i as int, i + 12) != lit_l_resource()) by {
                assert(s@.subrange(i as int, i + 12)[1] != lit_l_resource()[1]);
            }
        }
        return None;
    }
    if s[i + 2] != 114u8 {
        proof {
            assert(s@.subrange(i as int, i + 12) != lit_l_resource()) by {
                assert(s@.subrange(i as int, i + 12)[2] != lit_l_resource()[2]);
            }
        }
        return None;
    }
    if s[i + 3] != 101u8 {
        proof {
            assert(s@.subrange(i as int, i + 12) != lit_l_resource()) by {
                assert(s@.subrange(i as int, i + 12)[3] != lit_l_resource()[3]);
            }
        }
        return None;
    }
    if s[i + 4] != 115u8 {
        proof {
            assert(s@.subrange(i as int, i + 12) != lit_l_resource()) by {
                assert(s@.subrange(i as int, i + 12)[4] != lit_l_resource()[4]);
            }
        }
        return None;
    }
    if s[i + 5] != 111u8 {
        proof {
            assert(s@.subrange(i as int, i + 12) != lit_l_resource()) by {
                assert(s@.subrange(i as int, i + 12)[5] != lit_l_resource()[5]);
            }
        }
        return None;
    }
    if s[i + 6] != 117u8 {
        proof {
            assert(s@.subrange(i as int, i + 12) != lit_l_resource()) by {
                assert(s@.subrange(i as int, i + 12)[6] != lit_l_resource()[6]);
            }
        }
        return None;
    }
    if s[i + 7] != 114u8 {
        proof {
            assert(s@.subrange(i as int, i + 12) != lit_l_resource()) by {
                assert(s@.subrange(i as int, i + 12)[7] != lit_l_resource()[7]);
            }
        }
        return None;
    }
    if s[i + 8] != 99u8 {
        proof {
            assert(s@.subrange(i as int, i + 12) != lit_l_resource()) by {
                assert(s@.subrange(i as int, i + 12)[8] != lit_l_resource()[8]);
            }
        }
        return None;
    }
    if s[i + 9] != 101u8 {
        proof {
            assert(s@.subrange(i as int, i + 12) != lit_l_resource()) by {
                assert(s@.subrange(i as int, i + 12)[9] != lit_l_resource()[9]);
            }
        }
        return None;
    }
    if s[i + 10] != 34u8 {
        proof {
            assert(s@.subrange(i as int, i + 12) != lit_l_resource()) by {
                assert(s@.subrange(i as int, i + 12)[10] != lit_l_resource()[10]);
            }
        }
        return None;
    }
    if s[i + 11] != 58u8 {
        proof {
            assert(s@.subrange(i as int, i + 12) != lit_l_resource()) by {
                assert(s@.subrange(i as int, i + 12)[11] != lit_l_resource()[11]);
            }
        }
        return None;
    }
    proof {
        assert(s@.subrange(i as int, i + 12) =~= lit_l_resource());
    }
    Some(i + 12)
}

/// The label bytes `,\"payer\":`.
pub open spec fn lit_l_payer() -> Seq<u8> {
    seq![44u8, 34u8, 112u8, 97u8, 121u8, 101u8, 114u8, 34u8, 58u8]
}

/// Appends `lit_l_payer()` to `out`.
pub fn push_l_payer(out: &mut Vec<u8>)
    ensures
        final(out)@ == old(out)@ + lit_l_payer(),
{
    out.push(44u8);
    out.push(34u8);
    out.push(112u8);
    out.push(97u8);
    out.push(121u8);
    out.push(101u8);
    out.push(114u8);
    out.push(34u8);
    out.push(58u8);
    assert(final(out)@ =~= old(out)@ + lit_l_payer());
}

/// Matches `lit_l_payer()` at position `i`.
pub fn scan_l_payer(s: &[u8], i: usize) -> (r: Option<usize>)
    requires
        i <= s@.len(),
    ensures
        r matches Some(j) ==> sp_lit(s@, i as int, lit_l_payer()) == Some(j as int)
            && j == i + 9 && j <= s@.len(),
        r is None ==> sp_lit(s@, i as int, lit_l_payer()) is None,
{
    if s.len() - i < 9 {
        return None;
    }
    if s[i + 0] != 44u8 {
        proof {
            assert(s@.subrange(i as int, i + 9) != lit_l_payer()) by {
                assert(s@.subrange(i as int, i + 9)[0] != lit_l_payer()[0]);
            }
        }
        return None;
    }
    if s[i + 1] != 34u8 {
        proof {
            assert(s@.subrange(i as int, i + 9) != lit_l_payer()) by {
                assert(s@.subrange(i as int, i + 9)[1] != lit_l_payer()[1]);
            }
        }
        return None;
    }
    if s[i + 2] != 112u8 {
        proof {
            assert(s@.subrange(i as int, i + 9) != lit_l_payer()) by {
                assert(s@.subrange(i as int, i + 9)[2] != lit_l_payer()[2]);
            }
        }
        return None;
    }
    if s[i + 3] != 97u8 {
        proof {
            assert(s@.subrange(i as int, i + 9) != lit_l_payer()) by {
                assert(s@.subrange(i as int, i + 9)[3] != lit_l_payer()[3]);
            }
        }
        return None;
    }
    if s[i + 4] != 121u8 {
        proof {
            assert(s@.subrange(i as int, i + 9) != lit_l_payer()) by {
                assert(s@.subrange(i as int, i + 9)[4] != lit_l_payer()[4]);
            }
        }
        return None;
    }
    if s[i + 5] != 101u8 {
        proof {
            assert(s@.subrange(i as int, i + 9) != lit_l_payer()) by {
                assert(s@.subrange(i as int, i + 9)[5] != lit_l_payer()[5]);
            }
        }
        return None;
    }
    if s[i + 6] != 114u8 {
        proof {
            assert(s@.subrange(i as int, i + 9) != lit_l_payer()) by {
                assert(s@.subrange(i as int, i + 9)[6] != lit_l_payer()[6]);
            }
        }
        return None;
    }
    if s[i + 7] != 34u8 {
        proof {
            assert(s@.subrange(i as int, i + 9) != lit_l_payer()) by {
                assert(s@.subrange(i as int, i + 9)[7] != lit_l_payer()[7]);
            }
        }
        return None;
    }
    if s[i + 8] != 58u8 {
        proof {
            assert(s@.subrange(i as int, i + 9) != lit_l_payer()) by {
                assert(s@.subrange(i as int, i + 9)[8] != lit_l_payer()[8]);
            }
        }
        return None;
    }
    proof {
        assert(s@.subrange(i as int, i + 9) =~= lit_l_payer());
    }
    Some(i + 9)
}

/// The label bytes `,\"chainId\":`.
pub open spec fn lit_l_chain_id() -> Seq<u8> {
    seq![44u8, 34u8, 99u8, 104u8, 97u8, 105u8, 110u8, 73u8, 100u8, 34u8, 58u8]
}

/// Appends `lit_l_chain_id()` to `out`.
pub fn push_l_chain_id(out: &mut Vec<u8>)
    ensures
        final(out)@ == old(out)@ + lit_l_chain_id(),
{
    out.push(44u8);
    out.push(34u8);
    out.push(99u8);
    out.push(104u8);
    out.push(97u8);
    out.push(105u8);
    out.push(110u8);
    out.push(73u8);
    out.push(100u8);
    out.push(34u8);
    out.push(58u8);
    assert(final(out)@ =~= old(out)@ + lit_l_chain_id());
}

/// Matches `lit_l_chain_id()` at position `i`.
pub fn scan_l_chain_id(s: &[u8], i: usize) -> (r: Option<usize>)
    requires
        i <= s@.len(),
    ensures
        r matches Some(j) ==> sp_lit(s@, i as int, lit_l_chain_id()) == Some(j as int)
            && j == i + 11 && j <= s@.len(),
        r is None ==> sp_lit(s@, i as int, lit_l_chain_id()) is None,
{
    if s.len() - i < 11 {
        return None;
    }
    if s[i + 0] != 44u8 {
        proof {
            assert(s@.subrange(i as int, i + 11) != lit_l_chain_id()) by {
                assert(s@.subrange(i as int, i + 11)[0] != lit_l_chain_id()[0]);
            }
        }
        return None;
    }
    if s[i + 1] != 34u8 {
        proof {
            assert(s@.subrange(i as int, i + 11) != lit_l_chain_id()) by {
                assert(s@.subrange(i as int, i + 11)[1] != lit_l_chain_id()[1]);
            }
        }
        return None;
    }
    if s[i + 2] != 99u8 {
        proof {
            assert(s@.subrange(i as int, i + 11) != lit_l_chain_id()) by {
                assert(s@.subrange(i as int, i + 11)[2] != lit_l_chain_id()[2]);
            }
        }
        return None;
    }
    if s[i + 3] != 104u8 {
        proof {
            assert(s@.subrange(i as int, i + 11) != lit_l_chain_id()) by {
                assert(s@.subrange(i as int, i + 11)[3] != lit_l_chain_id()[3]);
            }
        }
        return None;
    }
    if s[i + 4] != 97u8 {
        proof {
            assert(s@.subrange(i as int, i + 11) != lit_l_chain_id()) by {
                assert(s@.subrange(i as int, i + 11)[4] != lit_l_chain_id()[4]);
            }
        }
        return None;
    }
    if s[i + 5] != 105u8 {
        proof {
            assert(s@.subrange(i as int, i + 11) != lit_l_chain_id()) by {
                assert(s@.subrange(i as int, i + 11)[5] != lit_l_chain_id()[5]);
            }
        }
        return None;
    }
    if s[i + 6] != 110u8 {
        proof {
            assert(s@.subrange(i as int, i + 11) != lit_l_chain_id()) by {
                assert(s@.subrange(i as int, i + 11)[6] != lit_l_chain_id()[6]);
            }
        }
        return None;
    }
    if s[i + 7] != 73u8 {
        proof {
            assert(s@.subrange(i as int, i + 11) != lit_l_chain_id()) by {
                assert(s@.subrange(i as int, i + 11)[7] != lit_l_chain_id()[7]);
            }
        }
        return None;
    }
    if s[i + 8] != 100u8 {
        proof {
            assert(s@.subrange(i as int, i + 11) != lit_l_chain_id()) by {
                assert(s@.subrange(i as int, i + 11)[8] != lit_l_chain_id()[8]);
            }
        }
        return None;
    }
    if s[i + 9] != 34u8 {
        proof {
            assert(s@.subrange(i as int, i + 11) != lit_l_chain_id()) by {
                assert(s@.subrange(i as int, i + 11)[9] != lit_l_chain_id()[9]);
            }
        }
        return None;
    }
    if s[i + 10] != 58u8 {
        proof {
            assert(s@.subrange(i as int, i + 11) != lit_l_chain_id()) by {
                assert(s@.subrange(i as int, i + 11)[10] != lit_l_chain_id()[10]);
            }
        }
        return None;
    }
    proof {
        assert(s@.subrange(i as int, i + 11) =~= lit_l_chain_id());
    }
    Some(i + 11)
}

/// The label bytes `,\"nonce\":`.
pub open spec fn lit_l_nonce() -> Seq<u8> {
    seq![44u8, 34u8, 110u8, 111u8, 110u8, 99u8, 101u8, 34u8, 58u8]
}

/// Appends `lit_l_nonce()` to `out`.
pub fn push_l_nonce(out: &mut Vec<u8>)
    ensures
        final(out)@ == old(out)@ + lit_l_nonce(),
{
    out.push(44u8);
    out.push(34u8);
    out.push(110u8);
    out.push(111u8);
    out.push(110u8);
    out.push(99u8);
    out.push(101u8);
    out.push(34u8);
    out.push(58u8);
    assert(final(out)@ =~= old(out)@ + lit_l_nonce());
}

/// Matches `lit_l_nonce()` at position `i`.
pub fn scan_l_nonce(s: &[u8], i: usize) -> (r: Option<usize>)
    requires
        i <= s@.len(),
    ensures
        r matches Some(j) ==> sp_lit(s@, i as int, lit_l_nonce()) == Some(j as int)
            && j == i + 9 && j <= s@.len(),
        r is None ==> sp_lit(s@, i as int, lit_l_nonce()) is None,
{
    if s.len() - i < 9 {
        return None;
    }
    if s[i + 0] != 44u8 {
        proof {
            assert(s@.subrange(i as int, i + 9) != lit_l_nonce()) by {
                assert(s@.subrange(i as int, i + 9)[0] != lit_l_nonce()[0]);
            }
        }
        return None;
    }
    if s[i + 1] != 34u8 {
        proof {
            assert(s@.subrange(i as int, i + 9) != lit_l_nonce()) by {
                assert(s@.subrange(i as int, i + 9)[1] != lit_l_nonce()[1]);
            }
        }
        return None;
    }
    if s[i + 2] != 110u8 {
        proof {
            assert(s@.subrange(i as int, i + 9) != lit_l_nonce()) by {
                assert(s@.subrange(i as int, i + 9)[2] != lit_l_nonce()[2]);
            }
        }
        return None;
    }
    if s[i + 3] != 111u8 {
        proof {
            assert(s@.subrange(i as int, i + 9) != lit_l_nonce()) by {
                assert(s@.subrange(i as int, i + 9)[3] != lit_l_nonce()[3]);
            }
        }
        return None;
    }
    if s[i + 4] != 110u8 {
        proof {
            assert(s@.subrange(i as int, i + 9) != lit_l_nonce()) by {
                assert(s@.subrange(i as int, i + 9)[4] != lit_l_nonce()[4]);
            }
        }
        return None;
    }
    if s[i + 5] != 99u8 {
        proof {
            assert(s@.subrange(i as int, i + 9) != lit_l_nonce()) by {
                assert(s@.subrange(i as int, i + 9)[5] != lit_l_nonce()[5]);
            }
        }
        return None;
    }
    if s[i + 6] != 101u8 {
        proof {
            assert(s@.subrange(i as int, i + 9) != lit_l_nonce()) by {
                assert(s@.subrange(i as int, i + 9)[6] != lit_l_nonce()[6]);
            }
        }
        return None;
    }
    if s[i + 7] != 34u8 {
        proof {
            assert(s@.subrange(i as int, i + 9) != lit_l_nonce()) by {
                assert(s@.subrange(i as int, i + 9)[7] != lit_l_nonce()[7]);
            }
        }
        return None;
    }
    if s[i + 8] != 58u8 {
        proof {
            assert(s@.subrange(i as int, i + 9) != lit_l_nonce()) by {
                assert(s@.subrange(i as int, i + 9)[8] != lit_l_nonce()[8]);
            }
        }
        return None;
    }
    proof {
        assert(s@.subrange(i as int, i + 9) =~= lit_l_nonce());
    }
    Some(i + 9)
}

/// The label bytes `{\"payment\":`.
pub open spec fn lit_l_obj_payment() -> Seq<u8> {
    seq![123u8, 34u8, 112u8, 97u8, 121u8, 109u8, 101u8, 110u8, 116u8, 34u8, 58u8]
}

/// Appends `lit_l_obj_payment()` to `out`.
pub fn push_l_obj_payment(out: &mut Vec<u8>)
    ensures
        final(out)@ == old(out)@ + lit_l_obj_payment(),
{
    out.push(123u8);
    out.push(34u8);
    out.push(112u8);
    out.push(97u8);
    out.push(121u8);
    out.push(109u8);
    out.push(101u8);
    out.push(110u8);
    out.push(116u8);
    out.push(34u8);
    out.push(58u8);
    assert(final(out)@ =~= old(out)@ + lit_l_obj_payment());
}

/// Matches `lit_l_obj_payment()` at position `i`.
pub fn scan_l_obj_payment(s: &[u8], i: usize) -> (r: Option<usize>)
    requires
        i <= s@.len(),
    ensures
        r matches Some(j) ==> sp_lit(s@, i as int, lit_l_obj_payment()) == Some(j as int)
            && j == i + 11 && j <= s@.len(),
        r is None ==> sp_lit(s@, i as int, lit_l_obj_payment()) is None,
{
    if s.len() - i < 11 {
        return None;
    }
    if s[i + 0] != 123u8 {
        proof {
            assert(s@.subrange(i as int, i + 11) != lit_l_obj_payment()) by {
                assert(s@.subrange(i as int, i + 11)[0] != lit_l_obj_payment()[0]);
            }
        }
        return None;
    }
    if s[i + 1] != 34u8 {
        proof {
            assert(s@.subrange(i as int, i + 11) != lit_l_obj_payment()) by {
                assert(s@.subrange(i as int, i + 11)[1] != lit_l_obj_payment()[1]);
            }
        }
        return None;
    }
    if s[i + 2] != 112u8 {
        proof {
            assert(s@.subrange(i as int, i + 11) != lit_l_obj_payment()) by {
                assert(s@.subrange(i as int, i + 11)[2] != lit_l_obj_payment()[2]);
            }
        }
        return None;
    }
    if s[i + 3] != 97u8 {
        proof {
            assert(s@.subrange(i as int, i + 11) != lit_l_obj_payment()) by {
                assert(s@.subrange(i as int, i + 11)[3] != lit_l_obj_payment()[3]);
            }
        }
        return None;
    }
    if s[i + 4] != 121u8 {
        proof {
            assert(s@.subrange(i as int, i + 11) != lit_l_obj_payment()) by {
                assert(s@.subrange(i as int, i + 11)[4] != lit_l_obj_payment()[4]);
            }
        }
        return None;
    }
    if s[i + 5] != 109u8 {
        proof {
            assert(s@.subrange(i as int, i + 11) != lit_l_obj_payment()) by {
                assert(s@.subrange(i as int, i + 11)[5] != lit_l_obj_payment()[5]);
            }
        }
        return None;
    }
    if s[i + 6] != 101u8 {
        proof {
            assert(s@.subrange(i as int, i + 11) != lit_l_obj_payment()) by {
                assert(s@.subrange(i as int, i + 11)[6] != lit_l_obj_payment()[6]);
            }
        }
        return None;
    }
    if s[i + 7] != 110u8 {
        proof {
            assert(s@.subrange(i as int, i + 11) != lit_l_obj_payment()) by {
                assert(s@.subrange(i as int, i + 11)[7] != lit_l_obj_payment()[7]);
            }
        }
        return None;
    }
    if s[i + 8] != 116u8 {
        proof {
            assert(s@.subrange(i as int, i + 11) != lit_l_obj_payment()) by {
                assert(s@.subrange(i as int, i + 11)[8] != lit_l_obj_payment()[8]);
            }
        }
        return None;
    }
    if s[i + 9] != 34u8 {
        proof {
            assert(s@.subrange(i as int, i + 11) != lit_l_obj_payment()) by {
                assert(s@.subrange(i as int, i + 11)[9] != lit_l_obj_payment()[9]);
            }
        }
        return None;
    }
    if s[i + 10] != 58u8 {
        proof {
            assert(s@.subrange(i as int, i + 11) != lit_l_obj_payment()) by {
                assert(s@.subrange(i as int, i + 11)[10] != lit_l_obj_payment()[10]);
            }
        }
        return None;
    }
    proof {
        assert(s@.subrange(i as int, i + 11) =~= lit_l_obj_payment());
    }
    Some(i + 11)
}

/// The label bytes `,\"signature\":[`.
pub open spec fn lit_l_signature() -> Seq<u8> {
    seq![44u8, 34u8, 115u8, 105u8, 103u8, 110u8, 97u8, 116u8, 117u8, 114u8, 101u8, 34u8, 58u8, 91u8]
}

/// Appends `lit_l_signature()` to `out`.
pub fn push_l_signature(out: &mut Vec<u8>)
    ensures
        final(out)@ == old(out)@ + lit_l_signature(),
{
    out.push(44u8);
    out.push(34u8);
    out.push(115u8);
    out.push(105u8);
    out.push(103u8);
    out.push(110u8);
    out.push(97u8);
    out.push(116u8);
    out.push(117u8);
    out.push(114u8);
    out.push(101u8);
    out.push(34u8);
    out.push(58u8);
    out.push(91u8);
    assert(final(out)@ =~= old(out)@ + lit_l_signature());
}

/// Matches `lit_l_signature()` at position `i`.
pub fn scan_l_signature(s: &[u8], i: usize) -> (r: Option<usize>)
    requires
        i <= s@.len(),
    ensures
        r matches Some(j) ==> sp_lit(s@, i as int, lit_l_signature()) == Some(j as int)
            && j == i + 14 && j <= s@.len(),
        r is None ==> sp_lit(s@, i as int, lit_l_signature()) is None,
{
    if s.len() - i < 14 {
        return None;
    }
    if s[i + 0] != 44u8 {
        proof {
            assert(s@.subrange(i as int, i + 14) != lit_l_signature()) by {
                assert(s@.subrange(i as int, i + 14)[0] != lit_l_signature()[0]);
            }
        }
        return None;
    }
    if s[i + 1] != 34u8 {
        proof {
            assert(s@.subrange(i as int, i + 14) != lit_l_signature()) by {
                assert(s@.subrange(i as int, i + 14)[1] != lit_l_signature()[1]);
            }
        }
        return None;
    }
    if s[i + 2] != 115u8 {
        proof {
            assert(s@.subrange(i as int, i + 14) != lit_l_signature()) by {
                assert(s@.subrange(i as int, i + 14)[2] != lit_l_signature()[2]);
            }
        }
        return None;
    }
    if s[i + 3] != 105u8 {
        proof {
            assert(s@.subrange(i as int, i + 14) != lit_l_signature()) by {
                assert(s@.subrange(i as int, i + 14)[3] != lit_l_signature()[3]);
            }
        }
        return None;
    }
    if s[i + 4] != 103u8 {
        proof {
            assert(s@.subrange(i as int, i + 14) != lit_l_signature()) by {
                assert(s@.subrange(i as int, i + 14)[4] != lit_l_signature()[4]);
            }
        }
        return None;
    }
    if s[i + 5] != 110u8 {
        proof {
            assert(s@.subrange(i as int, i + 14) != lit_l_signature()) by {
                assert(s@.subrange(i as int, i + 14)[5] != lit_l_signature()[5]);
            }
        }
        return None;
    }
    if s[i + 6] != 97u8 {
        proof {
            assert(s@.subrange(i as int, i + 14) != lit_l_signature()) by {
                assert(s@.subrange(i as int, i + 14)[6] != lit_l_signature()[6]);
            }
        }
        return None;
    }
    if s[i + 7] != 116u8 {
        proof {
            assert(s@.subrange(i as int, i + 14) != lit_l_signature()) by {
                assert(s@.subrange(i as int, i + 14)[7] != lit_l_signature()[7]);
            }
        }
        return None;
    }
    if s[i + 8] != 117u8 {
        proof {
            assert(s@.subrange(i as int, i + 14) != lit_l_signature()) by {
                assert(s@.subrange(i as int, i + 14)[8] != lit_l_signature()[8]);
            }
        }
        return None;
    }
    if s[i + 9] != 114u8 {
        proof {
            assert(s@.subrange(i as int, i + 14) != lit_l_signature()) by {
                assert(s@.subrange(i as int, i + 14)[9] != lit_l_signature()[9]);
            }
        }
        return None;
    }
    if s[i + 10] != 101u8 {
        proof {
            assert(s@.subrange(i as int, i + 14) != lit_l_signature()) by {
                assert(s@.subrange(i as int, i + 14)[10] != lit_l_signature()[10]);
            }
        }
        return None;
    }
    if s[i + 11] != 34u8 {
        proof {
            assert(s@.subrange(i as int, i + 14) != lit_l_signature()) by {
                assert(s@.subrange(i as int, i + 14)[11] != lit_l_signature()[11]);
            }
        }
        return None;
    }
    if s[i + 12] != 58u8 {
        proof {
            assert(s@.subrange(i as int, i + 14) != lit_l_signature()) by {
                assert(s@.subrange(i as int, i + 14)[12] != lit_l_signature()[12]);
            }
        }
        return None;
    }
    if s[i + 13] != 91u8 {
        proof {
            assert(s@.subrange(i as int, i + 14) != lit_l_signature()) by {
                assert(s@.subrange(i as int, i + 14)[13] != lit_l_signature()[13]);
            }
        }
        return None;
    }
    proof {
        assert(s@.subrange(i as int, i + 14) =~= lit_l_signature());
    }
    Some(i + 14)
}

/// The label bytes `}`.
pub open spec fn lit_l_close() -> Seq<u8> {
    seq![125u8]
}

/// Appends `lit_l_close()` to `out`.
pub fn push_l_close(out: &mut Vec<u8>)
    ensures
        final(out)@ == old(out)@ + lit_l_close(),
{
    out.push(125u8);
    assert(final(out)@ =~= old(out)@ + lit_l_close());
}

/// Matches `lit_l_close()` at position `i`.
pub fn scan_l_close(s: &[u8], i: usize) -> (r: Option<usize>)
    requires
        i <= s@.len(),
    ensures
        r matches Some(j) ==> sp_lit(s@, i as int, lit_l_close()) == Some(j as int)
            && j == i + 1 && j <= s@.len(),
        r is None ==> sp_lit(s@, i as int, lit_l_close()) is None,
{
    if s.len() - i < 1 {
        return None;
    }
    if s[i + 0] != 125u8 {
        proof {
            assert(s@.subrange(i as int, i + 1) != lit_l_close()) by {
                assert(s@.subrange(i as int, i + 1)[0] != lit_l_close()[0]);
            }
        }
        return None;
    }
    proof {
        assert(s@.subrange(i as int, i + 1) =~= lit_l_close());
    }
    Some(i + 1)
}

/// The label bytes `]}`.
pub open spec fn lit_l_close_sig() -> Seq<u8> {
    seq![93u8, 125u8]
}

/// Appends `lit_l_close_sig()` to `out`.
pub fn push_l_close_sig(out: &mut Vec<u8>)
    ensures
        final(out)@ == old(out)@ + lit_l_close_sig(),
{
    out.push(93u8);
    out.push(125u8);
    assert(final(out)@ =~= old(out)@ + lit_l_close_sig());
}

/// Matches `lit_l_close_sig()` at position `i`.
pub fn scan_l_close_sig(s: &[u8], i: usize) -> (r: Option<usize>)
    requires
        i <= s@.len(),
    ensures
        r matches Some(j) ==> sp_lit(s@, i as int, lit_l_close_sig()) == Some(j as int)
            && j == i + 2 && j <= s@.len(),
        r is None ==> sp_lit(s@, i as int, lit_l_close_sig()) is None,
{
    if s.len() - i < 2 {
        return None;
    }
    if s[i + 0] != 93u8 {
        proof {
            assert(s@.subrange(i as int, i + 2) != lit_l_close_sig()) by {
                assert(s@.subrange(i as int, i + 2)[0] != lit_l_close_sig()[0]);
            }
        }
        return None;
    }
    if s[i + 1] != 125u8 {
        proof {
            assert(s@.subrange(i as int, i + 2) != lit_l_close_sig()) by {
                assert(s@.subrange(i as int, i + 2)[1] != lit_l_close_sig()[1]);
            }
        }
        return None;
    }
    proof {
        assert(s@.subrange(i as int, i + 2) =~= lit_l_close_sig());
    }
    Some(i + 2)
}



/// Parses an optional address field introduced by `lit`: absent when the
/// label does not match.
pub open spec fn sp_opt_addr(s: Seq<u8>, i: int, lit: Seq<u8>) -> Option<(Option<Seq<u8>>, int)> {
    match sp_lit(s, i, lit) {
        Some(j) => match sp_jaddr(s, j) {
            Some((a, k)) => Some((Some(a), k)),
            None => None,
        },
        None => Some((None, i)),
    }
}

/// Parses an optional text field introduced by `lit`.
pub open spec fn sp_opt_text(s: Seq<u8>, i: int, lit: Seq<u8>) -> Option<(Option<Seq<char>>, int)> {
    match sp_lit(s, i, lit) {
        Some(j) => match sp_jtext(s, j) {
            Some((d, k)) => Some((Some(d), k)),
            None => None,
        },
        None => Some((None, i)),
    }
}

/// Parses an optional integer field introduced by `lit`.
pub open spec fn sp_opt_u64(s: Seq<u8>, i: int, lit: Seq<u8>) -> Option<(Option<u64>, int)> {
    match sp_lit(s, i, lit) {
        Some(j) => match sp_u64(s, j) {
            Some((v, k)) => Some((Some(v), k)),
            None => None,
        },
        None => Some((None, i)),
    }
}

/// The canonical JSON bytes of a requirements record.
pub open spec fn req_json(r: ReqView) -> Seq<u8> {
    lit_l_obj_amount() + (dec_of(r.amount) + (lit_l_q_recipient() + (jaddr_of(r.recipient) + (
    lit_l_network() + (jnetwork_of(r.network) + req_json_from_token(r))))))
}

/// The requirements rendering from the optional token field onwards.
pub open spec fn req_json_from_token(r: ReqView) -> Seq<u8> {
    match r.token {
        Some(a) => lit_l_token() + (jaddr_of(a) + req_json_from_description(r)),
        None => req_json_from_description(r),
    }
}

/// The requirements rendering from the optional description field onwards.
pub open spec fn req_json_from_description(r: ReqView) -> Seq<u8> {
    match r.description {
        Some(d) => lit_l_description() + (jstr_of(d) + req_json_from_expiry(r)),
        None => req_json_from_expiry(r),
    }
}

/// The requirements rendering from the optional expiry field onwards.
pub open spec fn req_json_from_expiry(r: ReqView) -> Seq<u8> {
    match r.expires_at {
        Some(e) => lit_l_expires_at() + (dec_of(e as nat) + req_json_tail(r)),
        None => req_json_tail(r),
    }
}

/// The requirements rendering of the resource field and the closing brace.
pub open spec fn req_json_tail(r: ReqView) -> Seq<u8> {
    lit_l_resource() + (jstr_of(r.resource) + lit_l_close())
}

/// The canonical JSON bytes of a payload record.
pub open spec fn payload_json(p: PayloadView) -> Seq<u8> {
    lit_l_obj_amount() + (dec_of(p.amount) + (lit_l_q_recipient() + (jaddr_of(p.recipient) + (
    lit_l_payer() + (jaddr_of(p.payer) + (lit_l_chain_id() + (dec_of(p.chain_id as nat)
        + payload_json_from_token(p))))))))
}

/// The payload rendering from the optional token field onwards.
pub open spec fn payload_json_from_token(p: PayloadView) -> Seq<u8> {
    match p.token {
        Some(a) => lit_l_token() + (jaddr_of(a) + payload_json_tail(p)),
        None => payload_json_tail(p),
    }
}

/// The payload rendering of the resource, nonce and expiry fields and the
/// closing brace.
pub open spec fn payload_json_tail(p: PayloadView) -> Seq<u8> {
    lit_l_resource() + (jstr_of(p.resource) + (lit_l_nonce() + (dec_of(p.nonce as nat) + (
    lit_l_expires_at() + (dec_of(p.expires_at as nat) + lit_l_close())))))
}

/// The canonical JSON list items of a signature: decimal bytes separated by
/// commas.
pub open spec fn sig_json_of(bs: Seq<u8>) -> Seq<u8>
    decreases bs.len(),
{
    if bs.len() == 0 {
        Seq::empty()
    } else if bs.len() == 1 {
        dec_of(bs[0] as nat)
    } else {
        dec_of(bs[0] as nat) + seq![44u8] + sig_json_of(bs.drop_first())
    }
}

/// The canonical JSON bytes of a signed payment.
pub open spec fn signed_json(s: SignedView) -> Seq<u8> {
    lit_l_obj_payment() + (payload_json(s.payment) + (lit_l_signature() + (sig_json_of(
        s.signature,
    ) + lit_l_close_sig())))
}

/// Renders a requirements record as its canonical JSON bytes.
#[verifier::rlimit(100)]
pub fn render_requirements(r: &PaymentRequirements) -> (out: Vec<u8>)
    ensures
        out@ == req_json(r@),
{
    let mut out: Vec<u8> = Vec::new();
    push_l_obj_amount(&mut out);
    let mut part = r.amount.to_dec_bytes();
    out.append(&mut part);
    push_l_q_recipient(&mut out);
    push_jaddr(&mut out, &r.recipient);
    push_l_network(&mut out);
    push_jnetwork(&mut out, &r.network);
    match &r.token {
        Some(a) => {
            push_l_token(&mut out);
            push_jaddr(&mut out, a);
        },
        None => {},
    }
    match &r.description {
        Some(d) => {
            push_l_description(&mut out);
            push_json_string(&mut out, d.as_str());
        },
        None => {},
    }
    match r.expires_at {
        Some(e) => {
            push_l_expires_at(&mut out);
            let mut part = Uint256::from_u64(e).to_dec_bytes();
            out.append(&mut part);
        },
        None => {},
    }
    push_l_resource(&mut out);
    push_json_string(&mut out, r.resource.as_str());
    push_l_close(&mut out);
    proof {
        assert(out@ =~= req_json(r@));
    }
    out
}

/// Renders a payload record as its canonical JSON bytes.
#[verifier::rlimit(100)]
pub fn render_payload(p: &PaymentPayload) -> (out: Vec<u8>)
    ensures
        out@ == payload_json(p@),
{
    let mut out: Vec<u8> = Vec::new();
    push_l_obj_amount(&mut out);
    let mut part = p.amount.to_dec_bytes();
    out.append(&mut part);
    push_l_q_recipient(&mut out);
    push_jaddr(&mut out, &p.recipient);
    push_l_payer(&mut out);
    push_jaddr(&mut out, &p.payer);
    push_l_chain_id(&mut out);
    let mut part = Uint256::from_u64(p.chain_id).to_dec_bytes();
    out.append(&mut part);
    match &p.token {
        Some(a) => {
            push_l_token(&mut out);
            push_jaddr(&mut out, a);
        },
        None => {},
    }
    push_l_resource(&mut out);
    push_json_string(&mut out, p.resource.as_str());
    push_l_nonce(&mut out);
    let mut part = Uint256::from_u64(p.nonce).to_dec_bytes();
    out.append(&mut part);
    push_l_expires_at(&mut out);
    let mut part = Uint256::from_u64(p.expires_at).to_dec_bytes();
    out.append(&mut part);
    push_l_close(&mut out);
    proof {
        assert(out@ =~= payload_json(p@));
    }
    out
}

/// Appends the canonical JSON list items of a signature to `out`.
pub fn push_sig_items(out: &mut Vec<u8>, sig: &[u8])
    ensures
        final(out)@ == old(out)@ + sig_json_of(sig@),
{
    let n = sig.len();
    let mut i: usize = 0;
    proof {
        assert(out@.subrange(old(out)@.len() as int, out@.len() as int) =~= Seq::<u8>::empty());
        assert(sig@.skip(0) =~= sig@);
        assert(Seq::<u8>::empty() + sig_json_of(sig@) =~= sig_json_of(sig@));
        assert(out@.subrange(0, old(out)@.len() as int) =~= old(out)@);
    }
    while i < n
        invariant
            n == sig@.len(),
            i <= n,
            sig_json_of(sig@) == out@.subrange(old(out)@.len() as int, out@.len() as int)
                + sig_json_of(sig@.skip(i as int)),
            out@.len() >= old(out)@.len(),
            out@.subrange(0, old(out)@.len() as int) == old(out)@,
        decreases n - i,
    {
        let ghost pre = out@;
        let mut part = Uint256::from_u64(sig[i] as u64).to_dec_bytes();
        out.append(&mut part);
        if i + 1 < n {
            out.push(44u8);
        }
        proof {
            let rest = sig@.skip(i as int);
            assert(rest.len() == n - i);
            assert(rest[0] == sig@[i as int]);
            assert(rest.drop_first() =~= sig@.skip(i + 1));
            if i + 1 < n {
                assert(sig_json_of(rest) == dec_of(rest[0] as nat) + seq![44u8] + sig_json_of(
                    sig@.skip(i + 1),
                ));
                assert(out@.subrange(old(out)@.len() as int, out@.len() as int) =~= pre.subrange(
                    old(out)@.len() as int,
                    pre.len() as int,
                ) + dec_of(sig@[i as int] as nat) + seq![44u8]);
            } else {
                assert(sig_json_of(rest) == dec_of(rest[0] as nat));
                assert(out@.subrange(old(out)@.len() as int, out@.len() as int) =~= pre.subrange(
                    old(out)@.len() as int,
                    pre.len() as int,
                ) + dec_of(sig@[i as int] as nat));
            }
            assert(sig_json_of(sig@) =~= out@.subrange(old(out)@.len() as int, out@.len() as int)
                + sig_json_of(sig@.skip(i + 1)));
            assert(out@.subrange(0, old(out)@.len() as int) =~= old(out)@);
        }
        i += 1;
    }
    proof {
        assert(sig@.skip(n as int) =~= Seq::<u8>::empty());
        assert(final(out)@ =~= old(out)@ + sig_json_of(sig@));
    }
}

/// Renders a signed payment as its canonical JSON bytes.
pub fn render_signed(s: &SignedPayment) -> (out: Vec<u8>)
    ensures
        out@ == signed_json(s@),
{
    let mut out: Vec<u8> = Vec::new();
    push_l_obj_payment(&mut out);
    let mut part = render_payload(&s.payment);
    out.append(&mut part);
    push_l_signature(&mut out);
    push_sig_items(&mut out, s.signature.as_slice());
    push_l_close_sig(&mut out);
    proof {
        assert(out@ =~= signed_json(s@));
    }
    out
}


/// Parses the canonical requirements object, which must span the whole
/// input.
pub open spec fn sp_req(s: Seq<u8>) -> Option<ReqView> {
    match sp_lit(s, 0, lit_l_obj_amount()) {
        None => None,
        Some(i1) => match sp_u256(s, i1) {
            None => None,
            Some((amount, i2)) => match sp_lit(s, i2, lit_l_q_recipient()) {
                None => None,
                Some(i3) => match sp_jaddr(s, i3) {
                    None => None,
                    Some((recipient, i4)) => match sp_lit(s, i4, lit_l_network()) {
                        None => None,
                        Some(i5) => match sp_jnetwork(s, i5) {
                            None => None,
                            Some((network, i6)) => match sp_opt_addr(s, i6, lit_l_token()) {
                                None => None,
                                Some((token, i7)) => match sp_opt_text(
                                    s,
                                    i7,
                                    lit_l_description(),
                                ) {
                                    None => None,
                                    Some((description, i8)) => match sp_opt_u64(
                                        s,
                                        i8,
                                        lit_l_expires_at(),
                                    ) {
                                        None => None,
                                        Some((expires_at, i9)) => match sp_lit(
                                            s,
                                            i9,
                                            lit_l_resource(),
                                        ) {
                                            None => None,
                                            Some(i10) => match sp_jtext(s, i10) {
                                                None => None,
                                                Some((resource, i11)) => match sp_lit(
                                                    s,
                                                    i11,
                                                    lit_l_close(),
                                                ) {
                                                    None => None,
                                                    Some(i12) => if i12 == s.len() {
                                                        Some(
                                                            ReqView {
                                                                amount,
                                                                recipient,
                                                                network,
                                                                token,
                                                                description,
                                                                expires_at,
                                                                resource,
                                                            },
                                                        )
                                                    } else {
                                                        None
                                                    },
                                                },
                                            },
                                        },
                                    },
                                },
                            },
                        },
                    },
                },
            },
        },
    }
}

/// Parses the canonical payload object starting at `i`.
pub open spec fn sp_payload_at(s: Seq<u8>, i: int) -> Option<(PayloadView, int)> {
    match sp_lit(s, i, lit_l_obj_amount()) {
        None => None,
        Some(i1) => match sp_u256(s, i1) {
            None => None,
            Some((amount, i2)) => match sp_lit(s, i2, lit_l_q_recipient()) {
                None => None,
                Some(i3) => match sp_jaddr(s, i3) {
                    None => None,
                    Some((recipient, i4)) => match sp_lit(s, i4, lit_l_payer()) {
                        None => None,
                        Some(i5) => match sp_jaddr(s, i5) {
                            None => None,
                            Some((payer, i6)) => match sp_lit(s, i6, lit_l_chain_id()) {
                                None => None,
                                Some(i7) => match sp_u64(s, i7) {
                                    None => None,
                                    Some((chain_id, i8)) => match sp_opt_addr(
                                        s,
                                        i8,
                                        lit_l_token(),
                                    ) {
                                        None => None,
                                        Some((token, i9)) => match sp_lit(
                                            s,
                                            i9,
                                            lit_l_resource(),
                                        ) {
                                            None => None,
                                            Some(i10) => match sp_jtext(s, i10) {
                                                None => None,
                                                Some((resource, i11)) => match sp_lit(
                                                    s,
                                                    i11,
                                                    lit_l_nonce(),
                                                ) {
                                                    None => None,
                                                    Some(i12) => match sp_u64(s, i12) {
                                                        None => None,
                                                        Some((nonce, i13)) => match sp_lit(
                                                            s,
                                                            i13,
                                                            lit_l_expires_at(),
                                                        ) {
                                                            None => None,
                                                            Some(i14) => match sp_u64(s, i14) {
                                                                None => None,
                                                                Some((expires_at, i15)) => match sp_lit(
                                                                    s,
                                                                    i15,
                                                                    lit_l_close(),
                                                                ) {
                                                                    None => None,
                                                                    Some(i16) => Some(
                                                                        (
                                                                            PayloadView {
                                                                                amount,
                                                                                recipient,
                                                                                payer,
                                                                                chain_id,
                                                                                token,
                                                                                resource,
                                                                                nonce,
                                                                                expires_at,
                                                                            },
                                                                            i16,
                                                                        ),
                                                                    ),
                                                                },
                                                            },
                                                        },
                                                    },
                                                },
                                            },
                                        },
                                    },
                                },
                            },
                        },
                    },
                },
            },
        },
    }
}

/// Parses one or more comma-separated signature bytes starting at `i`.
pub open spec fn sp_sig_items(s: Seq<u8>, i: int) -> Option<(Seq<u8>, int)>
    decreases s.len() - i,
    via sp_sig_items_decreases
{
    match sp_u8(s, i) {
        None => None,
        Some((b, j)) => if j < s.len() && s[j] == 44 {
            match sp_sig_items(s, j + 1) {
                Some((rest, k)) => Some((seq![b] + rest, k)),
                None => None,
            }
        } else {
            Some((seq![b], j))
        },
    }
}

#[via_fn]
proof fn sp_sig_items_decreases(s: Seq<u8>, i: int) {
    lemma_digits_end_ge(s, i);
}

/// Parses the canonical signed-payment object, which must span the whole
/// input.
pub open spec fn sp_signed(s: Seq<u8>) -> Option<SignedView> {
    match sp_lit(s, 0, lit_l_obj_payment()) {
        None => None,
        Some(i1) => match sp_payload_at(s, i1) {
            None => None,
            Some((p, i2)) => match sp_lit(s, i2, lit_l_signature()) {
                None => None,
                Some(i3) => if i3 < s.len() && s[i3] == 93 {
                    match sp_lit(s, i3, lit_l_close_sig()) {
                        None => None,
                        Some(i4) => if i4 == s.len() {
                            Some(SignedView { payment: p, signature: Seq::empty() })
                        } else {
                            None
                        },
                    }
                } else {
                    match sp_sig_items(s, i3) {
                        None => None,
                        Some((sig, i4)) => match sp_lit(s, i4, lit_l_close_sig()) {
                            None => None,
                            Some(i5) => if i5 == s.len() {
                                Some(SignedView { payment: p, signature: sig })
                            } else {
                                None
                            },
                        },
                    }
                },
            },
        },
    }
}

/// Parses the canonical requirements object; the record's value is exactly
/// what `sp_req` names for the input.
pub fn parse_requirements(s: &[u8]) -> (r: Option<PaymentRequirements>)
    ensures
        r matches Some(req) ==> sp_req(s@) == Some(req@),
        r is None ==> sp_req(s@) is None,
{
    let i1 = match scan_l_obj_amount(s, 0) {
        Some(j) => j,
        None => {
            return None;
        },
    };
    let (amount, i2) = match p_u256(s, i1) {
        Some(p) => p,
        None => {
            return None;
        },
    };
    let i3 = match scan_l_q_recipient(s, i2) {
        Some(j) => j,
        None => {
            return None;
        },
    };
    let (recipient, i4) = match p_jaddr(s, i3) {
        Some(p) => p,
        None => {
            return None;
        },
    };
    let i5 = match scan_l_network(s, i4) {
        Some(j) => j,
        None => {
            return None;
        },
    };
    let (network, i6) = match p_jnetwork(s, i5) {
        Some(p) => p,
        None => {
            return None;
        },
    };
    let (token, i7) = match scan_l_token(s, i6) {
        Some(j) => {
            match p_jaddr(s, j) {
                Some((a, k)) => (Some(a), k),
                None => {
                    return None;
                },
            }
        },
        None => (None, i6),
    };
    let (description, i8) = match scan_l_description(s, i7) {
        Some(j) => {
            match p_jtext(s, j) {
                Some((d, k)) => (Some(d), k),
                None => {
                    return None;
                },
            }
        },
        None => (None, i7),
    };
    let (expires_at, i9) = match scan_l_expires_at(s, i8) {
        Some(j) => {
            match p_u64(s, j) {
                Some((v, k)) => (Some(v), k),
                None => {
                    return None;
                },
            }
        },
        None => (None, i8),
    };
    let i10 = match scan_l_resource(s, i9) {
        Some(j) => j,
        None => {
            return None;
        },
    };
    let (resource, i11) = match p_jtext(s, i10) {
        Some(p) => p,
        None => {
            return None;
        },
    };
    let i12 = match scan_l_close(s, i11) {
        Some(j) => j,
        None => {
            return None;
        },
    };
    if i12 != s.len() {
        return None;
    }
    Some(
        PaymentRequirements {
            amount,
            recipient,
            network,
            token,
            description,
            expires_at,
            resource,
        },
    )
}

/// Parses the canonical payload object starting at `i`.
pub fn parse_payload_at(s: &[u8], i: usize) -> (r: Option<(PaymentPayload, usize)>)
    requires
        i <= s@.len(),
    ensures
        r matches Some((p, j)) ==> sp_payload_at(s@, i as int) == Some((p@, j as int)) && i <= j
            <= s@.len(),
        r is None ==> sp_payload_at(s@, i as int) is None,
{
    let i1 = match scan_l_obj_amount(s, i) {
        Some(j) => j,
        None => {
            return None;
        },
    };
    let (amount, i2) = match p_u256(s, i1) {
        Some(p) => p,
        None => {
            return None;
        },
    };
    let i3 = match scan_l_q_recipient(s, i2) {
        Some(j) => j,
        None => {
            return None;
        },
    };
    let (recipient, i4) = match p_jaddr(s, i3) {
        Some(p) => p,
        None => {
            return None;
        },
    };
    let i5 = match scan_l_payer(s, i4) {
        Some(j) => j,
        None => {
            return None;
        },
    };
    let (payer, i6) = match p_jaddr(s, i5) {
        Some(p) => p,
        None => {
            return None;
        },
    };
    let i7 = match scan_l_chain_id(s, i6) {
        Some(j) => j,
        None => {
            return None;
        },
    };
    let (chain_id, i8) = match p_u64(s, i7) {
        Some(p) => p,
        None => {
            return None;
        },
    };
    let (token, i9) = match scan_l_token(s, i8) {
        Some(j) => {
            match p_jaddr(s, j) {
                Some((a, k)) => (Some(a), k),
                None => {
                    return None;
                },
            }
        },
        None => (None, i8),
    };
    let i10 = match scan_l_resource(s, i9) {
        Some(j) => j,
        None => {
            return None;
        },
    };
    let (resource, i11) = match p_jtext(s, i10) {
        Some(p) => p,
        None => {
            return None;
        },
    };
    let i12 = match scan_l_nonce(s, i11) {
        Some(j) => j,
        None => {
            return None;
        },
    };
    let (nonce, i13) = match p_u64(s, i12) {
        Some(p) => p,
        None => {
            return None;
        },
    };
    let i14 = match scan_l_expires_at(s, i13) {
        Some(j) => j,
        None => {
            return None;
        },
    };
    let (expires_at, i15) = match p_u64(s, i14) {
        Some(p) => p,
        None => {
            return None;
        },
    };
    let i16 = match scan_l_close(s, i15) {
        Some(j) => j,
        None => {
            return None;
        },
    };
    let p = PaymentPayload {
        amount,
        recipient,
        payer,
        chain_id,
        token,
        resource,
        nonce,
        expires_at,
    };
    Some((p, i16))
}

/// Parses one or more comma-separated signature bytes starting at `i`.
pub fn parse_sig_items(s: &[u8], i: usize) -> (r: Option<(Vec<u8>, usize)>)
    requires
        i <= s@.len(),
    ensures
        r matches Some((sig, j)) ==> sp_sig_items(s@, i as int) == Some((sig@, j as int)) && i <= j
            <= s@.len(),
        r is None ==> sp_sig_items(s@, i as int) is None,
{
    let mut acc: Vec<u8> = Vec::new();
    let mut cur: usize = i;
    loop
        invariant
            i <= cur <= s@.len(),
            sp_sig_items(s@, i as int) == (match sp_sig_items(s@, cur as int) {
                Some((c, j)) => Some((acc@ + c, j)),
                None => None::<(Seq<u8>, int)>,
            }),
        decreases s@.len() - cur,
    {
        let (b, j) = match p_u8(s, cur) {
            Some(p) => p,
            None => {
                return None;
            },
        };
        if j < s.len() && s[j] == 44 {
            let ghost pre = acc@;
            acc.push(b);
            proof {
                match sp_sig_items(s@, j + 1) {
                    Some((c, k)) => {
                        assert(sp_sig_items(s@, cur as int) == Some((seq![b] + c, k)));
                        assert(pre + (seq![b] + c) =~= (pre + seq![b]) + c);
                        assert(acc@ =~= pre + seq![b]);
                    },
                    None => {},
                }
            }
            cur = j + 1;
        } else {
            let ghost pre = acc@;
            acc.push(b);
            proof {
                assert(sp_sig_items(s@, cur as int) == Some((seq![b], j as int)));
                assert(pre + seq![b] =~= acc@);
            }
            return Some((acc, j));
        }
    }
}

/// Parses the canonical signed-payment object; the record's value is
/// exactly what `sp_signed` names for the input.
pub fn parse_signed(s: &[u8]) -> (r: Option<SignedPayment>)
    ensures
        r matches Some(sp) ==> sp_signed(s@) == Some(sp@),
        r is None ==> sp_signed(s@) is None,
{
    let i1 = match scan_l_obj_payment(s, 0) {
        Some(j) => j,
        None => {
            return None;
        },
    };
    let (payment, i2) = match parse_payload_at(s, i1) {
        Some(p) => p,
        None => {
            return None;
        },
    };
    let i3 = match scan_l_signature(s, i2) {
        Some(j) => j,
        None => {
            return None;
        },
    };
    if i3 < s.len() && s[i3] == 93 {
        let i4 = match scan_l_close_sig(s, i3) {
            Some(j) => j,
            None => {
                return None;
            },
        };
        if i4 != s.len() {
            return None;
        }
        let sp = SignedPayment { payment, signature: Vec::new() };
        proof {
            assert(sp@.signature =~= Seq::<u8>::empty());
        }
        Some(sp)
    } else {
        let (signature, i4) = match parse_sig_items(s, i3) {
            Some(p) => p,
            None => {
                return None;
            },
        };
        let i5 = match scan_l_close_sig(s, i4) {
            Some(j) => j,
            None => {
                return None;
            },
        };
        if i5 != s.len() {
            return None;
        }
        Some(SignedPayment { payment, signature })
    }
}


/// A rendered decimal number parses back to its value when a non-digit
/// follows it.
pub proof fn lemma_sp_u256_at(s: Seq<u8>, i: int, n: nat)
    requires
        0 <= i,
        i + dec_of(n).len() < s.len(),
        s.subrange(i, i + dec_of(n).len()) == dec_of(n),
        !is_dec_digit(s[i + dec_of(n).len()]),
        n < pow256(),
    ensures
        sp_u256(s, i) == Some((n, i + dec_of(n).len())),
{
    crate::uint256::lemma_dec_of_val(n);
    let j = i + dec_of(n).len();
    assert forall|k: int| i <= k < j implies is_dec_digit(#[trigger] s[k]) by {
        assert(s.subrange(i, j)[k - i] == dec_of(n)[k - i]);
    }
    lemma_digits_end_range(s, i, j);
    assert(dec_val(s.subrange(i, j)) == n);
}

/// The 64-bit form of `lemma_sp_u256_at`.
pub proof fn lemma_sp_u64_at(s: Seq<u8>, i: int, n: u64)
    requires
        0 <= i,
        i + dec_of(n as nat).len() < s.len(),
        s.subrange(i, i + dec_of(n as nat).len()) == dec_of(n as nat),
        !is_dec_digit(s[i + dec_of(n as nat).len()]),
    ensures
        sp_u64(s, i) == Some((n, i + dec_of(n as nat).len())),
{
    lemma_sp_u256_at(s, i, n as nat);
}

/// A quote-free span ending in a quote is exactly what `quote_end` finds.
pub proof fn lemma_quote_end_range(s: Seq<u8>, i: int, j: int)
    requires
        0 <= i <= j < s.len(),
        forall|k: int| i <= k < j ==> #[trigger] s[k] != 34,
        s[j] == 34,
    ensures
        quote_end(s, i) == Some(j),
    decreases j - i,
{
    if i < j {
        lemma_quote_end_range(s, i + 1, j);
    }
}

/// The nibble rendered at position `k` of a lowercase hex rendering.
pub open spec fn lower_hex_of_nibble(a: Seq<u8>, k: int) -> u8 {
    if k % 2 == 0 {
        (a[k / 2] / 16) as u8
    } else {
        (a[k / 2] % 16) as u8
    }
}

/// No byte of a `0x` hex rendering is a quote.
pub proof fn lemma_hex_no_quote(a: Seq<u8>)
    ensures
        forall|k: int| 0 <= k < hex_with_0x(a).len() ==> #[trigger] hex_with_0x(a)[k] != 34,
{
    let h = hex_with_0x(a);
    assert forall|k: int| 0 <= k < h.len() implies #[trigger] h[k] != 34 by {
        if k >= 2 {
            let x = lower_hex_of_nibble(a, k - 2);
            assert(h[k] == crate::address::hex_char_lower(x));
            assert(x < 16);
        }
    }
}

/// A rendered address parses back to its bytes.
pub proof fn lemma_jaddr_at(s: Seq<u8>, i: int, a: Seq<u8>)
    requires
        0 <= i,
        a.len() == 20,
        i + 44 <= s.len(),
        s.subrange(i, i + 44) == jaddr_of(a),
    ensures
        sp_jaddr(s, i) == Some((a, i + 44)),
{
    let ja = jaddr_of(a);
    assert(ja.len() == 44);
    assert(s[i] == 34) by {
        assert(s.subrange(i, i + 44)[0] == ja[0]);
    }
    assert(s[i + 43] == 34) by {
        assert(s.subrange(i, i + 44)[43] == ja[43]);
    }
    lemma_hex_no_quote(a);
    assert forall|k: int| i + 1 <= k < i + 43 implies #[trigger] s[k] != 34 by {
        assert(s.subrange(i, i + 44)[k - i] == ja[k - i]);
        assert(ja[k - i] == hex_with_0x(a)[k - i - 1]);
    }
    lemma_quote_end_range(s, i + 1, i + 43);
    assert(s.subrange(i + 1, i + 43) =~= hex_with_0x(a)) by {
        assert forall|k: int| 0 <= k < 42 implies s.subrange(i + 1, i + 43)[k] == hex_with_0x(a)[k]
        by {
            assert(s.subrange(i, i + 44)[k + 1] == ja[k + 1]);
        }
    }
    crate::address::lemma_addr_hex_roundtrip(a);
}

/// A rendered network name parses back to its network.
pub proof fn lemma_jnetwork_at(s: Seq<u8>, i: int, n: Network)
    requires
        0 <= i,
        i + jnetwork_of(n).len() <= s.len(),
        s.subrange(i, i + jnetwork_of(n).len()) == jnetwork_of(n),
    ensures
        sp_jnetwork(s, i) == Some((n, i + jnetwork_of(n).len())),
{
    let jn = jnetwork_of(n);
    let name = n.spec_name_bytes();
    let len = jn.len();
    assert(s[i] == 34) by {
        assert(s.subrange(i, i + len)[0] == jn[0]);
    }
    assert(s[i + len - 1] == 34) by {
        assert(s.subrange(i, i + len)[len - 1] == jn[len - 1]);
    }
    assert(forall|k: int| 0 <= k < name.len() ==> #[trigger] name[k] != 34);
    assert forall|k: int| i + 1 <= k < i + len - 1 implies #[trigger] s[k] != 34 by {
        assert(s.subrange(i, i + len)[k - i] == jn[k - i]);
        assert(jn[k - i] == name[k - i - 1]);
    }
    lemma_quote_end_range(s, i + 1, i + len - 1);
    assert(s.subrange(i + 1, i + len - 1) =~= name) by {
        assert forall|k: int| 0 <= k < name.len() implies s.subrange(i + 1, i + len - 1)[k]
            == name[k] by {
            assert(s.subrange(i, i + len)[k + 1] == jn[k + 1]);
        }
    }
    assert(Network::spec_from_name_bytes(name) == Some(n)) by {
        match n {
            Network::Ethereum => {},
            Network::Base => {},
            Network::BaseSepolia => {},
            Network::Arbitrum => {
                assert(name[0] != Network::Ethereum.spec_name_bytes()[0]);
                assert(name != Network::Ethereum.spec_name_bytes());
            },
            Network::Optimism => {
                assert(name[0] != Network::Ethereum.spec_name_bytes()[0]);
                assert(name != Network::Ethereum.spec_name_bytes());
                assert(name[0] != Network::Arbitrum.spec_name_bytes()[0]);
                assert(name != Network::Arbitrum.spec_name_bytes());
            },
            Network::Polygon => {},
        }
    }
}

/// Escaped content followed by a quote unescapes to the original bytes.
pub proof fn lemma_jsb_of_escaped(s: Seq<u8>, i: int, bs: Seq<u8>)
    requires
        0 <= i,
        i + esc_bytes(bs).len() < s.len(),
        s.subrange(i, i + esc_bytes(bs).len()) == esc_bytes(bs),
        s[i + esc_bytes(bs).len()] == 34,
    ensures
        sp_jsb(s, i) == Some((bs, i + esc_bytes(bs).len())),
    decreases bs.len(),
{
    let e = esc_bytes(bs);
    if bs.len() == 0 {
        assert(s[i] == 34);
    } else {
        let b = bs[0];
        let eb = esc_byte(b);
        let rest = esc_bytes(bs.drop_first());
        assert(e == eb + rest);
        assert forall|k: int| 0 <= k < eb.len() implies #[trigger] s[i + k] == eb[k] by {
            assert(s.subrange(i, i + e.len())[k] == e[k]);
            assert(e[k] == eb[k]);
        }
        let i2 = i + eb.len();
        assert(s.subrange(i2, i2 + rest.len()) =~= rest) by {
            assert forall|k: int| 0 <= k < rest.len() implies s.subrange(i2, i2 + rest.len())[k]
                == rest[k] by {
                assert(s.subrange(i, i + e.len())[eb.len() + k] == e[eb.len() + k]);
                assert(e[eb.len() + k] == rest[k]);
            }
        }
        assert(s[i2 + rest.len()] == 34);
        lemma_jsb_of_escaped(s, i2, bs.drop_first());
        if b == 34 {
            assert(s[i + 0] == 92 && s[i + 1] == 34);
            assert(sp_jsb(s, i) == Some((seq![b] + bs.drop_first(), i + e.len())));
        } else if b == 92 {
            assert(s[i + 0] == 92 && s[i + 1] == 92);
            assert(sp_jsb(s, i) == Some((seq![b] + bs.drop_first(), i + e.len())));
        } else if b < 32 {
            assert(s[i + 0] == 92 && s[i + 1] == 117 && s[i + 2] == 48 && s[i + 3] == 48);
            assert(s[i + 4] == crate::address::hex_char_lower((b / 16) as u8));
            assert(s[i + 5] == crate::address::hex_char_lower((b % 16) as u8));
            assert(crate::address::hex_nibble_val(s[i + 4]) == b / 16);
            assert(crate::address::hex_nibble_val(s[i + 5]) == b % 16);
            assert(16 * crate::address::hex_nibble_val(s[i + 4])
                + crate::address::hex_nibble_val(s[i + 5]) == b);
            assert(sp_jsb(s, i) == Some((seq![b] + bs.drop_first(), i + e.len())));
        } else {
            assert(s[i + 0] == b && b >= 32 && b != 34 && b != 92);
            assert(sp_jsb(s, i) == Some((seq![b] + bs.drop_first(), i + e.len())));
        }
        assert(seq![b] + bs.drop_first() =~= bs);
    }
}

/// A rendered JSON string parses back to its text.
pub proof fn lemma_jtext_at(s: Seq<u8>, i: int, cs: Seq<char>)
    requires
        0 <= i,
        i + jstr_of(cs).len() <= s.len(),
        s.subrange(i, i + jstr_of(cs).len()) == jstr_of(cs),
    ensures
        sp_jtext(s, i) == Some((cs, i + jstr_of(cs).len())),
{
    let js = jstr_of(cs);
    let e = esc_bytes(encode_utf8(cs));
    assert(js.len() == e.len() + 2);
    assert(s[i] == 34) by {
        assert(s.subrange(i, i + js.len())[0] == js[0]);
    }
    assert(s[i + 1 + e.len()] == 34) by {
        assert(s.subrange(i, i + js.len())[js.len() - 1] == js[js.len() - 1]);
    }
    assert(s.subrange(i + 1, i + 1 + e.len()) =~= e) by {
        assert forall|k: int| 0 <= k < e.len() implies s.subrange(i + 1, i + 1 + e.len())[k]
            == e[k] by {
            assert(s.subrange(i, i + js.len())[k + 1] == js[k + 1]);
            assert(js[k + 1] == e[k]);
        }
    }
    lemma_jsb_of_escaped(s, i + 1, encode_utf8(cs));
    encode_utf8_valid_utf8(cs);
    encode_utf8_decode_utf8(cs);
}

/// A rendered signature list followed by `]` parses back to its bytes.
pub proof fn lemma_sig_items_at(s: Seq<u8>, i: int, bs: Seq<u8>)
    requires
        0 <= i,
        bs.len() >= 1,
        i + sig_json_of(bs).len() < s.len(),
        s.subrange(i, i + sig_json_of(bs).len()) == sig_json_of(bs),
        s[i + sig_json_of(bs).len()] == 93,
    ensures
        sp_sig_items(s, i) == Some((bs, i + sig_json_of(bs).len())),
    decreases bs.len(),
{
    let sj = sig_json_of(bs);
    let b = bs[0];
    let d = dec_of(b as nat);
    if bs.len() == 1 {
        assert(sj == d);
        lemma_sp_u256_at(s, i, b as nat);
        assert(sp_u8(s, i) == Some((b, i + d.len())));
        assert(s[i + d.len()] == 93);
        assert(seq![b] =~= bs);
    } else {
        let rest = sig_json_of(bs.drop_first());
        assert(sj == d + seq![44u8] + rest);
        assert(s.subrange(i, i + d.len()) =~= d) by {
            assert forall|k: int| 0 <= k < d.len() implies s.subrange(i, i + d.len())[k] == d[k] by {
                assert(s.subrange(i, i + sj.len())[k] == sj[k]);
                assert(sj[k] == d[k]);
            }
        }
        assert(s[i + d.len()] == 44) by {
            assert(s.subrange(i, i + sj.len())[d.len() as int] == sj[d.len() as int]);
        }
        lemma_sp_u256_at(s, i, b as nat);
        assert(sp_u8(s, i) == Some((b, i + d.len())));
        let i2 = i + d.len() + 1;
        assert(s.subrange(i2, i2 + rest.len()) =~= rest) by {
            assert forall|k: int| 0 <= k < rest.len() implies s.subrange(i2, i2 + rest.len())[k]
                == rest[k] by {
                assert(s.subrange(i, i + sj.len())[d.len() + 1 + k] == sj[d.len() + 1 + k]);
                assert(sj[d.len() + 1 + k] == rest[k]);
            }
        }
        assert(s[i2 + rest.len()] == 93);
        assert(bs.drop_first().len() >= 1);
        lemma_sig_items_at(s, i2, bs.drop_first());
        assert(seq![b] + bs.drop_first() =~= bs);
    }
}


/// Well-formedness of a requirements value: what every `PaymentRequirements`
/// satisfies by construction.
pub open spec fn wf_req(r: ReqView) -> bool {
    &&& r.amount < pow256()
    &&& r.recipient.len() == 20
    &&& match r.token {
        Some(a) => a.len() == 20,
        None => true,
    }
}

/// Well-formedness of a payload value.
pub open spec fn wf_payload(p: PayloadView) -> bool {
    &&& p.amount < pow256()
    &&& p.recipient.len() == 20
    &&& p.payer.len() == 20
    &&& match p.token {
        Some(a) => a.len() == 20,
        None => true,
    }
}

/// Every requirements record is well-formed.
pub proof fn lemma_req_view_wf(r: &PaymentRequirements)
    ensures
        wf_req(r@),
{
    crate::uint256::lemma_val_bound(r.amount);
    assert(r.recipient@.len() == 20);
    match r.token {
        Some(a) => {
            assert(a@.len() == 20);
        },
        None => {},
    }
}

/// Every payload record is well-formed.
pub proof fn lemma_payload_view_wf(p: &PaymentPayload)
    ensures
        wf_payload(p@),
{
    crate::uint256::lemma_val_bound(p.amount);
    assert(p.recipient@.len() == 20);
    assert(p.payer@.len() == 20);
    match p.token {
        Some(a) => {
            assert(a@.len() == 20);
        },
        None => {},
    }
}

/// Splitting a window known to hold a concatenation yields the two parts.
pub proof fn lemma_split_window(s: Seq<u8>, p: int, e: int, x: Seq<u8>, y: Seq<u8>)
    requires
        0 <= p <= e <= s.len(),
        s.subrange(p, e) == x + y,
    ensures
        p + x.len() <= e,
        s.subrange(p, p + x.len()) == x,
        s.subrange(p + x.len(), e) == y,
{
    assert((x + y).len() == e - p);
    assert(s.subrange(p, p + x.len()) =~= x) by {
        assert forall|k: int| 0 <= k < x.len() implies s.subrange(p, p + x.len())[k] == x[k] by {
            assert(s.subrange(p, e)[k] == (x + y)[k]);
        }
    }
    assert(s.subrange(p + x.len(), e) =~= y) by {
        assert forall|k: int| 0 <= k < y.len() implies s.subrange(p + x.len(), e)[k] == y[k] by {
            assert(s.subrange(p, e)[x.len() + k] == (x + y)[x.len() + k]);
            assert((x + y)[x.len() + k] == y[k]);
            assert(s.subrange(p, e)[x.len() + k] == s[p + (x.len() + k)]);
            assert(s.subrange(p + x.len(), e)[k] == s[p + x.len() + k]);
        }
    }
}

/// The first byte of a window known to hold a nonempty piece.
pub proof fn lemma_window_byte(s: Seq<u8>, p: int, e: int, x: Seq<u8>, k: int)
    requires
        0 <= p <= e <= s.len(),
        s.subrange(p, e) == x,
        0 <= k < x.len(),
    ensures
        s[p + k] == x[k],
{
    assert(s.subrange(p, e)[k] == x[k]);
}

/// The parsing facts that hold of a requirements rendering, field by field.
pub open spec fn sp_req_all_ok(s: Seq<u8>, r: ReqView) -> bool {
    &&& sp_lit(s, 0, lit_l_obj_amount()) matches Some(p1)
    &&& sp_u256(s, p1) matches Some((av, p2))
    &&& av == r.amount
    &&& sp_lit(s, p2, lit_l_q_recipient()) matches Some(p3)
    &&& sp_jaddr(s, p3) matches Some((rec, p4))
    &&& rec == r.recipient
    &&& sp_lit(s, p4, lit_l_network()) matches Some(p5)
    &&& sp_jnetwork(s, p5) matches Some((nw, p6))
    &&& nw == r.network
    &&& sp_req_opts_ok(s, p6, r)
}

/// The parsing facts from the optional token field onwards.
pub open spec fn sp_req_opts_ok(s: Seq<u8>, p: int, r: ReqView) -> bool {
    &&& sp_opt_addr(s, p, lit_l_token()) matches Some((tok, p2))
    &&& tok == r.token
    &&& sp_req_from_description(s, p2, r)
}

/// Round trip for requirements: the canonical rendering of any well-formed
/// requirements value parses back to exactly that value.
pub proof fn lemma_req_json_roundtrip(r: ReqView)
    requires
        wf_req(r),
    ensures
        sp_req(req_json(r)) == Some(r),
{
    lemma_req_walk(r);
    lemma_req_assemble(req_json(r), r);
}

/// Walks the rendering, establishing each field's parsing fact.
#[verifier::rlimit(100)]
proof fn lemma_req_walk(r: ReqView)
    requires
        wf_req(r),
    ensures
        sp_req_all_ok(req_json(r), r),
{
    let s = req_json(r);
    let e = s.len() as int;
    assert(s.subrange(0, e) =~= s);
    lemma_split_window(s, 0, e, lit_l_obj_amount(), dec_of(r.amount) + (lit_l_q_recipient() + (
    jaddr_of(r.recipient) + (lit_l_network() + (jnetwork_of(r.network) + req_json_from_token(
        r,
    ))))));
    let p1 = lit_l_obj_amount().len() as int;
    assert(sp_lit(s, 0, lit_l_obj_amount()) == Some(p1));
    lemma_split_window(s, p1, e, dec_of(r.amount), lit_l_q_recipient() + (jaddr_of(r.recipient) + (
    lit_l_network() + (jnetwork_of(r.network) + req_json_from_token(r)))));
    let p2 = p1 + dec_of(r.amount).len();
    lemma_window_byte(s, p2, e, lit_l_q_recipient() + (jaddr_of(r.recipient) + (lit_l_network() + (
    jnetwork_of(r.network) + req_json_from_token(r)))), 0);
    assert(s[p2] == 34);
    lemma_sp_u256_at(s, p1, r.amount);
    lemma_split_window(s, p2, e, lit_l_q_recipient(), jaddr_of(r.recipient) + (lit_l_network() + (
    jnetwork_of(r.network) + req_json_from_token(r))));
    let p3 = p2 + lit_l_q_recipient().len();
    assert(sp_lit(s, p2, lit_l_q_recipient()) == Some(p3));
    lemma_split_window(s, p3, e, jaddr_of(r.recipient), lit_l_network() + (jnetwork_of(r.network)
        + req_json_from_token(r)));
    let p4 = p3 + jaddr_of(r.recipient).len();
    assert(jaddr_of(r.recipient).len() == 44);
    lemma_jaddr_at(s, p3, r.recipient);
    lemma_split_window(s, p4, e, lit_l_network(), jnetwork_of(r.network) + req_json_from_token(r));
    let p5 = p4 + lit_l_network().len();
    assert(sp_lit(s, p4, lit_l_network()) == Some(p5));
    lemma_split_window(s, p5, e, jnetwork_of(r.network), req_json_from_token(r));
    let p6 = p5 + jnetwork_of(r.network).len();
    lemma_jnetwork_at(s, p5, r.network);
    lemma_req_from_token_at(s, p6, r);
}

/// Folds the field-by-field facts into the whole-object parser.
#[verifier::rlimit(100)]
proof fn lemma_req_assemble(s: Seq<u8>, r: ReqView)
    requires
        sp_req_all_ok(s, r),
    ensures
        sp_req(s) == Some(r),
{
}

/// Round trip for the token-onwards part of a requirements rendering.
proof fn lemma_req_from_token_at(s: Seq<u8>, p: int, r: ReqView)
    requires
        wf_req(r),
        0 <= p,
        p + req_json_from_token(r).len() == s.len(),
        s.subrange(p, s.len() as int) == req_json_from_token(r),
    ensures
        sp_req_opts_ok(s, p, r),
{
    let e = s.len() as int;
    match r.token {
        Some(a) => {
            lemma_split_window(s, p, e, lit_l_token(), jaddr_of(a) + req_json_from_description(r));
            let p1 = p + lit_l_token().len();
            assert(sp_lit(s, p, lit_l_token()) == Some(p1));
            lemma_split_window(s, p1, e, jaddr_of(a), req_json_from_description(r));
            let p2 = p1 + 44;
            lemma_jaddr_at(s, p1, a);
            lemma_req_from_description_at(s, p2, r);
        },
        None => {
            lemma_req_no_token_label(s, p, r);
            lemma_req_from_description_at(s, p, r);
        },
    }
}

/// When the token is absent, the token label does not match: whatever field
/// follows differs from it at its third byte.
proof fn lemma_req_no_token_label(s: Seq<u8>, p: int, r: ReqView)
    requires
        r.token is None,
        0 <= p,
        p + req_json_from_token(r).len() == s.len(),
        s.subrange(p, s.len() as int) == req_json_from_token(r),
    ensures
        sp_lit(s, p, lit_l_token()) is None,
{
    let e = s.len() as int;
    match r.description {
        Some(d) => {
            lemma_window_byte(s, p, e, req_json_from_token(r), 2);
            assert(s[p + 2] == 100);
        },
        None => {
            match r.expires_at {
                Some(x) => {
                    lemma_window_byte(s, p, e, req_json_from_token(r), 2);
                    assert(s[p + 2] == 101);
                },
                None => {
                    lemma_window_byte(s, p, e, req_json_from_token(r), 2);
                    assert(s[p + 2] == 114);
                },
            }
        },
    }
    if p + 9 <= s.len() && s.subrange(p, p + 9) == lit_l_token() {
        assert(s.subrange(p, p + 9)[2] == 116);
    }
}

/// What remains to be parsed after the token field agrees with `r`.
pub open spec fn sp_req_from_description(s: Seq<u8>, p: int, r: ReqView) -> bool {
    &&& sp_opt_text(s, p, lit_l_description()) matches Some((d, p2))
    &&& d == r.description
    &&& sp_req_from_expiry(s, p2, r)
}

pub open spec fn sp_req_from_expiry(s: Seq<u8>, p: int, r: ReqView) -> bool {
    &&& sp_opt_u64(s, p, lit_l_expires_at()) matches Some((x, p2))
    &&& x == r.expires_at
    &&& sp_req_tail(s, p2, r)
}

pub open spec fn sp_req_tail(s: Seq<u8>, p: int, r: ReqView) -> bool {
    &&& sp_lit(s, p, lit_l_resource()) matches Some(p2)
    &&& sp_jtext(s, p2) matches Some((res, p3))
    &&& res == r.resource
    &&& sp_lit(s, p3, lit_l_close()) == Some(s.len() as int)
}

proof fn lemma_req_from_description_at(s: Seq<u8>, p: int, r: ReqView)
    requires
        0 <= p,
        p + req_json_from_description(r).len() == s.len(),
        s.subrange(p, s.len() as int) == req_json_from_description(r),
    ensures
        sp_req_from_description(s, p, r),
{
    let e = s.len() as int;
    match r.description {
        Some(d) => {
            lemma_split_window(s, p, e, lit_l_description(), jstr_of(d) + req_json_from_expiry(r));
            let p1 = p + lit_l_description().len();
            assert(sp_lit(s, p, lit_l_description()) == Some(p1));
            lemma_split_window(s, p1, e, jstr_of(d), req_json_from_expiry(r));
            let p2 = p1 + jstr_of(d).len();
            lemma_jtext_at(s, p1, d);
            lemma_req_from_expiry_at(s, p2, r);
        },
        None => {
            match r.expires_at {
                Some(x) => {
                    lemma_window_byte(s, p, e, req_json_from_description(r), 2);
                    assert(s[p + 2] == 101);
                },
                None => {
                    lemma_window_byte(s, p, e, req_json_from_description(r), 2);
                    assert(s[p + 2] == 114);
                },
            }
            if p + 15 <= s.len() && s.subrange(p, p + 15) == lit_l_description() {
                assert(s.subrange(p, p + 15)[2] == 100);
            }
            assert(sp_lit(s, p, lit_l_description()) is None);
            lemma_req_from_expiry_at(s, p, r);
        },
    }
}

proof fn lemma_req_from_expiry_at(s: Seq<u8>, p: int, r: ReqView)
    requires
        0 <= p,
        p + req_json_from_expiry(r).len() == s.len(),
        s.subrange(p, s.len() as int) == req_json_from_expiry(r),
    ensures
        sp_req_from_expiry(s, p, r),
{
    let e = s.len() as int;
    match r.expires_at {
        Some(x) => {
            lemma_split_window(s, p, e, lit_l_expires_at(), dec_of(x as nat) + req_json_tail(r));
            let p1 = p + lit_l_expires_at().len();
            assert(sp_lit(s, p, lit_l_expires_at()) == Some(p1));
            lemma_split_window(s, p1, e, dec_of(x as nat), req_json_tail(r));
            let p2 = p1 + dec_of(x as nat).len();
            lemma_window_byte(s, p2, e, req_json_tail(r), 0);
            assert(s[p2] == 44);
            lemma_sp_u64_at(s, p1, x);
            lemma_req_tail_at(s, p2, r);
        },
        None => {
            lemma_window_byte(s, p, e, req_json_from_expiry(r), 2);
            assert(s[p + 2] == 114);
            if p + 13 <= s.len() && s.subrange(p, p + 13) == lit_l_expires_at() {
                assert(s.subrange(p, p + 13)[2] == 101);
            }
            assert(sp_lit(s, p, lit_l_expires_at()) is None);
            lemma_req_tail_at(s, p, r);
        },
    }
}

proof fn lemma_req_tail_at(s: Seq<u8>, p: int, r: ReqView)
    requires
        0 <= p,
        p + req_json_tail(r).len() == s.len(),
        s.subrange(p, s.len() as int) == req_json_tail(r),
    ensures
        sp_req_tail(s, p, r),
{
    let e = s.len() as int;
    lemma_split_window(s, p, e, lit_l_resource(), jstr_of(r.resource) + lit_l_close());
    let p1 = p + lit_l_resource().len();
    assert(sp_lit(s, p, lit_l_resource()) == Some(p1));
    lemma_split_window(s, p1, e, jstr_of(r.resource), lit_l_close());
    let p2 = p1 + jstr_of(r.resource).len();
    lemma_jtext_at(s, p1, r.resource);
    assert(s.subrange(p2, e) == lit_l_close());
    assert(sp_lit(s, p2, lit_l_close()) == Some(p2 + 1));
    assert(p2 + 1 == e);
}

/// Round trip for payloads, at any position of a larger buffer.
#[verifier::rlimit(100)]
pub proof fn lemma_payload_json_at(s: Seq<u8>, i: int, p: PayloadView)
    requires
        wf_payload(p),
        0 <= i,
        i + payload_json(p).len() <= s.len(),
        s.subrange(i, i + payload_json(p).len()) == payload_json(p),
    ensures
        sp_payload_at(s, i) == Some((p, i + payload_json(p).len())),
{
    let e = i + payload_json(p).len();
    lemma_split_window(s, i, e, lit_l_obj_amount(), dec_of(p.amount) + (lit_l_q_recipient() + (
    jaddr_of(p.recipient) + (lit_l_payer() + (jaddr_of(p.payer) + (lit_l_chain_id() + (dec_of(
        p.chain_id as nat,
    ) + payload_json_from_token(p))))))));
    let q1 = i + lit_l_obj_amount().len();
    assert(sp_lit(s, i, lit_l_obj_amount()) == Some(q1));
    lemma_split_window(s, q1, e, dec_of(p.amount), lit_l_q_recipient() + (jaddr_of(p.recipient) + (
    lit_l_payer() + (jaddr_of(p.payer) + (lit_l_chain_id() + (dec_of(p.chain_id as nat)
        + payload_json_from_token(p)))))));
    let q2 = q1 + dec_of(p.amount).len();
    lemma_window_byte(s, q2, e, lit_l_q_recipient() + (jaddr_of(p.recipient) + (lit_l_payer() + (
    jaddr_of(p.payer) + (lit_l_chain_id() + (dec_of(p.chain_id as nat) + payload_json_from_token(
        p,
    )))))), 0);
    assert(s[q2] == 34);
    lemma_sp_u256_at(s, q1, p.amount);
    lemma_split_window(s, q2, e, lit_l_q_recipient(), jaddr_of(p.recipient) + (lit_l_payer() + (
    jaddr_of(p.payer) + (lit_l_chain_id() + (dec_of(p.chain_id as nat) + payload_json_from_token(
        p,
    ))))));
    let q3 = q2 + lit_l_q_recipient().len();
    assert(sp_lit(s, q2, lit_l_q_recipient()) == Some(q3));
    lemma_split_window(s, q3, e, jaddr_of(p.recipient), lit_l_payer() + (jaddr_of(p.payer) + (
    lit_l_chain_id() + (dec_of(p.chain_id as nat) + payload_json_from_token(p)))));
    let q4 = q3 + 44;
    assert(jaddr_of(p.recipient).len() == 44);
    lemma_jaddr_at(s, q3, p.recipient);
    lemma_split_window(s, q4, e, lit_l_payer(), jaddr_of(p.payer) + (lit_l_chain_id() + (dec_of(
        p.chain_id as nat,
    ) + payload_json_from_token(p))));
    let q5 = q4 + lit_l_payer().len();
    assert(sp_lit(s, q4, lit_l_payer()) == Some(q5));
    lemma_split_window(s, q5, e, jaddr_of(p.payer), lit_l_chain_id() + (dec_of(p.chain_id as nat)
        + payload_json_from_token(p)));
    let q6 = q5 + 44;
    assert(jaddr_of(p.payer).len() == 44);
    lemma_jaddr_at(s, q5, p.payer);
    lemma_split_window(s, q6, e, lit_l_chain_id(), dec_of(p.chain_id as nat)
        + payload_json_from_token(p));
    let q7 = q6 + lit_l_chain_id().len();
    assert(sp_lit(s, q6, lit_l_chain_id()) == Some(q7));
    lemma_split_window(s, q7, e, dec_of(p.chain_id as nat), payload_json_from_token(p));
    let q8 = q7 + dec_of(p.chain_id as nat).len();
    lemma_window_byte(s, q8, e, payload_json_from_token(p), 0);
    assert(s[q8] == 44);
    lemma_sp_u64_at(s, q7, p.chain_id);
    match p.token {
        Some(a) => {
            lemma_split_window(s, q8, e, lit_l_token(), jaddr_of(a) + payload_json_tail(p));
            let q9 = q8 + lit_l_token().len();
            assert(sp_lit(s, q8, lit_l_token()) == Some(q9));
            lemma_split_window(s, q9, e, jaddr_of(a), payload_json_tail(p));
            let q10 = q9 + 44;
            assert(jaddr_of(a).len() == 44);
            lemma_jaddr_at(s, q9, a);
            lemma_payload_tail_at(s, q10, e, p);
        },
        None => {
            lemma_window_byte(s, q8, e, payload_json_from_token(p), 2);
            assert(s[q8 + 2] == 114);
            if q8 + 9 <= s.len() && s.subrange(q8, q8 + 9) == lit_l_token() {
                assert(s.subrange(q8, q8 + 9)[2] == 116);
            }
            assert(sp_lit(s, q8, lit_l_token()) is None);
            lemma_payload_tail_at(s, q8, e, p);
        },
    }
}

/// Round trip for the resource-onwards part of a payload rendering.
proof fn lemma_payload_tail_at(s: Seq<u8>, p0: int, e: int, p: PayloadView)
    requires
        0 <= p0 <= e <= s.len(),
        p0 + payload_json_tail(p).len() == e,
        s.subrange(p0, e) == payload_json_tail(p),
    ensures
        ({
            &&& sp_lit(s, p0, lit_l_resource()) matches Some(p1)
            &&& sp_jtext(s, p1) matches Some((res, p2))
            &&& res == p.resource
            &&& sp_lit(s, p2, lit_l_nonce()) matches Some(p3)
            &&& sp_u64(s, p3) matches Some((nv, p4))
            &&& nv == p.nonce
            &&& sp_lit(s, p4, lit_l_expires_at()) matches Some(p5)
            &&& sp_u64(s, p5) matches Some((xv, p6))
            &&& xv == p.expires_at
            &&& sp_lit(s, p6, lit_l_close()) == Some(e)
        }),
{
    lemma_split_window(s, p0, e, lit_l_resource(), jstr_of(p.resource) + (lit_l_nonce() + (
    dec_of(p.nonce as nat) + (lit_l_expires_at() + (dec_of(p.expires_at as nat)
        + lit_l_close())))));
    let p1 = p0 + lit_l_resource().len();
    assert(sp_lit(s, p0, lit_l_resource()) == Some(p1));
    lemma_split_window(s, p1, e, jstr_of(p.resource), lit_l_nonce() + (dec_of(p.nonce as nat)
        + (lit_l_expires_at() + (dec_of(p.expires_at as nat) + lit_l_close()))));
    let p2 = p1 + jstr_of(p.resource).len();
    lemma_jtext_at(s, p1, p.resource);
    lemma_split_window(s, p2, e, lit_l_nonce(), dec_of(p.nonce as nat) + (lit_l_expires_at() + (
    dec_of(p.expires_at as nat) + lit_l_close())));
    let p3 = p2 + lit_l_nonce().len();
    assert(sp_lit(s, p2, lit_l_nonce()) == Some(p3));
    lemma_split_window(s, p3, e, dec_of(p.nonce as nat), lit_l_expires_at() + (dec_of(
        p.expires_at as nat,
    ) + lit_l_close()));
    let p4 = p3 + dec_of(p.nonce as nat).len();
    lemma_window_byte(s, p4, e, lit_l_expires_at() + (dec_of(p.expires_at as nat) + lit_l_close()),
        0);
    assert(s[p4] == 44);
    lemma_sp_u64_at(s, p3, p.nonce);
    lemma_split_window(s, p4, e, lit_l_expires_at(), dec_of(p.expires_at as nat)
        + lit_l_close());
    let p5 = p4 + lit_l_expires_at().len();
    assert(sp_lit(s, p4, lit_l_expires_at()) == Some(p5));
    lemma_split_window(s, p5, e, dec_of(p.expires_at as nat), lit_l_close());
    let p6 = p5 + dec_of(p.expires_at as nat).len();
    lemma_window_byte(s, p6, e, lit_l_close(), 0);
    assert(s[p6] == 125);
    lemma_sp_u64_at(s, p5, p.expires_at);
    assert(sp_lit(s, p6, lit_l_close()) == Some(e));
}

/// The parsing facts that hold of a signed-payment rendering.
pub open spec fn sp_signed_all_ok(s: Seq<u8>, v: SignedView) -> bool {
    &&& sp_lit(s, 0, lit_l_obj_payment()) matches Some(p1)
    &&& sp_payload_at(s, p1) matches Some((pv, p2))
    &&& pv == v.payment
    &&& sp_lit(s, p2, lit_l_signature()) matches Some(p3)
    &&& 0 <= p3 < s.len()
    &&& (v.signature.len() == 0 ==> s[p3] == 93 && sp_lit(s, p3, lit_l_close_sig()) == Some(
        s.len() as int,
    ))
    &&& (v.signature.len() > 0 ==> s[p3] != 93 && sp_signed_items_ok(s, p3, v))
}

/// The parsing facts for a nonempty signature list and the closing bytes.
pub open spec fn sp_signed_items_ok(s: Seq<u8>, p3: int, v: SignedView) -> bool {
    &&& sp_sig_items(s, p3) matches Some((sig, p4))
    &&& sig == v.signature
    &&& sp_lit(s, p4, lit_l_close_sig()) == Some(s.len() as int)
}

/// Round trip for signed payments: the canonical rendering of any
/// well-formed signed payment parses back to exactly that value.
pub proof fn lemma_signed_json_roundtrip(v: SignedView)
    requires
        wf_payload(v.payment),
    ensures
        sp_signed(signed_json(v)) == Some(v),
{
    lemma_signed_walk(v);
    lemma_signed_assemble(signed_json(v), v);
}

/// Walks the rendering of a signed payment, establishing each part's fact.
proof fn lemma_signed_walk(v: SignedView)
    requires
        wf_payload(v.payment),
    ensures
        sp_signed_all_ok(signed_json(v), v),
{
    let s = signed_json(v);
    let p1 = lit_l_obj_payment().len() as int;
    let p2 = p1 + payload_json(v.payment).len();
    lemma_signed_walk_head(v);
    lemma_payload_json_at(s, p1, v.payment);
    lemma_signed_walk_sig(s, p2, v);
}

/// Splits a signed-payment rendering into its three parts.
#[verifier::rlimit(100)]
proof fn lemma_signed_walk_head(v: SignedView)
    ensures
        ({
            let s = signed_json(v);
            let p1 = lit_l_obj_payment().len() as int;
            let p2 = p1 + payload_json(v.payment).len();
            &&& s.len() == p2 + lit_l_signature().len() + sig_json_of(v.signature).len() + 2
            &&& sp_lit(s, 0, lit_l_obj_payment()) == Some(p1)
            &&& s.subrange(p1, p2) == payload_json(v.payment)
            &&& s.subrange(p2, s.len() as int) == lit_l_signature() + (sig_json_of(v.signature)
                + lit_l_close_sig())
        }),
{
    let s = signed_json(v);
    let e = s.len() as int;
    assert(s.subrange(0, e) =~= s);
    lemma_split_window(s, 0, e, lit_l_obj_payment(), payload_json(v.payment) + (lit_l_signature()
        + (sig_json_of(v.signature) + lit_l_close_sig())));
    let p1 = lit_l_obj_payment().len() as int;
    assert(sp_lit(s, 0, lit_l_obj_payment()) == Some(p1));
    lemma_split_window(s, p1, e, payload_json(v.payment), lit_l_signature() + (sig_json_of(
        v.signature,
    ) + lit_l_close_sig()));
}

/// Walks the signature part of a signed-payment rendering.
#[verifier::rlimit(100)]
proof fn lemma_signed_walk_sig(s: Seq<u8>, p2: int, v: SignedView)
    requires
        0 <= p2,
        p2 + lit_l_signature().len() + sig_json_of(v.signature).len() + 2 == s.len(),
        s.subrange(p2, s.len() as int) == lit_l_signature() + (sig_json_of(v.signature)
            + lit_l_close_sig()),
    ensures
        sp_lit(s, p2, lit_l_signature()) == Some(p2 + lit_l_signature().len()),
        ({
            let p3 = p2 + lit_l_signature().len();
            &&& (v.signature.len() == 0 ==> s[p3] == 93 && sp_lit(s, p3, lit_l_close_sig())
                == Some(s.len() as int))
            &&& (v.signature.len() > 0 ==> s[p3] != 93 && sp_signed_items_ok(s, p3, v))
        }),
{
    let e = s.len() as int;
    lemma_split_window(s, p2, e, lit_l_signature(), sig_json_of(v.signature) + lit_l_close_sig());
    let p3 = p2 + lit_l_signature().len();
    assert(sp_lit(s, p2, lit_l_signature()) == Some(p3));
    lemma_split_window(s, p3, e, sig_json_of(v.signature), lit_l_close_sig());
    let p4 = p3 + sig_json_of(v.signature).len();
    if v.signature.len() == 0 {
        assert(sig_json_of(v.signature) =~= Seq::<u8>::empty());
        assert(p4 == p3);
        lemma_window_byte(s, p4, e, lit_l_close_sig(), 0);
        assert(s[p3] == 93);
        assert(sp_lit(s, p3, lit_l_close_sig()) == Some(p3 + 2));
        assert(p3 + 2 == e);
    } else {
        crate::uint256::lemma_dec_of_val(v.signature[0] as nat);
        lemma_window_byte(s, p3, p4, sig_json_of(v.signature), 0);
        assert(sig_json_of(v.signature)[0] == dec_of(v.signature[0] as nat)[0]);
        assert(is_dec_digit(s[p3]));
        assert(s[p3] != 93);
        lemma_window_byte(s, p4, e, lit_l_close_sig(), 0);
        assert(s[p4] == 93);
        assert(p4 + sig_json_of(v.signature).len() >= 0);
        lemma_sig_items_at(s, p3, v.signature);
        assert(sp_lit(s, p4, lit_l_close_sig()) == Some(p4 + 2));
        assert(p4 + 2 == e);
    }
}

/// Folds the part-by-part facts into the whole-object parser.
#[verifier::rlimit(100)]
proof fn lemma_signed_assemble(s: Seq<u8>, v: SignedView)
    requires
        sp_signed_all_ok(s, v),
    ensures
        sp_signed(s) == Some(v),
{
    if v.signature.len() == 0 {
        assert(v.signature =~= Seq::<u8>::empty());
        assert(SignedView { payment: v.payment, signature: Seq::<u8>::empty() } == v);
    }
}

} // verus!
