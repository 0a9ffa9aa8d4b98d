//! Signature recovery and the payment validator.

use vstd::prelude::*;

use crate::address::Address;
use crate::error::X402Error;
use crate::hashing::keccak256;
use crate::hashing::keccak_of;
use crate::types::message_bytes;
use crate::types::PaymentRequirements;
use crate::types::ReqView;
use crate::types::SignedPayment;
use crate::types::SignedView;
use vstd::string::StringExecFns;

verus! {

/// The secp256k1 public key recovered from a 32-byte digest, the 64 `r‖s`
/// signature bytes, and a recovery id in {0, 1}: the SEC1 uncompressed point
/// bytes, or `None` when recovery fails. Only named: the result is a
/// function of the three inputs alone.
pub uninterp spec fn ecdsa_recover(digest: Seq<u8>, rs: Seq<u8>, recovery_id: u8) -> Option<
    Seq<u8>,
>;

/// Relies on k256's ECDSA recovery: `Signature::from_slice` parses the 64
/// `r‖s` bytes, `VerifyingKey::recover_from_prehash` recovers the public key
/// from the digest and recovery id, and `to_encoded_point(false)` renders it
/// as the 65-byte SEC1 uncompressed point, tag byte 4 first. Each step is a
/// deterministic function of the inputs; a failure of either step is `Err`.
#[verifier::external_body]
fn recover_pubkey(digest: &[u8], rs: &[u8], recovery_id: u8) -> (r: Result<Vec<u8>, String>)
    requires
        digest@.len() == 32,
        rs@.len() == 64,
        recovery_id <= 1,
    ensures
        r matches Ok(pk) ==> ecdsa_recover(digest@, rs@, recovery_id) == Some(pk@) && pk@.len()
            == 65 && pk@[0] == 4,
        r is Err ==> ecdsa_recover(digest@, rs@, recovery_id) is None,
{
    let signature = match k256::ecdsa::Signature::from_slice(rs) {
        Ok(s) => s,
        Err(e) => return Err(e.to_string()),
    };
    let rec_id = match k256::ecdsa::RecoveryId::from_byte(recovery_id) {
        Some(id) => id,
        None => return Err("invalid recovery id".to_string()),
    };
    let key = match k256::ecdsa::VerifyingKey::recover_from_prehash(digest, &signature, rec_id) {
        Ok(k) => k,
        Err(e) => return Err(e.to_string()),
    };
    Ok(key.to_encoded_point(false).as_bytes().to_vec())
}

/// Relies on `std::time::SystemTime::now`, `duration_since(UNIX_EPOCH)` and
/// `Duration::as_secs` to read the current unix time; a clock before the
/// epoch reads as zero. Nothing is assumed of the value returned.
#[verifier::external_body]
fn now_secs() -> u64 {
    match std::time::SystemTime::now().duration_since(std::time::UNIX_EPOCH) {
        Ok(d) => d.as_secs(),
        Err(_) => 0,
    }
}

/// The recovery id named by the signature's trailing byte `v`: bytes 27 and
/// 28 (the legacy form) mean 0 and 1; bytes 0 and 1 mean themselves; every
/// other value is rejected.
pub open spec fn spec_recovery_id(v: u8) -> Option<u8> {
    if v == 27 || v == 28 {
        Some((v - 27) as u8)
    } else if v <= 1 {
        Some(v)
    } else {
        None
    }
}

fn recovery_id_from_v(v: u8) -> (r: Option<u8>)
    ensures
        r == spec_recovery_id(v),
{
    if v == 27 || v == 28 {
        Some(v - 27)
    } else if v <= 1 {
        Some(v)
    } else {
        None
    }
}

/// The 20-byte address of an SEC1 uncompressed public key: the low 20 bytes
/// of the Keccak-256 digest of the point bytes with the tag byte stripped.
pub open spec fn spec_pubkey_address(pk: Seq<u8>) -> Seq<u8> {
    keccak_of(pk.skip(1)).subrange(12, 32)
}

fn pubkey_address(pk: &[u8]) -> (r: Address)
    requires
        pk@.len() == 65,
    ensures
        r@ == spec_pubkey_address(pk@),
{
    let h = keccak256(&pk[1..65]);
    proof {
        assert(pk@.subrange(1, 65) =~= pk@.skip(1));
    }
    let mut bytes: [u8; 20] = [0u8; 20];
    let mut i: usize = 0;
    while i < 20
        invariant
            h@.len() == 32,
            h@ == keccak_of(pk@.skip(1)),
            i <= 20,
            forall|j: int| 0 <= j < i ==> bytes@[j] == h@[12 + j],
        decreases 20 - i,
    {
        bytes[i] = h[12 + i];
        i += 1;
    }
    let a = Address { bytes };
    proof {
        assert(a@ =~= spec_pubkey_address(pk@));
    }
    a
}

/// The address a signed payment's signature recovers to, or `None` when the
/// signature buffer is not 65 bytes, its trailing byte is not a recovery id,
/// or elliptic-curve recovery fails.
pub open spec fn spec_recovered_address(s: SignedView) -> Option<Seq<u8>> {
    if s.signature.len() != 65 {
        None
    } else {
        match spec_recovery_id(s.signature[64]) {
            Some(rid) => match ecdsa_recover(
                keccak_of(message_bytes(s.payment)),
                s.signature.subrange(0, 64),
                rid,
            ) {
                Some(pk) => Some(spec_pubkey_address(pk)),
                None => None,
            },
            None => None,
        }
    }
}

/// Recovers the signer address from a signed payment. Succeeds exactly when
/// `spec_recovered_address` names an address for it; every failure is
/// `InvalidSignature`. The result is a claim, not yet a verified identity.
pub fn recover_signer(payment: &SignedPayment) -> (r: Result<Address, X402Error>)
    ensures
        r matches Ok(a) ==> spec_recovered_address(payment@) == Some(a@),
        r is Err ==> spec_recovered_address(payment@) is None,
        r is Err ==> r->Err_0 matches X402Error::InvalidSignature(_),
{
    if payment.signature.len() != 65 {
        return Err(X402Error::InvalidSignature(String::from_str(
            "signature must be 65 bytes",
        )));
    }
    let digest = payment.payment.message_hash();
    let v = payment.signature[64];
    let rid = match recovery_id_from_v(v) {
        Some(rid) => rid,
        None => {
            return Err(X402Error::InvalidSignature(String::from_str(
                "invalid recovery id",
            )));
        },
    };
    let rs = &payment.signature.as_slice()[0..64];
    proof {
        assert(rs@ =~= payment@.signature.subrange(0, 64));
    }
    let pk = match recover_pubkey(digest.as_slice(), rs, rid) {
        Ok(pk) => pk,
        Err(cause) => {
            return Err(X402Error::InvalidSignature(cause));
        },
    };
    Ok(pubkey_address(pk.as_slice()))
}

/// Whether the payload is expired at time `now`.
pub open spec fn spec_expired(s: SignedView, now: u64) -> bool {
    s.payment.expires_at < now
}

/// Whether the offered amount covers the required amount, compared over the
/// full 256-bit values.
pub open spec fn spec_amount_ok(s: SignedView, q: ReqView) -> bool {
    s.payment.amount >= q.amount
}

pub open spec fn spec_recipient_ok(s: SignedView, q: ReqView) -> bool {
    s.payment.recipient == q.recipient
}

pub open spec fn spec_chain_ok(s: SignedView, q: ReqView) -> bool {
    s.payment.chain_id == q.network.spec_chain_id()
}

/// The business checks that run before signature recovery, in order.
pub open spec fn spec_checks_ok(s: SignedView, q: ReqView, now: u64) -> bool {
    &&& !spec_expired(s, now)
    &&& spec_amount_ok(s, q)
    &&& spec_recipient_ok(s, q)
    &&& spec_chain_ok(s, q)
}

/// Whether `r` is the insufficient-amount failure carrying both exact values.
pub open spec fn is_insufficient(r: Result<Address, X402Error>, s: SignedView, q: ReqView) -> bool {
    r matches Err(X402Error::InsufficientAmount { required, provided }) && required.val()
        == q.amount && provided.val() == s.payment.amount
}

/// Whether `r` succeeds with exactly the address `a`.
pub open spec fn is_ok_with(r: Result<Address, X402Error>, a: Seq<u8>) -> bool {
    r matches Ok(out) && out@ == a
}

/// The validator's decision for a signed payment against requirements at
/// time `now`: which check fails first, or the recovered payer on success.
pub open spec fn spec_verify_at(
    s: SignedView,
    q: ReqView,
    now: u64,
    r: Result<Address, X402Error>,
) -> bool {
    &&& spec_expired(s, now) ==> (r matches Err(X402Error::PaymentExpired))
    &&& !spec_expired(s, now) && !spec_amount_ok(s, q) ==> is_insufficient(r, s, q)
    &&& !spec_expired(s, now) && spec_amount_ok(s, q) && !spec_recipient_ok(s, q) ==> (r matches
        Err(X402Error::InvalidSignature(_)))
    &&& !spec_expired(s, now) && spec_amount_ok(s, q) && spec_recipient_ok(s, q) && !spec_chain_ok(
        s,
        q,
    ) ==> (r matches Err(X402Error::UnsupportedNetwork(_)))
    &&& spec_checks_ok(s, q, now) ==> match spec_recovered_address(s) {
        Some(a) => if a == s.payment.payer {
            is_ok_with(r, a)
        } else {
            r matches Err(X402Error::InvalidSignature(_))
        },
        None => r matches Err(X402Error::InvalidSignature(_)),
    }
}

/// Verifies a signed payment against requirements at the given time.
/// Checks run in order: expiry, amount, recipient, chain id, and finally
/// signature recovery against the claimed payer; the first failure decides
/// the error, and success returns the now-trusted payer address.
pub fn verify_payment_at(
    payment: &SignedPayment,
    requirements: &PaymentRequirements,
    now: u64,
) -> (r: Result<Address, X402Error>)
    ensures
        spec_verify_at(payment@, requirements@, now, r),
{
    if payment.payment.expires_at < now {
        return Err(X402Error::PaymentExpired);
    }
    if !payment.payment.amount.ge(&requirements.amount) {
        return Err(X402Error::InsufficientAmount {
            required: requirements.amount,
            provided: payment.payment.amount,
        });
    }
    if !payment.payment.recipient.eq_addr(&requirements.recipient) {
        return Err(X402Error::InvalidSignature(String::from_str("recipient mismatch")));
    }
    if payment.payment.chain_id != requirements.network.chain_id() {
        return Err(X402Error::UnsupportedNetwork(String::from_str(
            "chain id does not match the required network",
        )));
    }
    let recovered = match recover_signer(payment) {
        Ok(a) => a,
        Err(e) => {
            return Err(e);
        },
    };
    if !recovered.eq_addr(&payment.payment.payer) {
        return Err(X402Error::InvalidSignature(String::from_str(
            "recovered address does not match payer",
        )));
    }
    Ok(recovered)
}

/// Verifies a signed payment against requirements, reading the current unix
/// time from the system clock: the decision is `verify_payment_at` for the
/// time that was read.
pub fn verify_payment(payment: &SignedPayment, requirements: &PaymentRequirements) -> (r: Result<
    Address,
    X402Error,
>)
    ensures
        exists|now: u64| spec_verify_at(payment@, requirements@, now, r),
{
    let now = now_secs();
    let r = verify_payment_at(payment, requirements, now);
    proof {
        assert(spec_verify_at(payment@, requirements@, now, r));
    }
    r
}

/// A legacy trailing byte is equivalent to its modern form: for the same
/// payload and the same `r‖s` bytes, a signature ending in 27 recovers the
/// same address as one ending in 0, and 28 the same as 1.
pub proof fn lemma_legacy_v_equivalent(a: SignedView, b: SignedView)
    requires
        a.payment == b.payment,
        a.signature.len() == 65,
        b.signature.len() == 65,
        a.signature.subrange(0, 64) == b.signature.subrange(0, 64),
        (a.signature[64] == 27 && b.signature[64] == 0) || (a.signature[64] == 28
            && b.signature[64] == 1),
    ensures
        spec_recovered_address(a) == spec_recovered_address(b),
{
    assert(spec_recovery_id(a.signature[64]) == spec_recovery_id(b.signature[64]));
}

} // verus!
