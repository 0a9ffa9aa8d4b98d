//! The payment records: requirements, payload, and signed payment, together
//! with the canonical signing preimage and its digest.

use vstd::prelude::*;

use crate::address::Address;
use crate::hashing::checksum_hex_of;
use crate::hashing::checksummed_hex;
use crate::hashing::keccak256;
use crate::hashing::keccak_of;
use crate::network::Network;
use crate::uint256::dec_of;
use crate::uint256::Uint256;
use vstd::string::StrSliceExecFns;
use vstd::utf8::encode_utf8;

verus! {

/// What a resource server demands before releasing a resource.
#[derive(Clone, Debug, PartialEq, Eq)]
pub struct PaymentRequirements {
    /// Amount owed, in the asset's smallest unit.
    pub amount: Uint256,
    /// Address that must be paid.
    pub recipient: Address,
    /// Network the payment must settle on.
    pub network: Network,
    /// Token address; `None` means the network's native asset.
    pub token: Option<Address>,
    /// Human-readable description.
    pub description: Option<String>,
    /// Expiry as unix seconds, if any.
    pub expires_at: Option<u64>,
    /// Opaque identifier of the resource being paid for.
    pub resource: String,
}

/// The record a payer signs.
#[derive(Clone, Debug, PartialEq, Eq)]
pub struct PaymentPayload {
    /// Amount offered, in the asset's smallest unit.
    pub amount: Uint256,
    /// Address being paid.
    pub recipient: Address,
    /// Address of the payer.
    pub payer: Address,
    /// Chain id of the network the payment settles on.
    pub chain_id: u64,
    /// Token address; `None` means the native asset.
    pub token: Option<Address>,
    /// Resource being paid for.
    pub resource: String,
    /// Replay-protection tag chosen by the payer.
    pub nonce: u64,
    /// Expiry as unix seconds.
    pub expires_at: u64,
}

/// A payload together with the 65-byte `r‖s‖v` signature claimed for it.
#[derive(Clone, Debug, PartialEq, Eq)]
pub struct SignedPayment {
    pub payment: PaymentPayload,
    pub signature: Vec<u8>,
}

/// The mathematical value of a `PaymentRequirements`.
pub ghost struct ReqView {
    pub amount: nat,
    pub recipient: Seq<u8>,
    pub network: Network,
    pub token: Option<Seq<u8>>,
    pub description: Option<Seq<char>>,
    pub expires_at: Option<u64>,
    pub resource: Seq<char>,
}

/// The mathematical value of a `PaymentPayload`.
pub ghost struct PayloadView {
    pub amount: nat,
    pub recipient: Seq<u8>,
    pub payer: Seq<u8>,
    pub chain_id: u64,
    pub token: Option<Seq<u8>>,
    pub resource: Seq<char>,
    pub nonce: u64,
    pub expires_at: u64,
}

/// The mathematical value of a `SignedPayment`.
pub ghost struct SignedView {
    pub payment: PayloadView,
    pub signature: Seq<u8>,
}

impl View for PaymentRequirements {
    type V = ReqView;

    open spec fn view(&self) -> ReqView {
        ReqView {
            amount: self.amount.val(),
            recipient: self.recipient@,
            network: self.network,
            token: match self.token {
                Some(a) => Some(a@),
                None => None,
            },
            description: match self.description {
                Some(ref s) => Some(s@),
                None => None,
            },
            expires_at: self.expires_at,
            resource: self.resource@,
        }
    }
}

impl View for PaymentPayload {
    type V = PayloadView;

    open spec fn view(&self) -> PayloadView {
        PayloadView {
            amount: self.amount.val(),
            recipient: self.recipient@,
            payer: self.payer@,
            chain_id: self.chain_id,
            token: match self.token {
                Some(a) => Some(a@),
                None => None,
            },
            resource: self.resource@,
            nonce: self.nonce,
            expires_at: self.expires_at,
        }
    }
}

impl View for SignedPayment {
    type V = SignedView;

    open spec fn view(&self) -> SignedView {
        SignedView { payment: self.payment@, signature: self.signature@ }
    }
}

/// The canonical signing preimage: labeled fields in a fixed order, each on
/// its own line. This text is a protocol constant; the digest signed by the
/// payer is its Keccak-256 hash.
pub open spec fn message_bytes(p: PayloadView) -> Seq<u8> {
    lit_msg_head() + dec_of(p.amount) + lit_msg_recipient() + checksum_hex_of(p.recipient)
        + lit_msg_payer() + checksum_hex_of(p.payer) + lit_msg_chain() + dec_of(
        p.chain_id as nat,
    ) + lit_msg_resource() + encode_utf8(p.resource) + lit_msg_nonce() + dec_of(p.nonce as nat)
        + lit_msg_expires() + dec_of(p.expires_at as nat)
}

impl PaymentPayload {
    /// The 32-byte digest a payer signs: the Keccak-256 hash of the canonical
    /// preimage text. Deterministic: it depends on the payload value alone.
    pub fn message_hash(&self) -> (r: Vec<u8>)
        ensures
            r@ == keccak_of(message_bytes(self@)),
            r@.len() == 32,
    {
        let mut m: Vec<u8> = Vec::new();
        push_msg_head(&mut m);
        let mut part = self.amount.to_dec_bytes();
        m.append(&mut part);
        push_msg_recipient(&mut m);
        let mut part = checksummed_hex(&self.recipient);
        m.append(&mut part);
        push_msg_payer(&mut m);
        let mut part = checksummed_hex(&self.payer);
        m.append(&mut part);
        push_msg_chain(&mut m);
        let mut part = Uint256::from_u64(self.chain_id).to_dec_bytes();
        m.append(&mut part);
        push_msg_resource(&mut m);
        let mut part = self.resource.as_str().as_bytes_vec();
        m.append(&mut part);
        push_msg_nonce(&mut m);
        let mut part = Uint256::from_u64(self.nonce).to_dec_bytes();
        m.append(&mut part);
        push_msg_expires(&mut m);
        let mut part = Uint256::from_u64(self.expires_at).to_dec_bytes();
        m.append(&mut part);
        proof {
            assert(m@ =~= message_bytes(self@));
        }
        keccak256(m.as_slice())
    }
}

/// The label bytes `"x402 Payment\nAmount: "`.
pub open spec fn lit_msg_head() -> Seq<u8> {
    seq![120u8, 52u8, 48u8, 50u8, 32u8, 80u8, 97u8, 121u8, 109u8, 101u8, 110u8, 116u8, 10u8, 65u8, 109u8, 111u8, 117u8, 110u8, 116u8, 58u8, 32u8]
}

/// Appends `lit_msg_head()` to `out`.
pub fn push_msg_head(out: &mut Vec<u8>)
    ensures
        final(out)@ == old(out)@ + lit_msg_head(),
{
    out.push(120u8);
    out.push(52u8);
    out.push(48u8);
    out.push(50u8);
    out.push(32u8);
    out.push(80u8);
    out.push(97u8);
    out.push(121u8);
    out.push(109u8);
    out.push(101u8);
    out.push(110u8);
    out.push(116u8);
    out.push(10u8);
    out.push(65u8);
    out.push(109u8);
    out.push(111u8);
    out.push(117u8);
    out.push(110u8);
    out.push(116u8);
    out.push(58u8);
    out.push(32u8);
    assert(final(out)@ =~= old(out)@ + lit_msg_head());
}

/// The label bytes `"\nRecipient: "`.
pub open spec fn lit_msg_recipient() -> Seq<u8> {
    seq![10u8, 82u8, 101u8, 99u8, 105u8, 112u8, 105u8, 101u8, 110u8, 116u8, 58u8, 32u8]
}

/// Appends `lit_msg_recipient()` to `out`.
pub fn push_msg_recipient(out: &mut Vec<u8>)
    ensures
        final(out)@ == old(out)@ + lit_msg_recipient(),
{
    out.push(10u8);
    out.push(82u8);
    out.push(101u8);
    out.push(99u8);
    out.push(105u8);
    out.push(112u8);
    out.push(105u8);
    out.push(101u8);
    out.push(110u8);
    out.push(116u8);
    out.push(58u8);
    out.push(32u8);
    assert(final(out)@ =~= old(out)@ + lit_msg_recipient());
}

/// The label bytes `"\nPayer: "`.
pub open spec fn lit_msg_payer() -> Seq<u8> {
    seq![10u8, 80u8, 97u8, 121u8, 101u8, 114u8, 58u8, 32u8]
}

/// Appends `lit_msg_payer()` to `out`.
pub fn push_msg_payer(out: &mut Vec<u8>)
    ensures
        final(out)@ == old(out)@ + lit_msg_payer(),
{
    out.push(10u8);
    out.push(80u8);
    out.push(97u8);
    out.push(121u8);
    out.push(101u8);
    out.push(114u8);
    out.push(58u8);
    out.push(32u8);
    assert(final(out)@ =~= old(out)@ + lit_msg_payer());
}

/// The label bytes `"\nChainId: "`.
pub open spec fn lit_msg_chain() -> Seq<u8> {
    seq![10u8, 67u8, 104u8, 97u8, 105u8, 110u8, 73u8, 100u8, 58u8, 32u8]
}

/// Appends `lit_msg_chain()` to `out`.
pub fn push_msg_chain(out: &mut Vec<u8>)
    ensures
        final(out)@ == old(out)@ + lit_msg_chain(),
{
    out.push(10u8);
    out.push(67u8);
    out.push(104u8);
    out.push(97u8);
    out.push(105u8);
    out.push(110u8);
    out.push(73u8);
    out.push(100u8);
    out.push(58u8);
    out.push(32u8);
    assert(final(out)@ =~= old(out)@ + lit_msg_chain());
}

/// The label bytes `"\nResource: "`.
pub open spec fn lit_msg_resource() -> Seq<u8> {
    seq![10u8, 82u8, 101u8, 115u8, 111u8, 117u8, 114u8, 99u8, 101u8, 58u8, 32u8]
}

/// Appends `lit_msg_resource()` to `out`.
pub fn push_msg_resource(out: &mut Vec<u8>)
    ensures
        final(out)@ == old(out)@ + lit_msg_resource(),
{
    out.push(10u8);
    out.push(82u8);
    out.push(101u8);
    out.push(115u8);
    out.push(111u8);
    out.push(117u8);
    out.push(114u8);
    out.push(99u8);
    out.push(101u8);
    out.push(58u8);
    out.push(32u8);
    assert(final(out)@ =~= old(out)@ + lit_msg_resource());
}

/// The label bytes `"\nNonce: "`.
pub open spec fn lit_msg_nonce() -> Seq<u8> {
    seq![10u8, 78u8, 111u8, 110u8, 99u8, 101u8, 58u8, 32u8]
}

/// Appends `lit_msg_nonce()` to `out`.
pub fn push_msg_nonce(out: &mut Vec<u8>)
    ensures
        final(out)@ == old(out)@ + lit_msg_nonce(),
{
    out.push(10u8);
    out.push(78u8);
    out.push(111u8);
    out.push(110u8);
    out.push(99u8);
    out.push(101u8);
    out.push(58u8);
    out.push(32u8);
    assert(final(out)@ =~= old(out)@ + lit_msg_nonce());
}

/// The label bytes `"\nExpires: "`.
pub open spec fn lit_msg_expires() -> Seq<u8> {
    seq![10u8, 69u8, 120u8, 112u8, 105u8, 114u8, 101u8, 115u8, 58u8, 32u8]
}

/// Appends `lit_msg_expires()` to `out`.
pub fn push_msg_expires(out: &mut Vec<u8>)
    ensures
        final(out)@ == old(out)@ + lit_msg_expires(),
{
    out.push(10u8);
    out.push(69u8);
    out.push(120u8);
    out.push(112u8);
    out.push(105u8);
    out.push(114u8);
    out.push(101u8);
    out.push(115u8);
    out.push(58u8);
    out.push(32u8);
    assert(final(out)@ =~= old(out)@ + lit_msg_expires());
}


} // verus!
