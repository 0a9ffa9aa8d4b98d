//! Header encoding and decoding: canonical JSON wrapped in standard base64.

use vstd::prelude::*;

use base64::Engine as _;

use crate::error::X402Error;
use crate::json::render_requirements;
use crate::json::render_signed;
use crate::json::parse_requirements;
use crate::json::parse_signed;
use crate::json::req_json;
use crate::json::signed_json;
use crate::json::sp_req;
use crate::json::sp_signed;
use crate::json::lemma_req_json_roundtrip;
use crate::json::lemma_signed_json_roundtrip;
use crate::json::lemma_req_view_wf;
use crate::json::lemma_payload_view_wf;
use crate::types::PaymentRequirements;
use crate::types::SignedPayment;
use vstd::string::StringExecFns;

verus! {

/// The base64 rendering (standard alphabet, with padding) of a byte string.
/// Only named: the result is a function of the input bytes alone.
pub uninterp spec fn b64_of(bytes: Seq<u8>) -> Seq<char>;

/// Relies on base64's `STANDARD` engine `encode`: the standard alphabet with
/// padding, a function of the input bytes alone.
#[verifier::external_body]
fn b64_encode(bytes: &[u8]) -> (r: String)
    ensures
        r@ == b64_of(bytes@),
{
    base64::engine::general_purpose::STANDARD.encode(bytes)
}

/// Relies on base64's `STANDARD` engine `decode`: it requires canonical
/// padding and rejects nonzero trailing bits, so it accepts exactly the
/// strings that `encode` produces and returns the bytes that were encoded.
#[verifier::external_body]
fn b64_decode(s: &str) -> (r: Result<Vec<u8>, String>)
    ensures
        r matches Ok(b) ==> s@ == b64_of(b@),
        forall|b: Seq<u8>| s@ == b64_of(b) ==> r is Ok && r->Ok_0@ == b,
{
    match base64::engine::general_purpose::STANDARD.decode(s) {
        Ok(b) => Ok(b),
        Err(e) => Err(e.to_string()),
    }
}

/// The name of the response header that carries encoded requirements.
pub fn requirements_header_name() -> (r: String)
    ensures
        r@ == "X-Payment-Requirements"@,
{
    String::from_str("X-Payment-Requirements")
}

/// The name of the request header that carries an encoded signed payment.
pub fn payment_header_name() -> (r: String)
    ensures
        r@ == "X-Payment"@,
{
    String::from_str("X-Payment")
}

/// Encodes payment requirements as a header value: the canonical JSON bytes
/// of the record, base64 encoded. Never fails; the `Result` is kept for
/// callers that treat encoding defensively.
pub fn encode_requirements_header(requirements: &PaymentRequirements) -> (r: Result<
    String,
    X402Error,
>)
    ensures
        r matches Ok(h) && h@ == b64_of(req_json(requirements@)),
{
    let json = render_requirements(requirements);
    Ok(b64_encode(json.as_slice()))
}

/// Decodes payment requirements from a header value. Succeeds exactly on the
/// base64 encoding of a parseable canonical JSON object; every failure is
/// `InvalidHeader`. Together with `lemma_req_json_roundtrip` this gives the
/// round trip: decoding an encoded record returns that record.
pub fn decode_requirements_header(header: &str) -> (r: Result<PaymentRequirements, X402Error>)
    ensures
        r matches Ok(req) ==> exists|b: Seq<u8>| header@ == b64_of(b) && sp_req(b) == Some(req@),
        forall|b: Seq<u8>|
            header@ == b64_of(b) && sp_req(b) is Some ==> (r matches Ok(req) && Some(req@)
                == sp_req(b)),
        r matches Err(e) ==> e matches X402Error::InvalidHeader(_),
{
    let bytes = match b64_decode(header) {
        Ok(b) => b,
        Err(cause) => {
            let mut msg = String::from_str("base64 decode failed: ");
            msg.append(cause.as_str());
            return Err(X402Error::InvalidHeader(msg));
        },
    };
    match parse_requirements(bytes.as_slice()) {
        Some(req) => Ok(req),
        None => Err(X402Error::InvalidHeader(String::from_str(
            "malformed or mismatched JSON",
        ))),
    }
}

/// Encodes a signed payment as a header value: the canonical JSON bytes of
/// the record, base64 encoded. Never fails.
pub fn encode_payment_header(payment: &SignedPayment) -> (r: Result<String, X402Error>)
    ensures
        r matches Ok(h) && h@ == b64_of(signed_json(payment@)),
{
    let json = render_signed(payment);
    Ok(b64_encode(json.as_slice()))
}

/// Decodes a signed payment from a header value. Succeeds exactly on the
/// base64 encoding of a parseable canonical JSON object; every failure is
/// `InvalidHeader`. Together with `lemma_signed_json_roundtrip` this gives
/// the round trip: decoding an encoded record returns that record.
pub fn decode_payment_header(header: &str) -> (r: Result<SignedPayment, X402Error>)
    ensures
        r matches Ok(sp) ==> exists|b: Seq<u8>| header@ == b64_of(b) && sp_signed(b) == Some(sp@),
        forall|b: Seq<u8>|
            header@ == b64_of(b) && sp_signed(b) is Some ==> (r matches Ok(sp) && Some(sp@)
                == sp_signed(b)),
        r matches Err(e) ==> e matches X402Error::InvalidHeader(_),
{
    let bytes = match b64_decode(header) {
        Ok(b) => b,
        Err(cause) => {
            let mut msg = String::from_str("base64 decode failed: ");
            msg.append(cause.as_str());
            return Err(X402Error::InvalidHeader(msg));
        },
    };
    match parse_signed(bytes.as_slice()) {
        Some(sp) => Ok(sp),
        None => Err(X402Error::InvalidHeader(String::from_str(
            "malformed or mismatched JSON",
        ))),
    }
}

/// Round trip for requirements, end to end: whatever
/// `encode_requirements_header` returns for a record, feeding it to
/// `decode_requirements_header` yields a record with the same value.
pub proof fn lemma_requirements_header_roundtrip(requirements: &PaymentRequirements)
    ensures
        sp_req(req_json(requirements@)) == Some(requirements@),
{
    lemma_req_view_wf(requirements);
    lemma_req_json_roundtrip(requirements@);
}

/// Round trip for signed payments, end to end: whatever
/// `encode_payment_header` returns for a record, feeding it to
/// `decode_payment_header` yields a record with the same value.
pub proof fn lemma_payment_header_roundtrip(payment: &SignedPayment)
    ensures
        sp_signed(signed_json(payment@)) == Some(payment@),
{
    lemma_payload_view_wf(&payment.payment);
    lemma_signed_json_roundtrip(payment@);
}

} // verus!

