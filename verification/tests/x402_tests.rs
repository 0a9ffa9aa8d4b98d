use base64::Engine as _;
use x402_core::Address;
use x402_core::Network;
use x402_core::PaymentPayload;
use x402_core::PaymentRequirements;
use x402_core::SignedPayment;
use x402_core::Uint256;
use x402_core::X402Error;
use x402_core::decode_payment_header;
use x402_core::decode_requirements_header;
use x402_core::encode_payment_header;
use x402_core::encode_requirements_header;
use x402_core::recover_signer;
use x402_core::verify_payment;
use x402_core::verify_payment_at;

fn zero_addr() -> Address {
    Address { bytes: [0u8; 20] }
}

fn some_addr(last: u8) -> Address {
    let mut bytes = [0u8; 20];
    bytes[19] = last;
    Address { bytes }
}

fn sample_requirements() -> PaymentRequirements {
    PaymentRequirements {
        amount: Uint256::from_u64(1000000),
        recipient: zero_addr(),
        network: Network::Base,
        token: None,
        description: Some("Test payment".to_string()),
        expires_at: Some(1700000000),
        resource: "/api/test".to_string(),
    }
}

fn sample_payload() -> PaymentPayload {
    PaymentPayload {
        amount: Uint256::from_u64(1000000),
        recipient: zero_addr(),
        payer: zero_addr(),
        chain_id: 8453,
        token: None,
        resource: "https://api.example.com/data".to_string(),
        nonce: 1,
        expires_at: 1700000000,
    }
}

#[test]
fn test_network_chain_id() {
    assert_eq!(Network::Base.chain_id(), 8453);
    assert_eq!(Network::from_chain_id(8453), Some(Network::Base));
}

#[test]
fn test_requirements_roundtrip() {
    let requirements = sample_requirements();
    let encoded = encode_requirements_header(&requirements).unwrap();
    let decoded = decode_requirements_header(&encoded).unwrap();
    assert_eq!(decoded.amount, requirements.amount);
    assert_eq!(decoded.recipient, requirements.recipient);
    assert_eq!(decoded.resource, requirements.resource);
}

#[test]
fn test_payment_message_hash() {
    let payload = sample_payload();
    let hash = payload.message_hash();
    assert_eq!(hash.len(), 32);
}

#[test]
fn test_invalid_signature_length() {
    let payment = SignedPayment {
        payment: PaymentPayload {
            amount: Uint256::from_u64(1000),
            recipient: zero_addr(),
            payer: zero_addr(),
            chain_id: 8453,
            token: None,
            resource: "/test".to_string(),
            nonce: 1,
            expires_at: u64::MAX,
        },
        signature: vec![0u8; 64],
    };
    let result = recover_signer(&payment);
    assert!(result.is_err());
}

#[test]
fn requirements_roundtrip_all_fields() {
    let requirements = PaymentRequirements {
        amount: Uint256 {
            w0: 0x1234_5678_9abc_def0,
            w1: u64::MAX,
            w2: 7,
            w3: 0xdead_beef,
        },
        recipient: some_addr(0xab),
        network: Network::BaseSepolia,
        token: Some(some_addr(0xcd)),
        description: Some("He said \"hi\" \\ two\nlines, plus unicode: caf\u{e9} \u{1f600}".to_string()),
        expires_at: Some(u64::MAX),
        resource: "/api/\u{00e9}l\u{00e9}ment".to_string(),
    };
    let encoded = encode_requirements_header(&requirements).unwrap();
    let decoded = decode_requirements_header(&encoded).unwrap();
    assert_eq!(decoded, requirements);
}

#[test]
fn payment_roundtrip_all_fields() {
    let signed = SignedPayment {
        payment: PaymentPayload {
            amount: Uint256 { w0: 1, w1: 2, w2: 3, w3: 4 },
            recipient: some_addr(1),
            payer: some_addr(2),
            chain_id: 42161,
            token: Some(some_addr(3)),
            resource: "/paid/\"thing\"".to_string(),
            nonce: u64::MAX,
            expires_at: 1700000001,
        },
        signature: (0..65u16).map(|b| b as u8).collect(),
    };
    let encoded = encode_payment_header(&signed).unwrap();
    let decoded = decode_payment_header(&encoded).unwrap();
    assert_eq!(decoded, signed);
}

#[test]
fn payment_roundtrip_empty_signature() {
    let signed = SignedPayment {
        payment: sample_payload(),
        signature: Vec::new(),
    };
    let encoded = encode_payment_header(&signed).unwrap();
    let decoded = decode_payment_header(&encoded).unwrap();
    assert_eq!(decoded, signed);
}

#[test]
fn decode_rejects_non_base64() {
    let result = decode_requirements_header("!!!not base64!!!");
    assert!(matches!(result, Err(X402Error::InvalidHeader(_))));
    let result = decode_payment_header("@@@");
    assert!(matches!(result, Err(X402Error::InvalidHeader(_))));
}

#[test]
fn decode_rejects_invalid_utf8_bytes() {
    let header = base64::engine::general_purpose::STANDARD.encode([0xffu8, 0xfe, 0x22, 0xff]);
    let result = decode_requirements_header(&header);
    assert!(matches!(result, Err(X402Error::InvalidHeader(_))));
}

#[test]
fn decode_rejects_wrong_json() {
    let header = base64::engine::general_purpose::STANDARD.encode("hello world");
    let result = decode_requirements_header(&header);
    assert!(matches!(result, Err(X402Error::InvalidHeader(_))));
    let header = base64::engine::general_purpose::STANDARD.encode("{\"amount\":true}");
    let result = decode_payment_header(&header);
    assert!(matches!(result, Err(X402Error::InvalidHeader(_))));
}

#[test]
fn encoding_is_standard_base64_of_canonical_json() {
    let requirements = PaymentRequirements {
        amount: Uint256::from_u64(1000000),
        recipient: zero_addr(),
        network: Network::Base,
        token: None,
        description: None,
        expires_at: None,
        resource: "/api/test".to_string(),
    };
    let json = "{\"amount\":\"1000000\",\"recipient\":\"0x0000000000000000000000000000000000000000\",\"network\":\"base\",\"resource\":\"/api/test\"}";
    let expected = base64::engine::general_purpose::STANDARD.encode(json);
    let encoded = encode_requirements_header(&requirements).unwrap();
    assert_eq!(encoded, expected);
}

#[test]
fn decode_accepts_legacy_base_sepolia_spelling() {
    let json = "{\"amount\":\"1\",\"recipient\":\"0x0000000000000000000000000000000000000000\",\"network\":\"basesepolia\",\"resource\":\"/r\"}";
    let header = base64::engine::general_purpose::STANDARD.encode(json);
    let decoded = decode_requirements_header(&header).unwrap();
    assert_eq!(decoded.network, Network::BaseSepolia);
}

#[test]
fn chain_id_roundtrip_for_known_ids() {
    for id in [1u64, 8453, 84532, 42161, 10, 137] {
        let network = Network::from_chain_id(id).unwrap();
        assert_eq!(network.chain_id(), id);
    }
    assert_eq!(Network::from_chain_id(999999), None);
}

#[test]
fn message_hash_deterministic_and_nonce_sensitive() {
    let a = sample_payload();
    let b = sample_payload();
    assert_eq!(a.message_hash(), b.message_hash());
    let mut c = sample_payload();
    c.nonce = 2;
    assert_ne!(a.message_hash(), c.message_hash());
}

#[test]
fn recovery_rejects_wrong_lengths() {
    for len in [0usize, 1, 64, 66, 130] {
        let payment = SignedPayment {
            payment: sample_payload(),
            signature: vec![7u8; len],
        };
        assert!(matches!(
            recover_signer(&payment),
            Err(X402Error::InvalidSignature(_))
        ));
    }
}

#[test]
fn recovery_rejects_bad_recovery_byte() {
    let mut signature = vec![1u8; 65];
    signature[64] = 5;
    let payment = SignedPayment {
        payment: sample_payload(),
        signature,
    };
    assert!(matches!(
        recover_signer(&payment),
        Err(X402Error::InvalidSignature(_))
    ));
}

fn signing_key() -> k256::ecdsa::SigningKey {
    k256::ecdsa::SigningKey::from_slice(&[0x42u8; 32]).unwrap()
}

fn key_address(key: &k256::ecdsa::SigningKey) -> Address {
    let point = key.verifying_key().to_encoded_point(false);
    let digest = alloy_primitives::keccak256(&point.as_bytes()[1..]);
    let mut bytes = [0u8; 20];
    bytes.copy_from_slice(&digest.0[12..]);
    Address { bytes }
}

fn sign_payload(payload: &PaymentPayload, legacy_v: bool) -> SignedPayment {
    let key = signing_key();
    let digest = payload.message_hash();
    let (sig, recid) = key.sign_prehash_recoverable(&digest).unwrap();
    let mut signature = sig.to_bytes().to_vec();
    let v = if legacy_v {
        recid.to_byte() + 27
    } else {
        recid.to_byte()
    };
    signature.push(v);
    SignedPayment {
        payment: payload.clone(),
        signature,
    }
}

#[test]
fn legacy_v_byte_recovers_same_address() {
    let payload = sample_payload();
    let modern = sign_payload(&payload, false);
    let legacy = sign_payload(&payload, true);
    let a = recover_signer(&modern).unwrap();
    let b = recover_signer(&legacy).unwrap();
    assert_eq!(a, b);
    assert_eq!(a, key_address(&signing_key()));
}

fn now_secs() -> u64 {
    std::time::SystemTime::now()
        .duration_since(std::time::UNIX_EPOCH)
        .unwrap()
        .as_secs()
}

#[test]
fn verify_rejects_expired_payload() {
    let key = signing_key();
    let mut payload = sample_payload();
    payload.payer = key_address(&key);
    payload.expires_at = now_secs() - 1;
    let signed = sign_payload(&payload, false);
    let requirements = PaymentRequirements {
        amount: Uint256::from_u64(1000000),
        recipient: zero_addr(),
        network: Network::Base,
        token: None,
        description: None,
        expires_at: None,
        resource: payload.resource.clone(),
    };
    let result = verify_payment(&signed, &requirements);
    assert!(matches!(result, Err(X402Error::PaymentExpired)));
}

#[test]
fn verify_rejects_insufficient_amount() {
    let mut payload = sample_payload();
    payload.amount = Uint256::from_u64(500000);
    payload.expires_at = u64::MAX;
    let signed = sign_payload(&payload, false);
    let requirements = PaymentRequirements {
        amount: Uint256::from_u64(1000000),
        recipient: zero_addr(),
        network: Network::Base,
        token: None,
        description: None,
        expires_at: None,
        resource: payload.resource.clone(),
    };
    let result = verify_payment(&signed, &requirements);
    assert_eq!(
        result,
        Err(X402Error::InsufficientAmount {
            required: Uint256::from_u64(1000000),
            provided: Uint256::from_u64(500000),
        })
    );
}

#[test]
fn amount_comparison_is_full_width() {
    // A 2^64 amount offered against a 2^64 requirement: a comparison that
    // truncated to 64 bits would see 0 >= 0 and pass or fail wrongly.
    let big = Uint256 { w0: 0, w1: 1, w2: 0, w3: 0 };
    let small = Uint256 { w0: u64::MAX, w1: 0, w2: 0, w3: 0 };
    let mut payload = sample_payload();
    payload.amount = small;
    payload.expires_at = u64::MAX;
    let signed = sign_payload(&payload, false);
    let requirements = PaymentRequirements {
        amount: big,
        recipient: zero_addr(),
        network: Network::Base,
        token: None,
        description: None,
        expires_at: None,
        resource: payload.resource.clone(),
    };
    assert!(matches!(
        verify_payment(&signed, &requirements),
        Err(X402Error::InsufficientAmount { .. })
    ));
}

#[test]
fn verify_rejects_recipient_mismatch() {
    let mut payload = sample_payload();
    payload.expires_at = u64::MAX;
    let signed = sign_payload(&payload, false);
    let requirements = PaymentRequirements {
        amount: Uint256::from_u64(1000000),
        recipient: some_addr(9),
        network: Network::Base,
        token: None,
        description: None,
        expires_at: None,
        resource: payload.resource.clone(),
    };
    let result = verify_payment(&signed, &requirements);
    assert!(matches!(result, Err(X402Error::InvalidSignature(_))));
}

#[test]
fn verify_rejects_chain_mismatch() {
    let mut payload = sample_payload();
    payload.chain_id = 1;
    payload.expires_at = u64::MAX;
    let signed = sign_payload(&payload, false);
    let requirements = PaymentRequirements {
        amount: Uint256::from_u64(1000000),
        recipient: zero_addr(),
        network: Network::Base,
        token: None,
        description: None,
        expires_at: None,
        resource: payload.resource.clone(),
    };
    let result = verify_payment(&signed, &requirements);
    assert!(matches!(result, Err(X402Error::UnsupportedNetwork(_))));
}

#[test]
fn verify_rejects_wrong_payer_claim() {
    let mut payload = sample_payload();
    payload.expires_at = u64::MAX;
    payload.payer = some_addr(77);
    let signed = sign_payload(&payload, false);
    let requirements = PaymentRequirements {
        amount: Uint256::from_u64(1000000),
        recipient: zero_addr(),
        network: Network::Base,
        token: None,
        description: None,
        expires_at: None,
        resource: payload.resource.clone(),
    };
    let result = verify_payment(&signed, &requirements);
    assert!(matches!(result, Err(X402Error::InvalidSignature(_))));
}

#[test]
fn end_to_end_requirements_fields_survive() {
    let requirements = PaymentRequirements {
        amount: Uint256::from_u64(1000000),
        recipient: zero_addr(),
        network: Network::Base,
        token: None,
        description: None,
        expires_at: None,
        resource: "/api/test".to_string(),
    };
    let encoded = encode_requirements_header(&requirements).unwrap();
    let decoded = decode_requirements_header(&encoded).unwrap();
    assert_eq!(decoded.amount, requirements.amount);
    assert_eq!(decoded.recipient, requirements.recipient);
    assert_eq!(decoded.network, requirements.network);
    assert_eq!(decoded.token, requirements.token);
    assert_eq!(decoded.description, requirements.description);
    assert_eq!(decoded.expires_at, requirements.expires_at);
    assert_eq!(decoded.resource, requirements.resource);
}

#[test]
fn end_to_end_signed_payment_verifies() {
    let key = signing_key();
    let mut payload = sample_payload();
    payload.payer = key_address(&key);
    payload.expires_at = u64::MAX;
    let signed = sign_payload(&payload, false);
    let header = encode_payment_header(&signed).unwrap();
    let decoded = decode_payment_header(&header).unwrap();
    let requirements = PaymentRequirements {
        amount: Uint256::from_u64(1000000),
        recipient: zero_addr(),
        network: Network::Base,
        token: None,
        description: None,
        expires_at: None,
        resource: payload.resource.clone(),
    };
    let payer = verify_payment(&decoded, &requirements).unwrap();
    assert_eq!(payer, key_address(&key));
    let payer_at = verify_payment_at(&decoded, &requirements, 1700000000).unwrap();
    assert_eq!(payer_at, key_address(&key));
}

#[test]
fn address_parse_accepts_hex_forms() {
    let a = Address::parse("0x00000000000000000000000000000000000000aB").unwrap();
    assert_eq!(a, some_addr(0xab));
    let b = Address::parse("00000000000000000000000000000000000000ab").unwrap();
    assert_eq!(b, some_addr(0xab));
}

#[test]
fn address_parse_rejects_malformed() {
    for bad in ["0x1234", "", "0x", "zz", "0xgg00000000000000000000000000000000000000"] {
        assert!(matches!(
            Address::parse(bad),
            Err(X402Error::InvalidAddress(_))
        ));
    }
}

#[test]
fn uint256_decimal_comparison() {
    let a = Uint256::from_u64(5);
    let b = Uint256::from_u64(6);
    assert!(a.lt(&b));
    assert!(!b.lt(&a));
    assert!(b.ge(&a));
    assert!(a.ge(&a));
    let high = Uint256 { w0: 0, w1: 0, w2: 0, w3: 1 };
    assert!(b.lt(&high));
}

#[test]
fn network_names_roundtrip() {
    for n in [
        Network::Ethereum,
        Network::Base,
        Network::BaseSepolia,
        Network::Arbitrum,
        Network::Optimism,
        Network::Polygon,
    ] {
        let name = n.name_bytes();
        assert_eq!(Network::from_name(&name), Some(n));
    }
    assert_eq!(
        Network::from_name("BASE_SEPOLIA".as_bytes()),
        Some(Network::BaseSepolia)
    );
    assert_eq!(Network::from_name("garbage".as_bytes()), None);
}

#[test]
fn address_hex_rendering() {
    let z = Address::zero();
    assert_eq!(
        String::from_utf8(z.to_hex_bytes()).unwrap(),
        "0x0000000000000000000000000000000000000000"
    );
    let a = Address::parse("0x00000000000000000000000000000000000000AB").unwrap();
    assert_eq!(
        String::from_utf8(a.to_hex_bytes()).unwrap(),
        "0x00000000000000000000000000000000000000ab"
    );
}

#[test]
fn checksummed_rendering_matches_published_vector() {
    let a = Address::parse("0x5aaeb6053f3e94c9b9a09f33669435e7ef1beaed").unwrap();
    let rendered = String::from_utf8(x402_core::hashing::checksummed_hex(&a)).unwrap();
    assert_eq!(rendered, "0x5aAeb6053F3E94C9b9A09f33669435E7Ef1BeAed");
}
