//! Core of the x402 payment protocol: typed payment records, a deterministic
//! header codec (JSON + base64), a keccak-based message digest, secp256k1
//! signature recovery, and the payment validator that ties them together.
//!
//! Signing itself is delegated to external signers; this crate only builds the
//! digest to sign and verifies submitted signatures.

pub mod address;
pub mod error;
pub mod hashing;
pub mod json;
pub mod network;
pub mod protocol;
pub mod types;
pub mod uint256;
pub mod verify;

pub use address::Address;
pub use error::X402Error;
pub use network::Network;
pub use protocol::decode_payment_header;
pub use protocol::decode_requirements_header;
pub use protocol::encode_payment_header;
pub use protocol::encode_requirements_header;
pub use types::PaymentPayload;
pub use types::PaymentRequirements;
pub use types::SignedPayment;
pub use uint256::Uint256;
pub use verify::recover_signer;
pub use verify::verify_payment;
pub use verify::verify_payment_at;
