use vstd::prelude::*;

pub mod bytes;
pub mod point;
pub mod scalar;
pub mod recover;
pub mod shamir;
pub mod verify;

pub use point::{AffinePoint, Secp256r1Operations};
pub use recover::{HintChannel, ecrecover, propose_recovery, recover_from_hints, unconstrained_ecrecover};
pub use shamir::double_and_add_base;
pub use verify::{Signature, decompress_pubkey, verify_signature};

verus! {

/// Error taxonomy for the secp256r1 verification and recovery routines.
///
/// `InvalidEncoding` flags malformed inputs (bad parity byte, non-canonical
/// scalar or coordinate bytes). `RecoveryVerificationFailed` means a recovery
/// hint decompressed fine but the resulting key did not verify the signature.
/// `RecoveryProtocolViolation` means the hint channel handed back missing or
/// mis-sized data. `ConsistencyViolation` means a supplied modular inverse
/// failed the multiplicative-identity check.
#[derive(Clone, Copy, Debug, PartialEq, Eq, Structural)]
pub enum Secp256r1Error {
    InvalidEncoding,
    RecoveryVerificationFailed,
    RecoveryProtocolViolation,
    ConsistencyViolation,
}

} // verus!
