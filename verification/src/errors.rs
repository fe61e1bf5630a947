//! Typed failures shared by the codec and the attack engines.

use vstd::prelude::*;

verus! {

/// Everything that can go wrong in the library.
///
/// The codec reports `InvalidLength`, `InvalidCharacter` and
/// `InvalidPadding`. The attack engines report `OracleInconsistent` when an
/// oracle does not behave as the attack's termination argument requires,
/// `OracleRejectedInput` when a decryption oracle refuses a resubmitted
/// ciphertext, and `VerificationMismatch` when a recovered value differs
/// from the oracle's known secret.
#[derive(Clone, Copy, Debug, PartialEq, Eq, Structural)]
pub enum Error {
    InvalidLength,
    InvalidCharacter,
    InvalidPadding,
    OracleInconsistent,
    OracleRejectedInput,
    VerificationMismatch,
}

} // verus!
