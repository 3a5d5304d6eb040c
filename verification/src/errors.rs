//! Error codes of the pool and of the proof verifier.
use vstd::prelude::*;

verus! {

/// First number of the pool's error codes on the wire.
pub const ERROR_CODE_OFFSET: u32 = 6000;

/// Why the pool rejected an operation. Each variant has a fixed number on the
/// wire: `ERROR_CODE_OFFSET` plus its position in this list.
#[derive(Clone, Copy, Debug, PartialEq, Eq, Structural)]
pub enum ErrorCode {
    Unauthorized,
    ExtDataHashMismatch,
    UnknownRoot,
    InvalidPublicAmountData,
    InsufficientFundsForWithdrawal,
    InsufficientFundsForFee,
    InvalidProof,
    InvalidFee,
    InvalidExtAmount,
    PublicAmountCalculationError,
    ArithmeticOverflow,
    DepositLimitExceeded,
    InvalidFeeRate,
    InvalidFeeRecipient,
    InvalidFeeAmount,
    RecipientMismatch,
    MerkleTreeFull,
}

impl ErrorCode {
    /// Position of the variant in the declaration order, starting at zero.
    pub open spec fn position(self) -> nat {
        match self {
            ErrorCode::Unauthorized => 0,
            ErrorCode::ExtDataHashMismatch => 1,
            ErrorCode::UnknownRoot => 2,
            ErrorCode::InvalidPublicAmountData => 3,
            ErrorCode::InsufficientFundsForWithdrawal => 4,
            ErrorCode::InsufficientFundsForFee => 5,
            ErrorCode::InvalidProof => 6,
            ErrorCode::InvalidFee => 7,
            ErrorCode::InvalidExtAmount => 8,
            ErrorCode::PublicAmountCalculationError => 9,
            ErrorCode::ArithmeticOverflow => 10,
            ErrorCode::DepositLimitExceeded => 11,
            ErrorCode::InvalidFeeRate => 12,
            ErrorCode::InvalidFeeRecipient => 13,
            ErrorCode::InvalidFeeAmount => 14,
            ErrorCode::RecipientMismatch => 15,
            ErrorCode::MerkleTreeFull => 16,
        }
    }

    /// The number under which the error travels on the wire.
    pub fn code(&self) -> (number: u32)
        ensures
            number == ERROR_CODE_OFFSET + self.position(),
    {
        let position: u32 = match self {
            ErrorCode::Unauthorized => 0,
            ErrorCode::ExtDataHashMismatch => 1,
            ErrorCode::UnknownRoot => 2,
            ErrorCode::InvalidPublicAmountData => 3,
            ErrorCode::InsufficientFundsForWithdrawal => 4,
            ErrorCode::InsufficientFundsForFee => 5,
            ErrorCode::InvalidProof => 6,
            ErrorCode::InvalidFee => 7,
            ErrorCode::InvalidExtAmount => 8,
            ErrorCode::PublicAmountCalculationError => 9,
            ErrorCode::ArithmeticOverflow => 10,
            ErrorCode::DepositLimitExceeded => 11,
            ErrorCode::InvalidFeeRate => 12,
            ErrorCode::InvalidFeeRecipient => 13,
            ErrorCode::InvalidFeeAmount => 14,
            ErrorCode::RecipientMismatch => 15,
            ErrorCode::MerkleTreeFull => 16,
        };
        ERROR_CODE_OFFSET + position
    }
}

/// Why the Groth16 verifier rejected a proof.
#[derive(Clone, Copy, Debug, PartialEq, Eq, Structural)]
pub enum Groth16Error {
    /// A public input, read as a big-endian integer, is not below the order of
    /// the scalar field.
    PublicInputGreaterThanFieldSize,
    /// A point could not be read, the verifying key does not fit the number of
    /// public inputs, or the pairing equation does not hold.
    ProofVerificationFailed,
}

/// Why the external data of a transaction could not be encoded.
#[derive(Clone, Copy, Debug, PartialEq, Eq, Structural)]
pub enum EncodingError {
    /// An encrypted output is longer than a 32-bit length prefix can say.
    OutputTooLong,
}

} // verus!
