use vstd::prelude::*;

verus! {

/// Errors reported by the treasury ledger and the stream engine.
#[derive(Clone, Copy, Debug, PartialEq, Eq, Structural)]
pub enum QuipayError {
    AlreadyInitialized,
    NotInitialized,
    Unauthorized,
    InsufficientPermissions,
    InvalidAmount,
    InsufficientBalance,
    ProtocolPaused,
    VersionNotSet,
    StorageError,
    InvalidAddress,
    StreamNotFound,
    StreamExpired,
    AgentNotFound,
    InvalidToken,
    TransferFailed,
    UpgradeFailed,
    StreamClosed,
    StreamNotClosed,
    RetentionNotElapsed,
    ArithmeticOverflow,
    WorkerAlreadyRegistered,
    WorkerNotRegistered,
    Custom,
}

/// Result type shared by the ledger and the stream engine.
pub type QuipayResult<T> = Result<T, QuipayError>;

/// The numeric code under which each error is reported to callers.
pub open spec fn error_code(e: QuipayError) -> u32 {
    match e {
        QuipayError::AlreadyInitialized => 1001,
        QuipayError::NotInitialized => 1002,
        QuipayError::Unauthorized => 1003,
        QuipayError::InsufficientPermissions => 1004,
        QuipayError::InvalidAmount => 1005,
        QuipayError::InsufficientBalance => 1006,
        QuipayError::ProtocolPaused => 1007,
        QuipayError::VersionNotSet => 1008,
        QuipayError::StorageError => 1009,
        QuipayError::InvalidAddress => 1010,
        QuipayError::StreamNotFound => 1011,
        QuipayError::StreamExpired => 1012,
        QuipayError::AgentNotFound => 1013,
        QuipayError::InvalidToken => 1014,
        QuipayError::TransferFailed => 1015,
        QuipayError::UpgradeFailed => 1016,
        QuipayError::StreamClosed => 1017,
        QuipayError::StreamNotClosed => 1018,
        QuipayError::RetentionNotElapsed => 1019,
        QuipayError::ArithmeticOverflow => 1020,
        QuipayError::WorkerAlreadyRegistered => 1021,
        QuipayError::WorkerNotRegistered => 1022,
        QuipayError::Custom => 1999,
    }
}

impl QuipayError {
    /// The numeric code of this error.
    pub fn code(&self) -> (r: u32)
        ensures
            r == error_code(*self),
    {
        match self {
            QuipayError::AlreadyInitialized => 1001,
            QuipayError::NotInitialized => 1002,
            QuipayError::Unauthorized => 1003,
            QuipayError::InsufficientPermissions => 1004,
            QuipayError::InvalidAmount => 1005,
            QuipayError::InsufficientBalance => 1006,
            QuipayError::ProtocolPaused => 1007,
            QuipayError::VersionNotSet => 1008,
            QuipayError::StorageError => 1009,
            QuipayError::InvalidAddress => 1010,
            QuipayError::StreamNotFound => 1011,
            QuipayError::StreamExpired => 1012,
            QuipayError::AgentNotFound => 1013,
            QuipayError::InvalidToken => 1014,
            QuipayError::TransferFailed => 1015,
            QuipayError::UpgradeFailed => 1016,
            QuipayError::StreamClosed => 1017,
            QuipayError::StreamNotClosed => 1018,
            QuipayError::RetentionNotElapsed => 1019,
            QuipayError::ArithmeticOverflow => 1020,
            QuipayError::WorkerAlreadyRegistered => 1021,
            QuipayError::WorkerNotRegistered => 1022,
            QuipayError::Custom => 1999,
        }
    }
}

/// Validation helpers shared by the contracts.
pub struct QuipayHelpers;

impl QuipayHelpers {
    /// Accepts strictly positive amounts only.
    pub fn validate_positive_amount(amount: i128) -> (r: QuipayResult<()>)
        ensures
            r is Ok <==> amount > 0,
            r is Err ==> r == Err::<(), QuipayError>(QuipayError::InvalidAmount),
    {
        if amount <= 0 {
            return Err(QuipayError::InvalidAmount);
        }
        Ok(())
    }

    /// Accepts when `current` covers `required`.
    pub fn check_sufficient_balance(current: i128, required: i128) -> (r: QuipayResult<()>)
        ensures
            r is Ok <==> required <= current,
            r is Err ==> r == Err::<(), QuipayError>(QuipayError::InsufficientBalance),
    {
        if required > current {
            return Err(QuipayError::InsufficientBalance);
        }
        Ok(())
    }
}

} // verus!
