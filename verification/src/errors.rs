use vstd::prelude::*;

verus! {

/// Reason for which an operation aborts. Every state-mutating entry point
/// either commits all of its writes or returns one of these and leaves the
/// state untouched.
#[derive(Clone, Copy, Debug, PartialEq, Eq, Structural)]
pub enum Error {
    Unauthorized,
    NotWhitelisted,
    Paused,
    CapExceeded,
    InsufficientBalance,
    InsufficientCollateral,
    RiskyOrInsolvent,
    RepaymentTooLarge,
    StaleMarket,
    OracleUnavailable,
    TokenNotIssued,
    Reentrancy,
    InvalidConfiguration,
    InvalidPayment,
    Arithmetic,
    SwapSlippageExceeded,
    InvariantViolation,
}

} // verus!
