use vstd::prelude::*;

verus! {

/// Why an operation was refused. Every error is surfaced synchronously and
/// the refused operation mutates nothing.
#[derive(Clone, Copy, Debug, PartialEq, Eq, Structural)]
pub enum LotteryError {
    /// A play offered less than the configured minimum deposit.
    InvalidDeposit,
    /// A draw was attempted while no player is recorded.
    NoPlayers,
    /// A balance addition would exceed the representable range.
    ArithmeticOverflow,
}

} // verus!
