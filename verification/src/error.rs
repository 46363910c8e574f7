use vstd::prelude::*;

verus! {

/// Every way an operation of this crate can fail.
#[derive(Clone, Copy, Debug, PartialEq, Eq, Structural)]
pub enum Error {
    /// A derivation was given more seeds, or a longer seed, than the seed budget allows.
    SeedTooLong,
    /// No bump seed moves the derived address off the curve.
    NoViableBump,
    /// The leading tag of a record is not the tag of the requested type.
    UnknownDiscriminator,
    /// The record ends before the fixed layout of its type does.
    TruncatedData,
    /// Neither bitmap holds an initialized tick array in the trade direction.
    NoInitializedTickArray,
    /// A tick range whose lower tick is not below its upper tick, or a tick
    /// that is out of bounds or not aligned to the tick spacing.
    InvalidTickRange,
    /// A required account was absent from the ledger's answer.
    MissingAccount,
    /// The limit price lies on the wrong side of the current price, or outside the price range.
    SlippageExceeded,
    /// An amount that has to be positive was zero.
    ZeroAmount,
    /// An amount of tokens or of liquidity does not fit its integer type.
    AmountOverflow,
}

impl Error {
    /// The description of each failure.
    pub open spec fn description(self) -> Seq<char> {
        match self {
            Error::SeedTooLong => "seed too long"@,
            Error::NoViableBump => "no viable bump seed"@,
            Error::UnknownDiscriminator => "unknown discriminator"@,
            Error::TruncatedData => "truncated data"@,
            Error::NoInitializedTickArray => "no initialized tick array"@,
            Error::InvalidTickRange => "invalid tick range"@,
            Error::MissingAccount => "missing account"@,
            Error::SlippageExceeded => "slippage exceeded"@,
            Error::ZeroAmount => "zero amount"@,
            Error::AmountOverflow => "amount overflow"@,
        }
    }

    /// A short description for diagnostics.
    pub fn message(&self) -> (text: &'static str)
        ensures
            text@ == self.description(),
    {
        match self {
            Error::SeedTooLong => "seed too long",
            Error::NoViableBump => "no viable bump seed",
            Error::UnknownDiscriminator => "unknown discriminator",
            Error::TruncatedData => "truncated data",
            Error::NoInitializedTickArray => "no initialized tick array",
            Error::InvalidTickRange => "invalid tick range",
            Error::MissingAccount => "missing account",
            Error::SlippageExceeded => "slippage exceeded",
            Error::ZeroAmount => "zero amount",
            Error::AmountOverflow => "amount overflow",
        }
    }
}

} // verus!
