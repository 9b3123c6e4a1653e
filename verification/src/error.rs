use vstd::prelude::*;

verus! {

/// Why the contract refuses a message.
#[derive(Clone, Copy, Debug, PartialEq, Eq, Structural)]
pub enum ContractError {
    /// A deposit carried no funds.
    NoDepositFunds,
    /// A transfer or withdrawal named a zero amount.
    NoTransferFunds,
    /// A committed response is not the next one expected.
    ResponseOutOfOrder,
    /// A committed response names a request that was never submitted.
    ResponseBeyondRequests,
    /// A new checkpoint is older than the stored one.
    CheckpointTooOld,
    /// The MAC of the stored hash differs from the one passed in.
    MacMismatch,
    /// The new counter is not the stored counter plus one.
    CounterNotNext,
    /// The new hash is not the hash expected for the new counter.
    HashMismatch,
    /// The sender is not the administrator.
    Unauthorized,
    /// A bet or a fund uses a denomination the table does not take.
    DenomUnsupported,
    /// A bet or a fund is above the table maximum.
    BetAboveMaximum,
    /// A bet or a fund is below the table minimum.
    BetBelowMinimum,
    /// The funds sent do not match the sum of the bets.
    FundsMismatch,
    /// A bet cannot be placed on the table.
    InvalidBet,
    /// The block carries no randomness.
    RandomUnavailable,
    /// The payouts of a spin do not fit in 128 bits.
    PayoutOverflow,
}

/// The text the contract answers with for each error.
pub open spec fn error_text(e: ContractError) -> Seq<char> {
    match e {
        ContractError::NoDepositFunds => "No funds were sent to be deposited"@,
        ContractError::NoTransferFunds => "No funds were sent to be transfered"@,
        ContractError::ResponseOutOfOrder => "Response should processes strictly in order"@,
        ContractError::ResponseBeyondRequests => "Response seqno less than number of requests"@,
        ContractError::CheckpointTooOld => "New Checkpoint Seq no too low"@,
        ContractError::MacMismatch => "Passed in MAC, doesn't match the expected MAC."@,
        ContractError::CounterNotNext => "The new counter value must be one greater than the previous value."@,
        ContractError::HashMismatch => "The passed in new_hash is not equal to the expected future hash."@,
        ContractError::Unauthorized => "You no take candle"@,
        ContractError::DenomUnsupported => "Denom unsupported supported"@,
        ContractError::BetAboveMaximum => "Bet is higher than table maximum"@,
        ContractError::BetBelowMinimum => "Bet is lower than table minimum"@,
        ContractError::FundsMismatch => "Input funds don't match sum of bets"@,
        ContractError::InvalidBet => "Error, invalid bet"@,
        ContractError::RandomUnavailable => "Error, random not available"@,
        ContractError::PayoutOverflow => "Payout does not fit in 128 bits"@,
    }
}

impl ContractError {
    /// The text the contract answers with.
    pub fn message(&self) -> (s: String)
        ensures
            s@ == error_text(*self),
    {
        match self {
            ContractError::NoDepositFunds => String::from_str("No funds were sent to be deposited"),
            ContractError::NoTransferFunds => String::from_str("No funds were sent to be transfered"),
            ContractError::ResponseOutOfOrder => String::from_str("Response should processes strictly in order"),
            ContractError::ResponseBeyondRequests => String::from_str("Response seqno less than number of requests"),
            ContractError::CheckpointTooOld => String::from_str("New Checkpoint Seq no too low"),
            ContractError::MacMismatch => String::from_str("Passed in MAC, doesn't match the expected MAC."),
            ContractError::CounterNotNext => String::from_str("The new counter value must be one greater than the previous value."),
            ContractError::HashMismatch => String::from_str("The passed in new_hash is not equal to the expected future hash."),
            ContractError::Unauthorized => String::from_str("You no take candle"),
            ContractError::DenomUnsupported => String::from_str("Denom unsupported supported"),
            ContractError::BetAboveMaximum => String::from_str("Bet is higher than table maximum"),
            ContractError::BetBelowMinimum => String::from_str("Bet is lower than table minimum"),
            ContractError::FundsMismatch => String::from_str("Input funds don't match sum of bets"),
            ContractError::InvalidBet => String::from_str("Error, invalid bet"),
            ContractError::RandomUnavailable => String::from_str("Error, random not available"),
            ContractError::PayoutOverflow => String::from_str("Payout does not fit in 128 bits"),
        }
    }
}

} // verus!
