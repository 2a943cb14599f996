//! The error taxonomy of the wager engine.

use vstd::prelude::*;

verus! {

/// Everything a wager operation can fail with.
#[derive(Clone, Copy, Debug, PartialEq, Eq, Structural)]
pub enum ContractError {
    /// The caller lacks the required authority.
    Unauthorized,
    /// The offered token contract is not accepted.
    NotInWhitelist,
    /// The escrow has expired.
    Expired,
    /// No funds were attached where some were needed.
    EmptyBalance,
    /// The id is taken by a live wager, the wager is already matched, or
    /// the funder tried to join their own wager.
    AlreadyInUse,
    /// No live wager has the given id.
    WagerDoesNotExist,
    /// The declared winner is neither participant.
    UserDoesNotExist,
    /// The joined bundle does not set-equal the first funder's bundle.
    UnequalBalance,
    /// A token-mediated call carried no decodable payload.
    DataShouldBeGiven,
    /// Any other failure of the engine.
    UnknownError,
}

impl ContractError {
    /// A short description, in the words the engine's users see.
    pub fn message(&self) -> (r: &'static str) {
        match self {
            ContractError::Unauthorized => "Unauthorized",
            ContractError::NotInWhitelist => "Only accepts tokens in the cw20_whitelist",
            ContractError::Expired => "Escrow is expired",
            ContractError::EmptyBalance => "Send some coins to create an escrow",
            ContractError::AlreadyInUse => "Escrow id already in use",
            ContractError::WagerDoesNotExist => "Wager does not exist",
            ContractError::UserDoesNotExist => "User does not exist",
            ContractError::UnequalBalance => "Balance sent does not equal to User 1 balance",
            ContractError::DataShouldBeGiven => "Data should be given",
            ContractError::UnknownError => "Unknown contract error",
        }
    }
}

} // verus!
