//! The command and query surface of the engine, as plain values. The
//! transport that decodes inbound commands and encodes outbound
//! responses is the host's concern.

use vstd::prelude::*;

use vstd::string::StringSliceAdditionalSpecFns;

use crate::balance::GenericBalance;

verus! {

/// The instantiation payload.
pub struct InstantiateMsg {
    pub sender: String,
}

/// The command surface: create a wager, join one, cancel one, or pay
/// the pot out to a winner.
pub enum ExecuteMsg {
    CreateWager { wager_id: String },
    AddFunds { wager_id: String },
    Cancel { wager_id: String },
    SendFunds { wager_id: String, winner_address: String },
}

/// The payload carried by a cw20 token transfer that targets the
/// engine: what the sent tokens are for.
pub enum Cw20HookMsg {
    CreateWager { wager_id: String },
    AddFunds { wager_id: String },
}

/// Whether a name is of acceptable length: at least 3 bytes and at
/// most 20.
pub fn is_valid_name(name: &str) -> (r: bool)
    ensures
        r == (3 <= name.spec_bytes().len() <= 20),
{
    let bytes = name.as_bytes();
    if bytes.len() < 3 || bytes.len() > 20 {
        return false;
    }
    true
}

/// The query surface: the configuration record, or one wager by id.
pub enum QueryMsg {
    Config {},
    Wager { id: String },
}

/// The list of all live wager ids.
pub struct ListResponse {
    pub wagers: Vec<String>,
}

/// A wager record together with its id.
pub struct DetailsResponse {
    pub id: String,
    pub arbiter: String,
    pub user1: String,
    pub user2: Option<String>,
    pub user1_balance: GenericBalance,
    pub user2_balance: GenericBalance,
}

} // verus!
