//! The engine's laws, proved over the abstract transitions for every
//! state, caller and bundle.

use vstd::prelude::*;

use crate::balance::{bal_equiv, merge_bal, BalV};
use crate::contract::{
    add_funds_spec, cancel_spec, create_wager_spec, send_funds_spec, ContractV, ResponseV,
};
use crate::error::ContractError;

verus! {

/// Uniqueness of live ids: while a wager is live under an id, any
/// creation under that id fails with `AlreadyInUse` and changes
/// nothing — in particular right after a successful creation; after a
/// successful cancellation or resolution, the id is free and a
/// creation under it succeeds again.
pub proof fn law_id_uniqueness(
    c: ContractV,
    s1: Seq<char>,
    f1: BalV,
    s2: Seq<char>,
    f2: BalV,
    id: Seq<char>,
    winner: Seq<char>,
)
    ensures
        ({
            c.wagers.contains_key(id) ==> {
                let step = create_wager_spec(c, s2, f2, id);
                &&& step.result == Err::<ResponseV, ContractError>(ContractError::AlreadyInUse)
                &&& step.state == c
            }
        }),
        ({
            let first = create_wager_spec(c, s1, f1, id);
            first.result is Ok ==> {
                let second = create_wager_spec(first.state, s2, f2, id);
                &&& second.result == Err::<ResponseV, ContractError>(ContractError::AlreadyInUse)
                &&& second.state == first.state
            }
        }),
        ({
            let cancelled = cancel_spec(c, s1, id);
            cancelled.result is Ok ==> create_wager_spec(cancelled.state, s2, f2, id).result is Ok
        }),
        ({
            let resolved = send_funds_spec(c, s1, id, winner);
            resolved.result is Ok ==> create_wager_spec(resolved.state, s2, f2, id).result is Ok
        }),
{
}

/// Join exclusivity: once a wager is matched, every join attempt on
/// it fails with `AlreadyInUse`, whatever bundle it brings, and
/// changes nothing — in particular right after the one successful
/// join.
pub proof fn law_join_exclusivity(
    c: ContractV,
    s1: Seq<char>,
    f1: BalV,
    s2: Seq<char>,
    f2: BalV,
    id: Seq<char>,
)
    ensures
        ({
            (c.wagers.contains_key(id) && c.wagers[id].user2 is Some) ==> {
                let step = add_funds_spec(c, s2, f2, id);
                &&& step.result == Err::<ResponseV, ContractError>(ContractError::AlreadyInUse)
                &&& step.state == c
            }
        }),
        ({
            let joined = add_funds_spec(c, s1, f1, id);
            joined.result is Ok ==> {
                let second = add_funds_spec(joined.state, s2, f2, id);
                &&& second.result == Err::<ResponseV, ContractError>(ContractError::AlreadyInUse)
                &&& second.state == joined.state
            }
        }),
{
}

/// Balance matching: on a live, unmatched wager and a caller other
/// than the funder, a join succeeds exactly when the merged incoming
/// bundle set-equals the funder's bundle; on a mismatch the state is
/// unchanged, the second participant still unset.
pub proof fn law_balance_matching(c: ContractV, sender: Seq<char>, funds: BalV, id: Seq<char>)
    requires
        c.wagers.contains_key(id),
        c.wagers[id].user2 is None,
        c.wagers[id].user1 != sender,
    ensures
        ({
            let step = add_funds_spec(c, sender, funds, id);
            let w = c.wagers[id];
            let merged = merge_bal(w.user2_balance, funds);
            &&& (step.result is Ok <==> bal_equiv(merged, w.user1_balance))
            &&& (!bal_equiv(merged, w.user1_balance) ==> step.state == c && step.result
                == Err::<ResponseV, ContractError>(ContractError::UnequalBalance))
            &&& (step.result is Ok ==> step.state.wagers[id].user2 == Some(sender)
                && step.state.wagers[id].user2_balance == merged && step.state.wagers[id].user1
                == w.user1 && step.state.wagers[id].user1_balance == w.user1_balance)
        }),
{
}

/// Authorization: a cancellation succeeds only for the funder or the
/// wager's arbiter, and only while no second party has joined; a
/// resolution succeeds only for the current owner, and only toward one
/// of the two participants.
pub proof fn law_authorization(c: ContractV, sender: Seq<char>, id: Seq<char>, winner: Seq<char>)
    ensures
        cancel_spec(c, sender, id).result is Ok ==> {
            let w = c.wagers[id];
            &&& c.wagers.contains_key(id)
            &&& (sender == w.user1 || sender == w.arbiter)
            &&& w.user2 is None
        },
        send_funds_spec(c, sender, id, winner).result is Ok ==> {
            let w = c.wagers[id];
            &&& c.wagers.contains_key(id)
            &&& sender == c.config.owner
            &&& (winner == w.user1 || w.user2 == Some(winner))
        },
{
}

/// Terminal idempotence: after a successful cancellation or
/// resolution the id is no longer live — a lookup fails with
/// `WagerDoesNotExist` — and a repeat of either terminal call fails
/// with `WagerDoesNotExist` too.
pub proof fn law_terminal_idempotence(
    c: ContractV,
    s1: Seq<char>,
    s2: Seq<char>,
    id: Seq<char>,
    winner: Seq<char>,
)
    ensures
        ({
            let cancelled = cancel_spec(c, s1, id);
            cancelled.result is Ok ==> {
                &&& !cancelled.state.wagers.contains_key(id)
                &&& cancel_spec(cancelled.state, s2, id).result == Err::<ResponseV, ContractError>(
                    ContractError::WagerDoesNotExist,
                )
                &&& send_funds_spec(cancelled.state, s2, id, winner).result == Err::<ResponseV, ContractError>(ContractError::WagerDoesNotExist)
            }
        }),
        ({
            let resolved = send_funds_spec(c, s1, id, winner);
            resolved.result is Ok ==> {
                &&& !resolved.state.wagers.contains_key(id)
                &&& send_funds_spec(resolved.state, s2, id, winner).result == Err::<ResponseV, ContractError>(ContractError::WagerDoesNotExist)
                &&& cancel_spec(resolved.state, s2, id).result == Err::<ResponseV, ContractError>(
                    ContractError::WagerDoesNotExist,
                )
            }
        }),
{
}

} // verus!
