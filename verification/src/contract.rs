//! The wager state machine: creation, joined-funds matching,
//! cancellation and resolution, together with the read-only queries.
//! Each operation is specified by an abstract transition function over
//! the state's view; the executable operations are proved to follow it.

use vstd::prelude::*;

use vstd::string::StringExecFns;

use crate::balance::{
    bal_equiv, bal_fits, bal_wf, coin_entries, empty_bal, find_key, merge_bal, merge_fits,
    merge_one, BalV, Balance, Coin, Cw20Coin, EntryV, GenericBalance,
};
use crate::error::ContractError;
use crate::msg::{Cw20HookMsg, ExecuteMsg, InstantiateMsg, QueryMsg};
use crate::state::{wager_wf, State, StateV, Wager, WagerStore, WagerV};

verus! {

/// One key/value pair of a response.
#[derive(Debug)]
pub struct Attribute {
    pub key: String,
    pub value: String,
}

impl View for Attribute {
    type V = (Seq<char>, Seq<char>);

    open spec fn view(&self) -> (Seq<char>, Seq<char>) {
        (self.key@, self.value@)
    }
}

/// A directive handed to the host to move custody of funds.
#[derive(Debug)]
pub enum TransferInstruction {
    /// Transfer a batch of native coins to `to_address`.
    Native { to_address: String, amount: Vec<Coin> },
    /// Have the token contract at `contract_addr` transfer `amount` of
    /// its token to `recipient`.
    Token { contract_addr: String, recipient: String, amount: u128 },
}

/// Abstract form of a transfer instruction.
pub ghost enum InstrV {
    Native { to_address: Seq<char>, amount: Seq<EntryV> },
    Token { contract_addr: Seq<char>, recipient: Seq<char>, amount: int },
}

impl View for TransferInstruction {
    type V = InstrV;

    open spec fn view(&self) -> InstrV {
        match self {
            TransferInstruction::Native { to_address, amount } => InstrV::Native {
                to_address: to_address@,
                amount: coin_entries(amount@),
            },
            TransferInstruction::Token { contract_addr, recipient, amount } => InstrV::Token {
                contract_addr: contract_addr@,
                recipient: recipient@,
                amount: *amount as int,
            },
        }
    }
}

/// The views of a sequence of attributes.
pub open spec fn attr_seq(s: Seq<Attribute>) -> Seq<(Seq<char>, Seq<char>)> {
    s.map_values(|a: Attribute| a@)
}

/// The views of a sequence of transfer instructions.
pub open spec fn instr_seq(s: Seq<TransferInstruction>) -> Seq<InstrV> {
    s.map_values(|t: TransferInstruction| t@)
}

/// What a successful operation answers: tagged attributes and the
/// transfer instructions the host is to carry out, in order.
#[derive(Debug)]
pub struct Response {
    pub attributes: Vec<Attribute>,
    pub messages: Vec<TransferInstruction>,
}

/// Abstract form of a response.
#[verifier::ext_equal]
pub ghost struct ResponseV {
    pub attributes: Seq<(Seq<char>, Seq<char>)>,
    pub messages: Seq<InstrV>,
}

impl View for Response {
    type V = ResponseV;

    open spec fn view(&self) -> ResponseV {
        ResponseV { attributes: attr_seq(self.attributes@), messages: instr_seq(self.messages@) }
    }
}

/// The whole persistent state of the engine: the configuration
/// singleton and the store of live wagers.
#[derive(Debug)]
pub struct ContractState {
    pub config: State,
    pub wagers: WagerStore,
}

/// Abstract form of the persistent state.
#[verifier::ext_equal]
pub ghost struct ContractV {
    pub config: StateV,
    pub wagers: Map<Seq<char>, WagerV>,
}

impl View for ContractState {
    type V = ContractV;

    open spec fn view(&self) -> ContractV {
        ContractV { config: self.config@, wagers: self.wagers@ }
    }
}

/// Every stored wager is valid.
pub open spec fn wagers_wf(m: Map<Seq<char>, WagerV>) -> bool {
    forall|k: Seq<char>| m.contains_key(k) ==> wager_wf(#[trigger] m[k])
}

impl ContractState {
    /// State validity: the store invariant holds and every stored
    /// wager is valid.
    pub open spec fn wf(&self) -> bool {
        &&& self.wagers.wf()
        &&& wagers_wf(self@.wagers)
    }
}

/// The outcome of a transition at the abstract level: the state after
/// the call, and the response or the error.
#[verifier::ext_equal]
pub ghost struct StepV {
    pub state: ContractV,
    pub result: Result<ResponseV, ContractError>,
}

/// Whether an executable result answers the abstract one.
pub open spec fn res_matches(
    r: Result<Response, ContractError>,
    v: Result<ResponseV, ContractError>,
) -> bool {
    match (r, v) {
        (Ok(resp), Ok(rv)) => resp@ == rv,
        (Err(e1), Err(e2)) => e1 == e2,
        _ => false,
    }
}

/// What `create_wager` does: fail with `AlreadyInUse` when the id is
/// live, otherwise store a fresh wager funded by the caller, with the
/// current owner snapshotted as its arbiter.
pub open spec fn create_wager_spec(
    c: ContractV,
    sender: Seq<char>,
    funds: BalV,
    id: Seq<char>,
) -> StepV {
    if c.wagers.contains_key(id) {
        StepV { state: c, result: Err(ContractError::AlreadyInUse) }
    } else {
        let w = WagerV {
            arbiter: c.config.owner,
            user1: sender,
            user2: None,
            user1_balance: funds,
            user2_balance: empty_bal(),
        };
        StepV {
            state: ContractV { config: c.config, wagers: c.wagers.insert(id, w) },
            result: Ok(
                ResponseV {
                    attributes: seq![("action"@, "create"@), ("id"@, id)],
                    messages: Seq::empty(),
                },
            ),
        }
    }
}

/// What `add_funds` does: fail with `WagerDoesNotExist` for a dead id,
/// with `AlreadyInUse` when the wager is matched or the caller is its
/// funder, with `UnequalBalance` when the merged incoming bundle does
/// not set-equal the funder's bundle; otherwise commit the second
/// participant and their merged bundle.
pub open spec fn add_funds_spec(
    c: ContractV,
    sender: Seq<char>,
    funds: BalV,
    id: Seq<char>,
) -> StepV {
    if !c.wagers.contains_key(id) {
        StepV { state: c, result: Err(ContractError::WagerDoesNotExist) }
    } else {
        let w = c.wagers[id];
        if w.user2 is Some || w.user1 == sender {
            StepV { state: c, result: Err(ContractError::AlreadyInUse) }
        } else {
            let merged = merge_bal(w.user2_balance, funds);
            if !bal_equiv(merged, w.user1_balance) {
                StepV { state: c, result: Err(ContractError::UnequalBalance) }
            } else {
                let w2 = WagerV {
                    arbiter: w.arbiter,
                    user1: w.user1,
                    user2: Some(sender),
                    user1_balance: w.user1_balance,
                    user2_balance: merged,
                };
                StepV {
                    state: ContractV { config: c.config, wagers: c.wagers.insert(id, w2) },
                    result: Ok(
                        ResponseV {
                            attributes: seq![("action"@, "add_funds"@), ("id"@, id)],
                            messages: Seq::empty(),
                        },
                    ),
                }
            }
        }
    }
}

/// One token transfer per entry, each to the same recipient.
pub open spec fn token_msgs(to: Seq<char>, entries: Seq<EntryV>) -> Seq<InstrV> {
    entries.map_values(
        |e: EntryV| InstrV::Token { contract_addr: e.key, recipient: to, amount: e.amount },
    )
}

/// The transfer instructions that hand a bundle to `to`: one native
/// batch when the native side is not empty, then one token transfer
/// per cw20 entry, in entry order.
pub open spec fn transfer_msgs(to: Seq<char>, b: BalV) -> Seq<InstrV> {
    let native = if b.native.len() == 0 {
        Seq::<InstrV>::empty()
    } else {
        seq![InstrV::Native { to_address: to, amount: b.native }]
    };
    native + token_msgs(to, b.cw20)
}

/// What `cancel` does: fail with `WagerDoesNotExist` for a dead id,
/// with `Unauthorized` when the caller is neither the funder nor the
/// wager's arbiter or a second party has already joined; otherwise
/// delete the wager and return the funder's bundle to the funder.
pub open spec fn cancel_spec(c: ContractV, sender: Seq<char>, id: Seq<char>) -> StepV {
    if !c.wagers.contains_key(id) {
        StepV { state: c, result: Err(ContractError::WagerDoesNotExist) }
    } else {
        let w = c.wagers[id];
        if (sender != w.user1 && sender != w.arbiter) || w.user2 is Some {
            StepV { state: c, result: Err(ContractError::Unauthorized) }
        } else {
            StepV {
                state: ContractV { config: c.config, wagers: c.wagers.remove(id) },
                result: Ok(
                    ResponseV {
                        attributes: seq![
                            ("action"@, "cancel"@),
                            ("id"@, id),
                            ("to"@, w.user1),
                        ],
                        messages: transfer_msgs(w.user1, w.user1_balance),
                    },
                ),
            }
        }
    }
}

/// What `send_funds` does: fail with `WagerDoesNotExist` for a dead
/// id, with `Unauthorized` when the caller is not the current owner,
/// with `UserDoesNotExist` when the winner is neither participant;
/// otherwise delete the wager and send both bundles to the winner,
/// the funder's batch first.
pub open spec fn send_funds_spec(
    c: ContractV,
    sender: Seq<char>,
    id: Seq<char>,
    winner: Seq<char>,
) -> StepV {
    if !c.wagers.contains_key(id) {
        StepV { state: c, result: Err(ContractError::WagerDoesNotExist) }
    } else {
        let w = c.wagers[id];
        if sender != c.config.owner {
            StepV { state: c, result: Err(ContractError::Unauthorized) }
        } else if winner != w.user1 && w.user2 != Some(winner) {
            StepV { state: c, result: Err(ContractError::UserDoesNotExist) }
        } else {
            StepV {
                state: ContractV { config: c.config, wagers: c.wagers.remove(id) },
                result: Ok(
                    ResponseV {
                        attributes: seq![
                            ("action"@, "send_tokens_to_winner"@),
                            ("id"@, id),
                            ("to"@, winner),
                        ],
                        messages: transfer_msgs(winner, w.user1_balance) + transfer_msgs(
                            winner,
                            w.user2_balance,
                        ),
                    },
                ),
            }
        }
    }
}

/// An attribute from a literal key and an owned value.
fn mk_attr(key: &str, value: String) -> (a: Attribute)
    ensures
        a@ == (key@, value@),
{
    Attribute { key: String::from_str(key), value }
}

/// Set up the engine: the caller becomes both creator and owner, and
/// no wager is live.
pub fn instantiate(sender: String, _msg: InstantiateMsg) -> (st: ContractState)
    ensures
        st.wf(),
        st@.config == (StateV { creator: sender@, owner: sender@ }),
        st@.wagers == Map::<Seq<char>, WagerV>::empty(),
{
    let st = ContractState {
        config: State { creator: sender.clone(), owner: sender },
        wagers: WagerStore::new(),
    };
    st
}

/// Create a wager under `wager_id`, funded by `balance`, with the
/// current owner snapshotted as arbiter.
pub fn execute_create_wager(
    st: &mut ContractState,
    sender: String,
    balance: Balance,
    wager_id: String,
) -> (r: Result<Response, ContractError>)
    requires
        old(st).wf(),
        bal_wf(balance@),
    ensures
        final(st).wf(),
        ({
            let step = create_wager_spec(old(st)@, sender@, balance@, wager_id@);
            &&& final(st)@ == step.state
            &&& res_matches(r, step.result)
        }),
{
    let ghost c0 = st@;
    let ghost funds = balance@;
    let user1_balance = match balance {
        Balance::Native(coins) => {
            let b = GenericBalance { native: coins, cw20: Vec::new() };
            proof {
                assert(b@ =~= funds);
            }
            b
        }
        Balance::Cw20(token) => {
            let ghost tv = token@;
            let mut cw20: Vec<Cw20Coin> = Vec::new();
            cw20.push(token);
            let b = GenericBalance { native: Vec::new(), cw20 };
            proof {
                assert(b@ =~= funds);
            }
            b
        }
    };
    let wager = Wager {
        arbiter: st.config.owner.clone(),
        user1: sender,
        user2: None,
        user1_balance,
        user2_balance: GenericBalance::new(),
    };
    match st.wagers.create(wager_id.clone(), wager) {
        Ok(()) => {
            let mut attributes: Vec<Attribute> = Vec::new();
            attributes.push(mk_attr("action", String::from_str("create")));
            attributes.push(mk_attr("id", wager_id));
            let res = Response { attributes, messages: Vec::new() };
            proof {
                let step = create_wager_spec(c0, sender@, funds, wager_id@);
                assert(final(st)@ =~= step.state);
                assert(res@ =~= step.result->Ok_0);
                assert(wagers_wf(final(st)@.wagers)) by {
                    assert forall|k: Seq<char>| final(st)@.wagers.contains_key(k) implies wager_wf(
                        #[trigger] final(st)@.wagers[k],
                    ) by {
                        if k != wager_id@ {
                            assert(c0.wagers.contains_key(k));
                        }
                    }
                }
            }
            Ok(res)
        }
        Err(e) => Err(e),
    }
}

/// Join the wager under `wager_id` as its second participant, with a
/// bundle whose merge must set-equal the funder's.
pub fn execute_add_funds(
    st: &mut ContractState,
    sender: String,
    balance: Balance,
    wager_id: String,
) -> (r: Result<Response, ContractError>)
    requires
        old(st).wf(),
        bal_fits(empty_bal(), balance@),
    ensures
        final(st).wf(),
        ({
            let step = add_funds_spec(old(st)@, sender@, balance@, wager_id@);
            &&& final(st)@ == step.state
            &&& res_matches(r, step.result)
        }),
{
    let ghost c0 = st@;
    let ghost funds = balance@;
    let mut wager = match st.wagers.load(&wager_id) {
        Ok(w) => w,
        Err(e) => {
            return Err(e);
        }
    };
    if wager.user2.is_some() || wager.user1 == sender {
        return Err(ContractError::AlreadyInUse);
    }
    proof {
        assert(wager_wf(wager@));
        assert(wager@.user2_balance == empty_bal());
    }
    wager.user2_balance.add_tokens(balance);
    wager.user2 = Some(sender);
    if !wager.user2_balance.equals(&wager.user1_balance) {
        return Err(ContractError::UnequalBalance);
    }
    match st.wagers.update(&wager_id, wager) {
        Ok(()) => {
            let mut attributes: Vec<Attribute> = Vec::new();
            attributes.push(mk_attr("action", String::from_str("add_funds")));
            attributes.push(mk_attr("id", wager_id));
            let res = Response { attributes, messages: Vec::new() };
            proof {
                let step = add_funds_spec(c0, sender@, funds, wager_id@);
                assert(final(st)@ =~= step.state);
                assert(res@ =~= step.result->Ok_0);
                assert(wagers_wf(final(st)@.wagers)) by {
                    assert forall|k: Seq<char>| final(st)@.wagers.contains_key(k) implies wager_wf(
                        #[trigger] final(st)@.wagers[k],
                    ) by {
                        if k != wager_id@ {
                            assert(c0.wagers.contains_key(k));
                        }
                    }
                }
            }
            Ok(res)
        }
        Err(e) => Err(e),
    }
}

/// The instructions that hand `balance` over to `to`: the native batch
/// first, if any, then one token transfer per cw20 entry.
fn send_tokens(to: &String, balance: &GenericBalance) -> (msgs: Vec<TransferInstruction>)
    ensures
        instr_seq(msgs@) == transfer_msgs(to@, balance@),
{
    let ghost goal = transfer_msgs(to@, balance@);
    let mut msgs: Vec<TransferInstruction> = Vec::new();
    if !balance.native.is_empty() {
        let amount = balance.clone().native;
        msgs.push(TransferInstruction::Native { to_address: to.clone(), amount });
    }
    let ghost head = instr_seq(msgs@);
    proof {
        assert(head =~= (if balance@.native.len() == 0 {
            Seq::<InstrV>::empty()
        } else {
            seq![InstrV::Native { to_address: to@, amount: balance@.native }]
        }));
    }
    let n = balance.cw20.len();
    let mut i: usize = 0;
    while i < n
        invariant
            n == balance.cw20@.len(),
            balance@.cw20.len() == n,
            i <= n,
            instr_seq(msgs@) == head + token_msgs(to@, balance@.cw20.take(i as int)),
        decreases n - i,
    {
        let ghost m0 = msgs@;
        msgs.push(
            TransferInstruction::Token {
                contract_addr: balance.cw20[i].address.clone(),
                recipient: to.clone(),
                amount: balance.cw20[i].amount,
            },
        );
        proof {
            let e = balance@.cw20[i as int];
            assert(e == balance.cw20@[i as int]@);
            assert(e.key == balance.cw20@[i as int].address@);
            assert(e.amount == balance.cw20@[i as int].amount as int);
            let prev = head + token_msgs(to@, balance@.cw20.take(i as int));
            let next = head + token_msgs(to@, balance@.cw20.take(i as int + 1));
            assert(balance@.cw20.take(i as int).len() == i as int);
            assert(balance@.cw20.take(i as int + 1).len() == i as int + 1);
            assert(token_msgs(to@, balance@.cw20.take(i as int)).len() == i as int);
            assert(token_msgs(to@, balance@.cw20.take(i as int + 1)).len() == i as int + 1);
            assert(instr_seq(m0).len() == m0.len());
            assert(m0.len() == head.len() + i);
            assert(msgs@.len() == m0.len() + 1);
            assert(next.len() == msgs@.len());
            assert(instr_seq(msgs@) =~= next) by {
                assert(msgs@ == m0.push(msgs@[m0.len() as int]));
                assert forall|j: int| 0 <= j < next.len() implies instr_seq(msgs@)[j] == next[j] by {
                    assert(instr_seq(msgs@)[j] == msgs@[j]@);
                    if j < m0.len() {
                        assert(msgs@[j] == m0[j]);
                        assert(instr_seq(m0)[j] == m0[j]@);
                        if j >= head.len() {
                            let t = j - head.len();
                            assert(balance@.cw20.take(i as int)[t] == balance@.cw20[t]);
                            assert(balance@.cw20.take(i as int + 1)[t] == balance@.cw20[t]);
                            assert(prev[j] == token_msgs(to@, balance@.cw20.take(i as int))[t]);
                            assert(next[j] == token_msgs(to@, balance@.cw20.take(i as int + 1))[t]);
                        }
                    } else {
                        assert(j == m0.len());
                        assert(msgs@[j]@ == (InstrV::Token {
                            contract_addr: e.key,
                            recipient: to@,
                            amount: e.amount,
                        }));
                        let t = j - head.len();
                        assert(t == i as int);
                        assert(balance@.cw20.take(i as int + 1)[t] == balance@.cw20[i as int]);
                        assert(next[j] == token_msgs(to@, balance@.cw20.take(i as int + 1))[t]);
                    }
                }
            }
        }
        i = i + 1;
    }
    proof {
        assert(balance@.cw20.take(n as int) =~= balance@.cw20);
        assert(instr_seq(msgs@) =~= goal);
    }
    msgs
}

/// Cancel the unmatched wager under `wager_id` and return the funder's
/// bundle to the funder.
pub fn execute_cancel(st: &mut ContractState, sender: String, wager_id: String) -> (r: Result<
    Response,
    ContractError,
>)
    requires
        old(st).wf(),
    ensures
        final(st).wf(),
        ({
            let step = cancel_spec(old(st)@, sender@, wager_id@);
            &&& final(st)@ == step.state
            &&& res_matches(r, step.result)
        }),
{
    let ghost c0 = st@;
    let wager = match st.wagers.load(&wager_id) {
        Ok(w) => w,
        Err(e) => {
            return Err(e);
        }
    };
    if (!(sender == wager.user1) && !(sender == wager.arbiter)) || wager.user2.is_some() {
        return Err(ContractError::Unauthorized);
    }
    st.wagers.remove(&wager_id);
    let messages = send_tokens(&wager.user1, &wager.user1_balance);
    let mut attributes: Vec<Attribute> = Vec::new();
    attributes.push(mk_attr("action", String::from_str("cancel")));
    attributes.push(mk_attr("id", wager_id));
    attributes.push(mk_attr("to", wager.user1));
    let res = Response { attributes, messages };
    proof {
        let step = cancel_spec(c0, sender@, wager_id@);
        assert(final(st)@ =~= step.state);
        assert(res@ =~= step.result->Ok_0);
        assert(wagers_wf(final(st)@.wagers)) by {
            assert forall|k: Seq<char>| final(st)@.wagers.contains_key(k) implies wager_wf(
                #[trigger] final(st)@.wagers[k],
            ) by {
                assert(c0.wagers.contains_key(k));
            }
        }
    }
    Ok(res)
}

/// Resolve the wager under `wager_id`: the current owner directs both
/// bundles to `winner_address`, who must be one of the participants.
pub fn execute_send_funds(
    st: &mut ContractState,
    sender: String,
    wager_id: String,
    winner_address: String,
) -> (r: Result<Response, ContractError>)
    requires
        old(st).wf(),
    ensures
        final(st).wf(),
        ({
            let step = send_funds_spec(old(st)@, sender@, wager_id@, winner_address@);
            &&& final(st)@ == step.state
            &&& res_matches(r, step.result)
        }),
{
    let ghost c0 = st@;
    let wager = match st.wagers.load(&wager_id) {
        Ok(w) => w,
        Err(e) => {
            return Err(e);
        }
    };
    if !(sender == st.config.owner) {
        return Err(ContractError::Unauthorized);
    }
    let winner_is_user1 = winner_address == wager.user1;
    let winner_is_user2 = match &wager.user2 {
        Some(u) => winner_address == *u,
        None => false,
    };
    if !winner_is_user1 && !winner_is_user2 {
        return Err(ContractError::UserDoesNotExist);
    }
    st.wagers.remove(&wager_id);
    let mut messages = send_tokens(&winner_address, &wager.user1_balance);
    let mut user2_messages = send_tokens(&winner_address, &wager.user2_balance);
    messages.append(&mut user2_messages);
    let mut attributes: Vec<Attribute> = Vec::new();
    attributes.push(mk_attr("action", String::from_str("send_tokens_to_winner")));
    attributes.push(mk_attr("id", wager_id));
    attributes.push(mk_attr("to", winner_address));
    let res = Response { attributes, messages };
    proof {
        let step = send_funds_spec(c0, sender@, wager_id@, res.attributes@[2].value@);
        assert(final(st)@ =~= step.state);
        assert(res@.messages =~= step.result->Ok_0.messages);
        assert(res@ =~= step.result->Ok_0);
        assert(wagers_wf(final(st)@.wagers)) by {
            assert forall|k: Seq<char>| final(st)@.wagers.contains_key(k) implies wager_wf(
                #[trigger] final(st)@.wagers[k],
            ) by {
                assert(c0.wagers.contains_key(k));
            }
        }
    }
    Ok(res)
}

/// What a command does, given the native coins attached to the call.
pub open spec fn execute_spec(
    c: ContractV,
    sender: Seq<char>,
    funds: Seq<EntryV>,
    msg: ExecuteMsg,
) -> StepV {
    let native = BalV { native: funds, cw20: Seq::empty() };
    match msg {
        ExecuteMsg::CreateWager { wager_id } => create_wager_spec(c, sender, native, wager_id@),
        ExecuteMsg::AddFunds { wager_id } => add_funds_spec(c, sender, native, wager_id@),
        ExecuteMsg::Cancel { wager_id } => cancel_spec(c, sender, wager_id@),
        ExecuteMsg::SendFunds { wager_id, winner_address } => send_funds_spec(
            c,
            sender,
            wager_id@,
            winner_address@,
        ),
    }
}

/// Dispatch a command, with the native coins the caller attached.
pub fn execute(
    st: &mut ContractState,
    sender: String,
    funds: Vec<Coin>,
    msg: ExecuteMsg,
) -> (r: Result<Response, ContractError>)
    requires
        old(st).wf(),
        msg is CreateWager ==> bal_wf(
            BalV { native: coin_entries(funds@), cw20: Seq::<EntryV>::empty() },
        ),
        msg is AddFunds ==> bal_fits(
            empty_bal(),
            BalV { native: coin_entries(funds@), cw20: Seq::<EntryV>::empty() },
        ),
    ensures
        final(st).wf(),
        ({
            let step = execute_spec(old(st)@, sender@, coin_entries(funds@), msg);
            &&& final(st)@ == step.state
            &&& res_matches(r, step.result)
        }),
{
    match msg {
        ExecuteMsg::CreateWager { wager_id } => execute_create_wager(
            st,
            sender,
            Balance::Native(funds),
            wager_id,
        ),
        ExecuteMsg::AddFunds { wager_id } => execute_add_funds(
            st,
            sender,
            Balance::Native(funds),
            wager_id,
        ),
        ExecuteMsg::Cancel { wager_id } => execute_cancel(st, sender, wager_id),
        ExecuteMsg::SendFunds { wager_id, winner_address } => execute_send_funds(
            st,
            sender,
            wager_id,
            winner_address,
        ),
    }
}

/// Handle tokens sent to the engine by a cw20 contract: the sending
/// contract's address and the amount form the attached bundle, and the
/// decoded payload names the command.
pub fn receive_cw20(
    st: &mut ContractState,
    token_contract: String,
    sender: String,
    amount: u128,
    hook: Cw20HookMsg,
) -> (r: Result<Response, ContractError>)
    requires
        old(st).wf(),
    ensures
        final(st).wf(),
        ({
            let funds = BalV {
                native: Seq::empty(),
                cw20: seq![EntryV { key: token_contract@, amount: amount as int }],
            };
            let step = match hook {
                Cw20HookMsg::CreateWager { wager_id } => create_wager_spec(
                    old(st)@,
                    sender@,
                    funds,
                    wager_id@,
                ),
                Cw20HookMsg::AddFunds { wager_id } => add_funds_spec(
                    old(st)@,
                    sender@,
                    funds,
                    wager_id@,
                ),
            };
            &&& final(st)@ == step.state
            &&& res_matches(r, step.result)
        }),
{
    let coin = Cw20Coin { address: token_contract, amount };
    let balance = Balance::Cw20(coin);
    proof {
        assert(bal_wf(balance@)) by {
            assert(balance@.cw20[0].amount == amount as int);
        }
        assert(bal_fits(empty_bal(), balance@)) by {
            let none = Seq::<EntryV>::empty();
            let e = balance@.cw20[0];
            assert(balance@.native.len() == 0);
            assert(merge_fits(none, balance@.native));
            assert(balance@.cw20.len() == 1);
            assert(find_key(none, e.key) == -1);
            assert(balance@.cw20.drop_first() =~= none);
            assert(merge_fits(merge_one(none, e), balance@.cw20.drop_first()));
            assert(merge_fits(none, balance@.cw20));
        }
    }
    match hook {
        Cw20HookMsg::CreateWager { wager_id } => execute_create_wager(st, sender, balance, wager_id),
        Cw20HookMsg::AddFunds { wager_id } => execute_add_funds(st, sender, balance, wager_id),
    }
}

/// The configuration record.
pub fn query_config(st: &ContractState) -> (s: State)
    ensures
        s@ == st@.config,
{
    st.config.clone()
}

/// The wager under `id`; fails with `WagerDoesNotExist` when `id` is
/// not live.
pub fn get_wager(st: &ContractState, id: &String) -> (r: Result<Wager, ContractError>)
    requires
        st.wf(),
    ensures
        match r {
            Ok(w) => st@.wagers.contains_key(id@) && w@ == st@.wagers[id@],
            Err(e) => e == ContractError::WagerDoesNotExist && !st@.wagers.contains_key(id@),
        },
{
    st.wagers.load(id)
}

/// What a query answers.
#[derive(Debug)]
pub enum QueryAnswer {
    Config(State),
    Wager(Wager),
}

/// Answer a query: the configuration, or one wager by id.
pub fn query(st: &ContractState, msg: QueryMsg) -> (r: Result<QueryAnswer, ContractError>)
    requires
        st.wf(),
    ensures
        match msg {
            QueryMsg::Config {} => match r {
                Ok(a) => a matches QueryAnswer::Config(s) && s@ == st@.config,
                Err(_) => false,
            },
            QueryMsg::Wager { id } => match r {
                Ok(a) => {
                    &&& a matches QueryAnswer::Wager(w)
                    &&& st@.wagers.contains_key(id@)
                    &&& w@ == st@.wagers[id@]
                },
                Err(e) => e == ContractError::WagerDoesNotExist && !st@.wagers.contains_key(id@),
            },
        },
{
    match msg {
        QueryMsg::Config {} => Ok(QueryAnswer::Config(query_config(st))),
        QueryMsg::Wager { id } => {
            match get_wager(st, &id) {
                Ok(w) => Ok(QueryAnswer::Wager(w)),
                Err(e) => Err(e),
            }
        }
    }
}

} // verus!
