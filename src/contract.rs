use vstd::prelude::*;
use crate::account::{is_valid_account_id, valid_account_id};
use crate::action::{declared_asset, debited_token, dispatch_for, Action, ActionCall, ActionCallStatus, Dispatch};
use crate::construction::{children, slots, structural_error, weights, Construction};
use crate::decimal::{parse_u128, parsed_u128};
use crate::json::{json_object_list_of, json_string_of};
use crate::reply::{get_results_from_returned_bytes, items_view, opt_string_view, reply_items, ReturnItem};
use crate::errors::EngineError;
use crate::ids::GenericId;
use crate::ledger::{deposited, opt_bytes_view, settled, FungibleTokenBalances};
use crate::splitter::{split_spec, sum_weights, weights_sum_is_zero};
use crate::table::Table;

verus! {

/// One run of a construction.
#[derive(Debug)]
pub struct ConstructionCall {
    /// The account whose balances pay for the run.
    pub caller: String,
    pub construction_id: GenericId,
    /// Positions in `action_calls` of the steps still to run, used as a stack.
    pub next_action_calls_stack: Vec<u64>,
    /// The ids of every step the run has scheduled, in order.
    pub action_calls: Vec<u64>,
}

/// The account ids that an action names, and that must be valid.
pub open spec fn action_accounts_valid(a: Action) -> bool {
    match a {
        Action::FtTransferCallToMallocCall(x) => valid_account_id(x.malloc_call_id@)
            && valid_account_id(x.token_id@),
        Action::WithdrawFromMallocCall(x) => valid_account_id(x.malloc_call_id@) && valid_account_id(
            x.token_id@,
        ) && match x.recipient {
            Some(r) => valid_account_id(r@),
            None => true,
        },
        Action::MallocCall(_) => true,
    }
}

fn check_action_accounts(a: &Action) -> (r: bool)
    ensures
        r == action_accounts_valid(*a),
{
    match a {
        Action::FtTransferCallToMallocCall(x) => is_valid_account_id(&x.malloc_call_id)
            && is_valid_account_id(&x.token_id),
        Action::WithdrawFromMallocCall(x) => {
            is_valid_account_id(&x.malloc_call_id) && is_valid_account_id(&x.token_id) && match &x.recipient {
                Some(r) => is_valid_account_id(r),
                None => true,
            }
        },
        Action::MallocCall(_) => true,
    }
}

/// The state of the engine: registered actions and constructions, runs and
/// their steps, and the ledger of deposited tokens.
pub struct Contract {
    constructions: Table<GenericId, Construction>,
    construction_calls: Table<String, ConstructionCall>,
    /// Every step ever scheduled; a step's id is its position here.
    action_calls: Vec<ActionCall>,
    actions: Table<GenericId, Action>,
    balances: FungibleTokenBalances,
    malloc_contract_id: String,
}

impl Contract {
    pub closed spec fn wf(&self) -> bool {
        &&& self.constructions.wf()
        &&& self.construction_calls.wf()
        &&& self.actions.wf()
        &&& self.balances.wf()
    }

    /// The registered constructions, by (owner, name).
    pub closed spec fn construction_map(&self) -> Map<(Seq<char>, Seq<char>), Construction> {
        self.constructions@
    }

    /// The registered actions, by (owner, name).
    pub closed spec fn action_map(&self) -> Map<(Seq<char>, Seq<char>), Action> {
        self.actions@
    }

    /// The runs, by run id.
    pub closed spec fn run_map(&self) -> Map<Seq<char>, ConstructionCall> {
        self.construction_calls@
    }

    /// Every step ever scheduled, by id.
    pub closed spec fn calls(&self) -> Seq<ActionCall> {
        self.action_calls@
    }

    pub closed spec fn ledger(&self) -> FungibleTokenBalances {
        self.balances
    }

    /// The account of the contract itself.
    pub closed spec fn self_id(&self) -> Seq<char> {
        self.malloc_contract_id@
    }

    pub fn new(malloc_contract_id: String) -> (r: Contract)
        ensures
            r.wf(),
            r.construction_map() == Map::<(Seq<char>, Seq<char>), Construction>::empty(),
            r.action_map() == Map::<(Seq<char>, Seq<char>), Action>::empty(),
            r.run_map() == Map::<Seq<char>, ConstructionCall>::empty(),
            r.calls() == Seq::<ActionCall>::empty(),
            forall|a: Seq<char>, t: Seq<char>| #[trigger] r.ledger().balance(a, t) == 0,
            r.self_id() == malloc_contract_id@,
    {
        let r = Contract {
            constructions: Table::new(),
            construction_calls: Table::new(),
            action_calls: Vec::new(),
            actions: Table::new(),
            balances: FungibleTokenBalances::new(),
            malloc_contract_id,
        };
        assert(r.calls() =~= Seq::<ActionCall>::empty());
        r
    }

    /// Registers `action` under (`owner`, `name`). Actions are immutable: a
    /// key is registered once.
    pub fn register_action(&mut self, owner: &String, name: String, action: Action) -> (r: Result<
        (),
        EngineError,
    >)
        requires
            old(self).wf(),
        ensures
            final(self).wf(),
            !action_accounts_valid(action) ==> r == Err::<(), EngineError>(
                EngineError::InvalidAccountId,
            ),
            action_accounts_valid(action) && old(self).action_map().contains_key((owner@, name@))
                ==> r == Err::<(), EngineError>(EngineError::AlreadyRegistered),
            action_accounts_valid(action) && !old(self).action_map().contains_key((owner@, name@))
                ==> r is Ok,
            r is Err ==> *final(self) == *old(self),
            r is Ok ==> {
                &&& action_accounts_valid(action)
                &&& !old(self).action_map().contains_key((owner@, name@))
                &&& final(self).action_map() == old(self).action_map().insert((owner@, name@), action)
                &&& final(self).construction_map() == old(self).construction_map()
                &&& final(self).run_map() == old(self).run_map()
                &&& final(self).calls() == old(self).calls()
                &&& final(self).ledger() == old(self).ledger()
                &&& final(self).self_id() == old(self).self_id()
            },
    {
        if !check_action_accounts(&action) {
            return Err(EngineError::InvalidAccountId);
        }
        let id = GenericId::new(name, owner.clone());
        if self.actions.contains(&id) {
            return Err(EngineError::AlreadyRegistered);
        }
        self.actions.insert_new(id, action);
        Ok(())
    }

    /// Registers `construction` under (`owner`, `name`), once its routing
    /// tables pass [`Construction::check`]. Constructions are immutable: a key
    /// is registered once.
    pub fn register_construction(
        &mut self,
        owner: &String,
        name: String,
        construction: Construction,
    ) -> (r: Result<(), EngineError>)
        requires
            old(self).wf(),
        ensures
            final(self).wf(),
            structural_error(construction) matches Some(e) ==> r == Err::<(), EngineError>(e),
            structural_error(construction) is None && old(self).construction_map().contains_key(
                (owner@, name@),
            ) ==> r == Err::<(), EngineError>(EngineError::AlreadyRegistered),
            structural_error(construction) is None && !old(self).construction_map().contains_key(
                (owner@, name@),
            ) ==> r is Ok,
            r is Err ==> *final(self) == *old(self),
            r is Ok ==> {
                &&& structural_error(construction) is None
                &&& !old(self).construction_map().contains_key((owner@, name@))
                &&& final(self).construction_map() == old(self).construction_map().insert(
                    (owner@, name@),
                    construction,
                )
                &&& final(self).action_map() == old(self).action_map()
                &&& final(self).run_map() == old(self).run_map()
                &&& final(self).calls() == old(self).calls()
                &&& final(self).ledger() == old(self).ledger()
                &&& final(self).self_id() == old(self).self_id()
            },
    {
        match construction.check() {
            Err(e) => {
                return Err(e);
            },
            Ok(()) => {},
        }
        let id = GenericId::new(name, owner.clone());
        if self.constructions.contains(&id) {
            return Err(EngineError::AlreadyRegistered);
        }
        self.constructions.insert_new(id, construction);
        Ok(())
    }

    pub fn get_construction(&self, id: &GenericId) -> (r: Result<&Construction, EngineError>)
        requires
            self.wf(),
        ensures
            match r {
                Ok(c) => self.construction_map().contains_key(id@) && *c == self.construction_map()[id@],
                Err(e) => !self.construction_map().contains_key(id@) && e == EngineError::NotFound,
            },
    {
        match self.constructions.get(id) {
            Some(c) => Ok(c),
            None => Err(EngineError::NotFound),
        }
    }

    pub fn get_action(&self, id: &GenericId) -> (r: Result<&Action, EngineError>)
        requires
            self.wf(),
        ensures
            match r {
                Ok(a) => self.action_map().contains_key(id@) && *a == self.action_map()[id@],
                Err(e) => !self.action_map().contains_key(id@) && e == EngineError::NotFound,
            },
    {
        match self.actions.get(id) {
            Some(a) => Ok(a),
            None => Err(EngineError::NotFound),
        }
    }

    pub fn get_construction_call_unchecked(&self, id: &String) -> (r: &ConstructionCall)
        requires
            self.wf(),
            self.run_map().contains_key(id@),
        ensures
            *r == self.run_map()[id@],
    {
        self.construction_calls.get(id).unwrap()
    }

    pub fn get_action_call_unchecked(&self, id: u64) -> (r: &ActionCall)
        requires
            id < self.calls().len(),
        ensures
            *r == self.calls()[id as int],
    {
        let n = self.action_calls.len();
        assert(id < n);
        &self.action_calls[id as usize]
    }

    /// The number of steps scheduled so far, over all runs.
    pub fn action_call_count(&self) -> (r: usize)
        ensures
            r == self.calls().len(),
    {
        self.action_calls.len()
    }

    pub fn get_ft_balance(&self, account_id: &String, token_id: &String) -> (r: u128)
        requires
            self.wf(),
        ensures
            r == self.ledger().balance(account_id@, token_id@),
    {
        self.balances.get_ft_balance(account_id, token_id)
    }
}

} // verus!

verus! {

/// Why starting a run would be refused, if it would.
pub open spec fn start_error(
    c: Contract,
    run_id: Seq<char>,
    construction_id: (Seq<char>, Seq<char>),
    indices: Seq<u64>,
    splits: Seq<u128>,
) -> Option<EngineError> {
    if c.run_map().contains_key(run_id) {
        Some(EngineError::ConstructionCallIdAlreadyUsed)
    } else if !c.construction_map().contains_key(construction_id) {
        Some(EngineError::NotFound)
    } else if indices.len() != splits.len() {
        Some(EngineError::NumbNodesDneNumbSplits)
    } else if indices.len() == 0 {
        Some(EngineError::NoChildrenSpecified)
    } else if sum_weights(splits) == 0 {
        Some(EngineError::ZeroTotalWeight)
    } else {
        None
    }
}

/// A step that has not started, of action `index` with `amount`.
pub open spec fn waiting_call(index: u64, amount: int, block_index: u64) -> ActionCall {
    ActionCall {
        action_index_in_construction: index,
        block_index,
        amount: amount as u128,
        status: ActionCallStatus::WaitingCall,
    }
}

impl Contract {
    /// Starts run `construction_call_id` of a registered construction for
    /// `caller`: `amount` is split by `initial_splits` among the actions at
    /// `initial_action_indices`, one new step each, all pushed on the run's
    /// stack in order.
    pub fn init_construction(
        &mut self,
        construction_call_id: String,
        construction_id: GenericId,
        caller: String,
        amount: u128,
        initial_action_indices: Vec<u64>,
        initial_splits: Vec<u128>,
        block_index: u64,
    ) -> (r: Result<(), EngineError>)
        requires
            old(self).wf(),
        ensures
            final(self).wf(),
            ({
                let err = start_error(
                    *old(self),
                    construction_call_id@,
                    construction_id@,
                    initial_action_indices@,
                    initial_splits@,
                );
                let base = old(self).calls().len();
                let n = initial_action_indices@.len();
                let amounts = split_spec(amount as nat, initial_splits@);
                match err {
                    Some(e) => r == Err::<(), EngineError>(e) && *final(self) == *old(self),
                    None => {
                        &&& r is Ok
                        &&& final(self).calls().len() == base + n
                        &&& final(self).calls().subrange(0, base as int) == old(self).calls()
                        &&& forall|k: int|
                            0 <= k < n ==> #[trigger] final(self).calls()[base + k] == waiting_call(
                                initial_action_indices@[k],
                                amounts[k],
                                block_index,
                            )
                        &&& final(self).run_map().dom() == old(self).run_map().dom().insert(
                            construction_call_id@,
                        )
                        &&& forall|id: Seq<char>|
                            #[trigger] old(self).run_map().contains_key(id) ==> final(self).run_map()[id]
                                == old(self).run_map()[id]
                        &&& final(self).run_map()[construction_call_id@].caller@ == caller@
                        &&& final(self).run_map()[construction_call_id@].construction_id@
                            == construction_id@
                        &&& final(self).run_map()[construction_call_id@].next_action_calls_stack@
                            == Seq::new(n, |k: int| k as u64)
                        &&& final(self).run_map()[construction_call_id@].action_calls@ == Seq::new(
                            n,
                            |k: int| (base + k) as u64,
                        )
                        &&& final(self).construction_map() == old(self).construction_map()
                        &&& final(self).action_map() == old(self).action_map()
                        &&& final(self).ledger() == old(self).ledger()
                        &&& final(self).self_id() == old(self).self_id()
                    },
                }
            }),
    {
        if self.construction_calls.contains(&construction_call_id) {
            return Err(EngineError::ConstructionCallIdAlreadyUsed);
        }
        if !self.constructions.contains(&construction_id) {
            return Err(EngineError::NotFound);
        }
        let n = initial_action_indices.len();
        if n != initial_splits.len() {
            return Err(EngineError::NumbNodesDneNumbSplits);
        }
        if n == 0 {
            return Err(EngineError::NoChildrenSpecified);
        }
        if weights_sum_is_zero(&initial_splits) {
            return Err(EngineError::ZeroTotalWeight);
        }
        let amounts = Construction::get_split_amounts(amount, &initial_splits);
        let ghost old_calls = self.action_calls@;
        let ghost pre = *self;
        let base = self.action_calls.len();
        let mut ids: Vec<u64> = Vec::new();
        let mut stack: Vec<u64> = Vec::new();
        let mut k: usize = 0;
        while k < n
            invariant
                k <= n,
                n == initial_action_indices@.len(),
                amounts@.len() == n,
                self.wf(),
                self.constructions == pre.constructions,
                self.construction_calls == pre.construction_calls,
                self.actions == pre.actions,
                self.balances == pre.balances,
                self.malloc_contract_id == pre.malloc_contract_id,
                !self.construction_calls@.contains_key(construction_call_id@),
                forall|j: int| 0 <= j < n ==> amounts@[j] == split_spec(amount as nat, initial_splits@)[j],
                base == old_calls.len(),
                self.action_calls@.len() == base + k,
                self.action_calls@.subrange(0, base as int) == old_calls,
                forall|j: int|
                    0 <= j < k ==> #[trigger] self.action_calls@[base + j] == waiting_call(
                        initial_action_indices@[j],
                        split_spec(amount as nat, initial_splits@)[j],
                        block_index,
                    ),
                ids@ == Seq::new(k as nat, |j: int| (base + j) as u64),
                stack@ == Seq::new(k as nat, |j: int| j as u64),
            decreases n - k,
        {
            let id = self.action_calls.len() as u64;
            self.action_calls.push(
                ActionCall {
                    action_index_in_construction: initial_action_indices[k],
                    block_index,
                    amount: amounts[k],
                    status: ActionCallStatus::WaitingCall,
                },
            );
            ids.push(id);
            stack.push(k as u64);
            assert(self.action_calls@.subrange(0, base as int) =~= old_calls);
            assert(ids@ =~= Seq::new((k + 1) as nat, |j: int| (base + j) as u64));
            assert(stack@ =~= Seq::new((k + 1) as nat, |j: int| j as u64));
            k = k + 1;
        }
        let run = ConstructionCall {
            caller,
            construction_id,
            next_action_calls_stack: stack,
            action_calls: ids,
        };
        self.construction_calls.insert_new(construction_call_id, run);
        Ok(())
    }
}

} // verus!

verus! {

/// The step that advancing run `run_id` would start, with its action; or why
/// there is none.
pub open spec fn next_step(c: Contract, run_id: Seq<char>) -> Result<(u64, Action), EngineError> {
    if !c.run_map().contains_key(run_id) {
        Err(EngineError::NotFound)
    } else {
        let run = c.run_map()[run_id];
        let stack = run.next_action_calls_stack@;
        if stack.len() == 0 {
            Err(EngineError::StackEmpty)
        } else if stack.last() >= run.action_calls@.len() {
            Err(EngineError::NotFound)
        } else {
            let cid = run.action_calls@[stack.last() as int];
            if cid >= c.calls().len() || !c.construction_map().contains_key(run.construction_id@) {
                Err(EngineError::NotFound)
            } else {
                let con = c.construction_map()[run.construction_id@];
                let idx = c.calls()[cid as int].action_index_in_construction;
                if idx >= con.actions@.len() || !c.action_map().contains_key(
                    con.actions@[idx as int]@,
                ) {
                    Err(EngineError::NotFound)
                } else {
                    Ok((cid, c.action_map()[con.actions@[idx as int]@]))
                }
            }
        }
    }
}

/// Whether starting `a` with `amount` for `caller` is refused for want of funds.
pub open spec fn lacks_funds(c: Contract, a: Action, amount: u128, caller: Seq<char>) -> bool {
    match debited_token(a, amount) {
        Some(t) => amount > c.ledger().balance(caller, t),
        None => false,
    }
}

/// `call` once its action has been started at `block_index`.
pub open spec fn executing(call: ActionCall, block_index: u64) -> ActionCall {
    ActionCall { status: ActionCallStatus::Executing { block_index_start: block_index }, ..call }
}

impl Contract {
    /// Advances run `construction_call_id` by one step: pops the top of its
    /// stack, marks that step as executing since `block_index`, and starts its
    /// action on behalf of the run's caller. Returns the outside work to
    /// issue. An empty stack gives `StackEmpty`; on any refusal nothing changes.
    pub fn process_next_action_call(&mut self, construction_call_id: &String, block_index: u64) -> (r:
        Result<Dispatch, EngineError>)
        requires
            old(self).wf(),
        ensures
            final(self).wf(),
            match next_step(*old(self), construction_call_id@) {
                Err(e) => r == Err::<Dispatch, EngineError>(e) && *final(self) == *old(self),
                Ok((cid, a)) => {
                    let run = old(self).run_map()[construction_call_id@];
                    let amount = old(self).calls()[cid as int].amount;
                    let caller = run.caller@;
                    if lacks_funds(*old(self), a, amount, caller) {
                        r == Err::<Dispatch, EngineError>(EngineError::InsufficientFunds) && *final(self)
                            == *old(self)
                    } else {
                        &&& r matches Ok(d) && dispatch_for(
                            d,
                            a,
                            amount,
                            construction_call_id@,
                            cid,
                            caller,
                            old(self).self_id(),
                        )
                        &&& match debited_token(a, amount) {
                            Some(t) => final(self).ledger().balance(caller, t) == old(self).ledger().balance(
                                caller,
                                t,
                            ) - amount && final(self).ledger().same_except(&old(self).ledger(), caller, t),
                            None => final(self).ledger() == old(self).ledger(),
                        }
                        &&& final(self).calls() == old(self).calls().update(
                            cid as int,
                            executing(old(self).calls()[cid as int], block_index),
                        )
                        &&& final(self).run_map().dom() == old(self).run_map().dom()
                        &&& forall|id: Seq<char>|
                            #[trigger] old(self).run_map().contains_key(id) && id != construction_call_id@
                                ==> final(self).run_map()[id] == old(self).run_map()[id]
                        &&& final(self).run_map()[construction_call_id@].next_action_calls_stack@
                            == run.next_action_calls_stack@.drop_last()
                        &&& final(self).run_map()[construction_call_id@].action_calls@
                            == run.action_calls@
                        &&& final(self).run_map()[construction_call_id@].caller@ == run.caller@
                        &&& final(self).run_map()[construction_call_id@].construction_id@
                            == run.construction_id@
                        &&& final(self).construction_map() == old(self).construction_map()
                        &&& final(self).action_map() == old(self).action_map()
                        &&& final(self).self_id() == old(self).self_id()
                    }
                },
            },
    {
        let run = match self.construction_calls.get(construction_call_id) {
            None => {
                return Err(EngineError::NotFound);
            },
            Some(run) => run,
        };
        let sl = run.next_action_calls_stack.len();
        if sl == 0 {
            return Err(EngineError::StackEmpty);
        }
        let pos = run.next_action_calls_stack[sl - 1];
        let nl = run.action_calls.len();
        if pos >= nl as u64 {
            return Err(EngineError::NotFound);
        }
        let cid = run.action_calls[pos as usize];
        let total = self.action_calls.len();
        if cid >= total as u64 {
            return Err(EngineError::NotFound);
        }
        let con = match self.constructions.get(&run.construction_id) {
            None => {
                return Err(EngineError::NotFound);
            },
            Some(con) => con,
        };
        let idx = self.action_calls[cid as usize].action_index_in_construction;
        let al = con.actions.len();
        if idx >= al as u64 {
            return Err(EngineError::NotFound);
        }
        let action = match self.actions.get(&con.actions[idx as usize]) {
            None => {
                return Err(EngineError::NotFound);
            },
            Some(a) => a,
        };
        let caller = run.caller.clone();
        let dispatch = match action.handle_action(
            &mut self.balances,
            &self.action_calls[cid as usize],
            construction_call_id,
            cid,
            &caller,
            &self.malloc_contract_id,
        ) {
            Err(e) => {
                return Err(e);
            },
            Ok(d) => d,
        };
        let placeholder = ConstructionCall {
            caller: String::new(),
            construction_id: GenericId::new(String::new(), String::new()),
            next_action_calls_stack: Vec::new(),
            action_calls: Vec::new(),
        };
        let mut run = self.construction_calls.swap_value(construction_call_id, placeholder);
        run.next_action_calls_stack.pop();
        self.construction_calls.replace(construction_call_id, run);
        let current = &self.action_calls[cid as usize];
        let started = ActionCall {
            action_index_in_construction: current.action_index_in_construction,
            block_index: current.block_index,
            amount: current.amount,
            status: ActionCallStatus::Executing { block_index_start: block_index },
        };
        self.action_calls[cid as usize] = started;
        Ok(dispatch)
    }
}

} // verus!

verus! {

/// The message recorded on a step whose call failed.
pub open spec fn failure_message() -> Seq<char> {
    seq![
        'T', 'h', 'e', ' ', 'm', 'a', 'l', 'l', 'o', 'c', ' ', 'c', 'a', 'l', 'l', ' ', 'f', 'a', 'i',
        'l', 'e', 'd'
    ]
}

/// Why a reply for step `cid` of run `run_id` cannot be taken at all.
pub open spec fn callback_target_error(c: Contract, run_id: Seq<char>, cid: u64) -> Option<EngineError> {
    if !c.run_map().contains_key(run_id) || !c.run_map()[run_id].action_calls@.contains(cid) || cid
        >= c.calls().len() {
        Some(EngineError::NotFound)
    } else {
        None
    }
}

/// Every result slot of action `i` has as many weights as next actions.
pub open spec fn slot_shapes_ok(con: Construction, i: int) -> bool {
    forall|k: int| 0 <= k < slots(con, i) ==> #[trigger] children(con, i, k).len() == weights(con, i, k).len()
}

/// Why result `k` cannot be routed by slot `k` of action `i`, if it cannot;
/// the routing table itself is checked before any result.
pub open spec fn item_error(
    con: Construction,
    i: int,
    asset: Seq<char>,
    items: Seq<(Seq<char>, Seq<char>)>,
    k: int,
) -> Option<EngineError> {
    if items[k].0 != asset {
        Some(EngineError::AssetMismatch)
    } else if parsed_u128(items[k].1) is None {
        Some(EngineError::ParseError)
    } else if sum_weights(weights(con, i, k)) == 0 {
        Some(EngineError::ZeroTotalWeight)
    } else {
        None
    }
}

/// The first error among the first `k` results.
pub open spec fn first_item_error(
    con: Construction,
    i: int,
    asset: Seq<char>,
    items: Seq<(Seq<char>, Seq<char>)>,
    k: int,
) -> Option<EngineError>
    decreases k,
{
    if k <= 0 {
        None
    } else {
        match first_item_error(con, i, asset, items, k - 1) {
            Some(e) => Some(e),
            None => item_error(con, i, asset, items, k - 1),
        }
    }
}

/// The steps that an amount routed by slot `k` of action `i` becomes: one per
/// next action, with its share of the amount.
pub open spec fn slot_calls(con: Construction, i: int, k: int, amount: u128) -> Seq<(u64, int)> {
    Seq::new(
        children(con, i, k).len(),
        |j: int| (children(con, i, k)[j], split_spec(amount as nat, weights(con, i, k))[j]),
    )
}

/// The steps that the first `k` results become, in order.
pub open spec fn routed_calls(
    con: Construction,
    i: int,
    items: Seq<(Seq<char>, Seq<char>)>,
    k: int,
) -> Seq<(u64, int)>
    decreases k,
{
    if k <= 0 {
        Seq::empty()
    } else {
        routed_calls(con, i, items, k - 1) + slot_calls(
            con,
            i,
            k - 1,
            parsed_u128(items[k - 1].1)->0,
        )
    }
}

pub open spec fn as_calls(plan: Seq<(u64, int)>, block_index: u64) -> Seq<ActionCall> {
    plan.map_values(|p: (u64, int)| waiting_call(p.0, p.1, block_index))
}

/// `call` once its reply has been routed on.
pub open spec fn succeeded(call: ActionCall) -> ActionCall {
    ActionCall { status: ActionCallStatus::Success, ..call }
}

/// The construction of run `run_id`.
pub open spec fn run_construction(c: Contract, run_id: Seq<char>) -> Construction {
    c.construction_map()[c.run_map()[run_id].construction_id@]
}

/// The position in its construction of the action of step `cid`.
pub open spec fn step_index(c: Contract, cid: u64) -> int {
    c.calls()[cid as int].action_index_in_construction as int
}

/// Why the results `items` of step `cid` of run `run_id` cannot be routed, if
/// they cannot.
pub open spec fn routing_error(
    c: Contract,
    run_id: Seq<char>,
    cid: u64,
    items: Seq<(Seq<char>, Seq<char>)>,
) -> Option<EngineError> {
    if callback_target_error(c, run_id, cid) is Some {
        callback_target_error(c, run_id, cid)
    } else if !c.construction_map().contains_key(c.run_map()[run_id].construction_id@) {
        Some(EngineError::NotFound)
    } else {
        let con = run_construction(c, run_id);
        let i = step_index(c, cid);
        if i >= con.actions@.len() || !c.action_map().contains_key(con.actions@[i]@) {
            Some(EngineError::NotFound)
        } else if i >= con.next_actions_indices@.len() || i >= con.next_actions_splits@.len()
            || slots(con, i) != con.next_actions_splits@[i]@.len() || items.len() != slots(con, i)
            || !slot_shapes_ok(con, i) {
            Some(EngineError::RoutingMismatch)
        } else {
            first_item_error(
                con,
                i,
                declared_asset(c.action_map()[con.actions@[i]@]),
                items,
                items.len() as int,
            )
        }
    }
}

/// `new` is `old` after the results `items` of step `cid` of run `run_id`
/// were routed, with `r` the outcome: refused with nothing changed, or the
/// step marked as succeeded and one new waiting step per share appended to
/// the steps and pushed on the run's stack.
pub open spec fn routed(
    old: Contract,
    new: Contract,
    run_id: Seq<char>,
    cid: u64,
    items: Seq<(Seq<char>, Seq<char>)>,
    block_index: u64,
    r: Result<(), EngineError>,
) -> bool {
    match routing_error(old, run_id, cid, items) {
        Some(e) => r == Err::<(), EngineError>(e) && new == old,
        None => {
            let con = run_construction(old, run_id);
            let plan = routed_calls(con, step_index(old, cid), items, items.len() as int);
            let base = old.calls().len();
            let run = old.run_map()[run_id];
            let first = run.action_calls@.len();
            &&& r is Ok
            &&& new.calls() == old.calls().update(cid as int, succeeded(old.calls()[cid as int]))
                + as_calls(plan, block_index)
            &&& new.run_map().dom() == old.run_map().dom()
            &&& forall|id: Seq<char>|
                #[trigger] old.run_map().contains_key(id) && id != run_id ==> new.run_map()[id]
                    == old.run_map()[id]
            &&& new.run_map()[run_id].next_action_calls_stack@ == run.next_action_calls_stack@
                + Seq::new(plan.len(), |t: int| (first + t) as u64)
            &&& new.run_map()[run_id].action_calls@ == run.action_calls@ + Seq::new(
                plan.len(),
                |t: int| (base + t) as u64,
            )
            &&& new.run_map()[run_id].caller@ == run.caller@
            &&& new.run_map()[run_id].construction_id@ == run.construction_id@
            &&& new.construction_map() == old.construction_map()
            &&& new.action_map() == old.action_map()
            &&& new.ledger() == old.ledger()
            &&& new.self_id() == old.self_id()
        },
    }
}

proof fn lemma_first_item_error(
    con: Construction,
    i: int,
    asset: Seq<char>,
    items: Seq<(Seq<char>, Seq<char>)>,
    n: int,
    k: int,
)
    requires
        0 <= k < n,
        first_item_error(con, i, asset, items, n) is None,
    ensures
        item_error(con, i, asset, items, k) is None,
        first_item_error(con, i, asset, items, k) is None,
    decreases n,
{
    if k < n - 1 {
        lemma_first_item_error(con, i, asset, items, n - 1, k);
    }
}

proof fn lemma_first_item_error_stays(
    con: Construction,
    i: int,
    asset: Seq<char>,
    items: Seq<(Seq<char>, Seq<char>)>,
    k: int,
    n: int,
)
    requires
        0 <= k <= n,
        first_item_error(con, i, asset, items, k) is Some,
    ensures
        first_item_error(con, i, asset, items, n) == first_item_error(con, i, asset, items, k),
    decreases n - k,
{
    if k < n {
        lemma_first_item_error_stays(con, i, asset, items, k + 1, n);
    }
}

/// Checks every result against slot `i`'s routing, in order, and gives
/// their amounts.
fn check_results(con: &Construction, i: usize, asset: &String, items: &Vec<ReturnItem>) -> (r:
    Result<Vec<u128>, EngineError>)
    requires
        i < con.next_actions_indices@.len(),
        i < con.next_actions_splits@.len(),
        items@.len() == slots(*con, i as int),
        slots(*con, i as int) == con.next_actions_splits@[i as int]@.len(),
        slot_shapes_ok(*con, i as int),
    ensures
        match first_item_error(*con, i as int, asset@, items_view(items@), items@.len() as int) {
            Some(e) => r == Err::<Vec<u128>, EngineError>(e),
            None => r matches Ok(a) && a@.len() == items@.len() && forall|j: int|
                0 <= j < items@.len() ==> parsed_u128(#[trigger] items_view(items@)[j].1) == Some(
                    a@[j],
                ),
        },
{
    let ghost itv = items_view(items@);
    let ghost ii = i as int;
    let n = items.len();
    let slot_children = &con.next_actions_indices[i];
    let slot_weights = &con.next_actions_splits[i];
    let mut amounts: Vec<u128> = Vec::new();
    let mut k: usize = 0;
    while k < n
        invariant
            k <= n,
            n == items@.len(),
            n == slot_children@.len(),
            itv == items_view(items@),
            slot_children == con.next_actions_indices@[ii],
            slot_weights == con.next_actions_splits@[ii],
            slot_children@.len() == slot_weights@.len(),
            first_item_error(*con, ii, asset@, itv, k as int) is None,
            ii == i as int,
            first_item_error(*con, i as int, asset@, items_view(items@), items@.len() as int)
                == first_item_error(*con, ii, asset@, itv, n as int),
            amounts@.len() == k,
            forall|j: int| 0 <= j < k ==> parsed_u128(#[trigger] itv[j].1) == Some(amounts@[j]),
        decreases n - k,
    {
        let item = &items[k];
        assert(itv[k as int] == (item.token_id@, item.amount@));
        if item.token_id != *asset {
            assert(item_error(*con, ii, asset@, itv, k as int) == Some(EngineError::AssetMismatch));
            assert(first_item_error(*con, ii, asset@, itv, k as int + 1) == Some(
                EngineError::AssetMismatch,
            ));
            proof {
                lemma_first_item_error_stays(*con, ii, asset@, itv, k as int + 1, n as int);
            }
            return Err(EngineError::AssetMismatch);
        }
        let value = match parse_u128(item.amount.as_str()) {
            None => {
                assert(item_error(*con, ii, asset@, itv, k as int) == Some(EngineError::ParseError));
                assert(first_item_error(*con, ii, asset@, itv, k as int + 1) == Some(
                    EngineError::ParseError,
                ));
                proof {
                    lemma_first_item_error_stays(*con, ii, asset@, itv, k as int + 1, n as int);
                }
                return Err(EngineError::ParseError);
            },
            Some(v) => v,
        };
        if weights_sum_is_zero(&slot_weights[k]) {
            assert(item_error(*con, ii, asset@, itv, k as int) == Some(EngineError::ZeroTotalWeight));
            assert(first_item_error(*con, ii, asset@, itv, k as int + 1) == Some(
                EngineError::ZeroTotalWeight,
            ));
            proof {
                lemma_first_item_error_stays(*con, ii, asset@, itv, k as int + 1, n as int);
            }
            return Err(EngineError::ZeroTotalWeight);
        }
        assert(item_error(*con, ii, asset@, itv, k as int) is None);
        amounts.push(value);
        k = k + 1;
    }
    Ok(amounts)
}

/// Whether every result slot of action `i` has as many weights as next actions.
fn slot_shapes_match(con: &Construction, i: usize) -> (r: bool)
    requires
        i < con.next_actions_indices@.len(),
        i < con.next_actions_splits@.len(),
        slots(*con, i as int) == con.next_actions_splits@[i as int]@.len(),
    ensures
        r == slot_shapes_ok(*con, i as int),
{
    let slot_children = &con.next_actions_indices[i];
    let slot_weights = &con.next_actions_splits[i];
    let mut k: usize = 0;
    while k < slot_children.len()
        invariant
            slot_children == con.next_actions_indices@[i as int],
            slot_weights == con.next_actions_splits@[i as int],
            slot_children@.len() == slot_weights@.len(),
            k <= slot_children@.len(),
            forall|j: int| 0 <= j < k ==> #[trigger] children(*con, i as int, j).len() == weights(
                *con,
                i as int,
                j,
            ).len(),
        decreases slot_children@.len() - k,
    {
        if slot_children[k].len() != slot_weights[k].len() {
            assert(children(*con, i as int, k as int).len() != weights(*con, i as int, k as int).len());
            return false;
        }
        k = k + 1;
    }
    true
}

fn contains_id(v: &Vec<u64>, x: u64) -> (r: bool)
    ensures
        r == v@.contains(x),
{
    let mut i: usize = 0;
    while i < v.len()
        invariant
            i <= v@.len(),
            forall|j: int| 0 <= j < i ==> v@[j] != x,
        decreases v@.len() - i,
    {
        if v[i] == x {
            assert(v@[i as int] == x);
            return true;
        }
        i = i + 1;
    }
    false
}

impl Contract {
    /// Routes the results `items` of step `action_call_id` of run
    /// `construction_call_id`: each result must be in the action's declared
    /// asset and hold a decimal amount, which is split by the weights of its
    /// slot among the slot's next actions. All results are checked before
    /// anything changes.
    pub fn route_results(
        &mut self,
        construction_call_id: &String,
        action_call_id: u64,
        items: &Vec<ReturnItem>,
        block_index: u64,
    ) -> (r: Result<(), EngineError>)
        requires
            old(self).wf(),
        ensures
            final(self).wf(),
            routed(
                *old(self),
                *final(self),
                construction_call_id@,
                action_call_id,
                items_view(items@),
                block_index,
                r,
            ),
    {
        let ghost itv = items_view(items@);
        let cid = action_call_id;
        let run = match self.construction_calls.get(construction_call_id) {
            None => {
                return Err(EngineError::NotFound);
            },
            Some(run) => run,
        };
        if !contains_id(&run.action_calls, cid) {
            return Err(EngineError::NotFound);
        }
        let total = self.action_calls.len();
        if cid >= total as u64 {
            return Err(EngineError::NotFound);
        }
        let con = match self.constructions.get(&run.construction_id) {
            None => {
                return Err(EngineError::NotFound);
            },
            Some(con) => con,
        };
        let idx = self.action_calls[cid as usize].action_index_in_construction;
        let al = con.actions.len();
        if idx >= al as u64 {
            return Err(EngineError::NotFound);
        }
        let i = idx as usize;
        let action = match self.actions.get(&con.actions[i]) {
            None => {
                return Err(EngineError::NotFound);
            },
            Some(a) => a,
        };
        let asset = action.token_id();
        if i >= con.next_actions_indices.len() || i >= con.next_actions_splits.len() {
            return Err(EngineError::RoutingMismatch);
        }
        let slot_children = &con.next_actions_indices[i];
        let slot_weights = &con.next_actions_splits[i];
        let n = items.len();
        if slot_children.len() != slot_weights.len() || n != slot_children.len() {
            return Err(EngineError::RoutingMismatch);
        }
        if !slot_shapes_match(con, i) {
            return Err(EngineError::RoutingMismatch);
        }
        let ghost coni = *con;
        let ghost ii = i as int;
        assert(routing_error(*old(self), construction_call_id@, cid, itv) == first_item_error(
            coni,
            ii,
            asset@,
            itv,
            n as int,
        ));
        let amounts = match check_results(con, i, asset, items) {
            Err(e) => {
                return Err(e);
            },
            Ok(a) => a,
        };
        assert(routing_error(*old(self), construction_call_id@, cid, itv) is None);
        let current = &self.action_calls[cid as usize];
        let done = ActionCall {
            action_index_in_construction: current.action_index_in_construction,
            block_index: current.block_index,
            amount: current.amount,
            status: ActionCallStatus::Success,
        };
        self.action_calls[cid as usize] = done;
        let ghost updated = self.action_calls@;
        let placeholder = ConstructionCall {
            caller: String::new(),
            construction_id: GenericId::new(String::new(), String::new()),
            next_action_calls_stack: Vec::new(),
            action_calls: Vec::new(),
        };
        let mut run = self.construction_calls.swap_value(construction_call_id, placeholder);
        let ghost old_run = run;
        let ghost mid = *self;
        assert(updated == old(self).calls().update(cid as int, succeeded(old(self).calls()[cid as int])));
        let base = self.action_calls.len();
        let first = run.action_calls.len();
        let mut k: usize = 0;
        while k < n
            invariant
                k <= n,
                n == items@.len(),
                n == slot_children@.len(),
                itv == items_view(items@),
                slot_children == coni.next_actions_indices@[ii],
                slot_weights == coni.next_actions_splits@[ii],
                slot_children@.len() == slot_weights@.len(),
                first_item_error(coni, ii, asset@, itv, n as int) is None,
                slot_shapes_ok(coni, ii),
                amounts@.len() == n,
                forall|j: int| 0 <= j < n ==> parsed_u128(#[trigger] itv[j].1) == Some(amounts@[j]),
                base == updated.len(),
                first == old_run.action_calls@.len(),
                self.wf(),
                self.constructions == mid.constructions,
                self.construction_calls == mid.construction_calls,
                self.actions == mid.actions,
                self.balances == mid.balances,
                self.malloc_contract_id == mid.malloc_contract_id,
                self.construction_calls@.contains_key(construction_call_id@),
                self.action_calls@ == updated + as_calls(routed_calls(coni, ii, itv, k as int), block_index),
                run.action_calls@ == old_run.action_calls@ + Seq::new(
                    routed_calls(coni, ii, itv, k as int).len(),
                    |t: int| (base + t) as u64,
                ),
                run.next_action_calls_stack@ == old_run.next_action_calls_stack@ + Seq::new(
                    routed_calls(coni, ii, itv, k as int).len(),
                    |t: int| (first + t) as u64,
                ),
                run.caller == old_run.caller,
                run.construction_id == old_run.construction_id,
            decreases n - k,
        {
            proof {
                lemma_first_item_error(coni, ii, asset@, itv, n as int, k as int);
            }
            assert(children(coni, ii, k as int).len() == weights(coni, ii, k as int).len());
            let kids = &slot_children[k];
            let shares = Construction::get_split_amounts(amounts[k], &slot_weights[k]);
            let ghost done_calls = routed_calls(coni, ii, itv, k as int);
            let ghost slot = slot_calls(coni, ii, k as int, amounts@[k as int]);
            let mut j: usize = 0;
            while j < kids.len()
                invariant
                    j <= kids@.len(),
                    kids == slot_children@[k as int],
                    kids@ == children(coni, ii, k as int),
                    shares@.len() == kids@.len(),
                    forall|t: int| 0 <= t < shares@.len() ==> shares@[t] == split_spec(
                        amounts@[k as int] as nat,
                        weights(coni, ii, k as int),
                    )[t],
                    slot == slot_calls(coni, ii, k as int, amounts@[k as int]),
                    base == updated.len(),
                    first == old_run.action_calls@.len(),
                    self.wf(),
                    self.constructions == mid.constructions,
                    self.construction_calls == mid.construction_calls,
                    self.actions == mid.actions,
                    self.balances == mid.balances,
                    self.malloc_contract_id == mid.malloc_contract_id,
                    self.construction_calls@.contains_key(construction_call_id@),
                    self.action_calls@ == updated + as_calls(done_calls + slot.take(j as int), block_index),
                    run.action_calls@ == old_run.action_calls@ + Seq::new(
                        (done_calls.len() + j) as nat,
                        |t: int| (base + t) as u64,
                    ),
                    run.next_action_calls_stack@ == old_run.next_action_calls_stack@ + Seq::new(
                        (done_calls.len() + j) as nat,
                        |t: int| (first + t) as u64,
                    ),
                    run.caller == old_run.caller,
                    run.construction_id == old_run.construction_id,
                decreases kids@.len() - j,
            {
                let id = self.action_calls.len() as u64;
                let pos = run.action_calls.len() as u64;
                self.action_calls.push(
                    ActionCall {
                        action_index_in_construction: kids[j],
                        block_index,
                        amount: shares[j],
                        status: ActionCallStatus::WaitingCall,
                    },
                );
                run.action_calls.push(id);
                run.next_action_calls_stack.push(pos);
                proof {
                    assert(slot.take(j as int + 1) =~= slot.take(j as int).push(slot[j as int]));
                    assert(done_calls + slot.take(j as int + 1) =~= (done_calls + slot.take(j as int)).push(
                        slot[j as int],
                    ));
                    assert(self.action_calls@ =~= updated + as_calls(
                        done_calls + slot.take(j as int + 1),
                        block_index,
                    ));
                    assert(run.action_calls@ =~= old_run.action_calls@ + Seq::new(
                        (done_calls.len() + j + 1) as nat,
                        |t: int| (base + t) as u64,
                    ));
                    assert(run.next_action_calls_stack@ =~= old_run.next_action_calls_stack@ + Seq::new(
                        (done_calls.len() + j + 1) as nat,
                        |t: int| (first + t) as u64,
                    ));
                }
                j = j + 1;
            }
            assert(slot.take(kids@.len() as int) =~= slot);
            k = k + 1;
        }
        self.construction_calls.replace(construction_call_id, run);
        proof {
            assert(self.run_map().dom() =~= old(self).run_map().dom());
        }
        Ok(())
    }
}

} // verus!

verus! {

/// The message recorded on a step whose reply could not be decoded.
pub open spec fn decode_failure_message() -> Seq<char> {
    seq![
        'E', 'r', 'r', 'o', 'r', ' ', 'd', 'e', 's', 'e', 'r', 'i', 'a', 'l', 'i', 'z', 'i', 'n',
        'g', ' ', 'r', 'e', 's', 'u', 'l', 't'
    ]
}

/// `new` holds the same steps as `old`, but step `cid` is marked as failed
/// with the message `msg`.
pub open spec fn marked_failed(
    old: Seq<ActionCall>,
    new: Seq<ActionCall>,
    cid: int,
    msg: Seq<char>,
) -> bool {
    &&& new.len() == old.len()
    &&& forall|j: int| 0 <= j < old.len() && j != cid ==> new[j] == old[j]
    &&& new[cid].action_index_in_construction == old[cid].action_index_in_construction
    &&& new[cid].block_index == old[cid].block_index
    &&& new[cid].amount == old[cid].amount
    &&& new[cid].status matches ActionCallStatus::Error { message } && message@ == msg
}

impl Contract {
    fn mark_failed(&mut self, cid: u64, message: String)
        requires
            old(self).wf(),
            cid < old(self).calls().len(),
        ensures
            final(self).wf(),
            marked_failed(old(self).calls(), final(self).calls(), cid as int, message@),
            final(self).run_map() == old(self).run_map(),
            final(self).construction_map() == old(self).construction_map(),
            final(self).action_map() == old(self).action_map(),
            final(self).ledger() == old(self).ledger(),
            final(self).self_id() == old(self).self_id(),
    {
        let n = self.action_calls.len();
        assert(cid < n);
        let current = &self.action_calls[cid as usize];
        let failed = ActionCall {
            action_index_in_construction: current.action_index_in_construction,
            block_index: current.block_index,
            amount: current.amount,
            status: ActionCallStatus::Error { message },
        };
        self.action_calls[cid as usize] = failed;
    }

    /// Takes the reply to step `action_call_id` of run `construction_call_id`:
    /// `None` where the step's call failed, which marks the step as failed;
    /// otherwise the bytes it returned, which are decoded (a bare amount is in
    /// `token_return_id`) and routed on as [`Contract::route_results`] does.
    /// A reply that cannot be decoded also marks the step as failed; results
    /// that cannot be routed change nothing.
    pub fn handle_action_callback(
        &mut self,
        construction_call_id: &String,
        action_call_id: u64,
        reply: Option<Vec<u8>>,
        token_return_id: Option<String>,
        block_index: u64,
    ) -> (r: Result<(), EngineError>)
        requires
            old(self).wf(),
        ensures
            final(self).wf(),
            match callback_target_error(*old(self), construction_call_id@, action_call_id) {
                Some(e) => r == Err::<(), EngineError>(e) && *final(self) == *old(self),
                None => match reply {
                    None => {
                        &&& r is Ok
                        &&& marked_failed(
                            old(self).calls(),
                            final(self).calls(),
                            action_call_id as int,
                            failure_message(),
                        )
                        &&& final(self).run_map() == old(self).run_map()
                        &&& final(self).construction_map() == old(self).construction_map()
                        &&& final(self).action_map() == old(self).action_map()
                        &&& final(self).ledger() == old(self).ledger()
                        &&& final(self).self_id() == old(self).self_id()
                    },
                    Some(b) => match reply_items(
                        json_string_of(b@),
                        json_object_list_of(b@),
                        opt_string_view(token_return_id),
                    ) {
                        None => {
                            &&& r is Ok
                            &&& marked_failed(
                                old(self).calls(),
                                final(self).calls(),
                                action_call_id as int,
                                decode_failure_message(),
                            )
                            &&& final(self).run_map() == old(self).run_map()
                            &&& final(self).construction_map() == old(self).construction_map()
                            &&& final(self).action_map() == old(self).action_map()
                            &&& final(self).ledger() == old(self).ledger()
                            &&& final(self).self_id() == old(self).self_id()
                        },
                        Some(items) => routed(
                            *old(self),
                            *final(self),
                            construction_call_id@,
                            action_call_id,
                            items,
                            block_index,
                            r,
                        ),
                    },
                },
            },
    {
        let cid = action_call_id;
        let run = match self.construction_calls.get(construction_call_id) {
            None => {
                return Err(EngineError::NotFound);
            },
            Some(run) => run,
        };
        if !contains_id(&run.action_calls, cid) {
            return Err(EngineError::NotFound);
        }
        let total = self.action_calls.len();
        if cid >= total as u64 {
            return Err(EngineError::NotFound);
        }
        match reply {
            None => {
                let message = "The malloc call failed".to_owned();
                proof {
                    reveal_strlit("The malloc call failed");
                    assert(message@ =~= failure_message());
                }
                self.mark_failed(cid, message);
                Ok(())
            },
            Some(bytes) => {
                let token: Option<&String> = match &token_return_id {
                    Some(t) => Some(t),
                    None => None,
                };
                match get_results_from_returned_bytes(&bytes, token) {
                    Err(_) => {
                        let message = "Error deserializing result".to_owned();
                        proof {
                            reveal_strlit("Error deserializing result");
                            assert(message@ =~= decode_failure_message());
                        }
                        self.mark_failed(cid, message);
                        Ok(())
                    },
                    Ok(items) => self.route_results(construction_call_id, cid, &items, block_index),
                }
            },
        }
    }
}

} // verus!

verus! {

impl Contract {
    /// Records a deposit of `amount` (in decimal) of `token_id` sent by
    /// `sender_id` with the message `msg`.
    pub fn ft_on_transfer(
        &mut self,
        sender_id: &String,
        token_id: &String,
        amount: &String,
        msg: &String,
    ) -> (r: Result<(), EngineError>)
        requires
            old(self).wf(),
        ensures
            final(self).wf(),
            deposited(old(self).ledger(), final(self).ledger(), sender_id@, token_id@, amount@, msg@, r),
            final(self).construction_map() == old(self).construction_map(),
            final(self).action_map() == old(self).action_map(),
            final(self).run_map() == old(self).run_map(),
            final(self).calls() == old(self).calls(),
            final(self).self_id() == old(self).self_id(),
    {
        self.balances.ft_on_transfer(sender_id, token_id, amount, msg)
    }

    /// Settles a transfer of `amount` of `token_id` issued for `account_id`,
    /// from the raw outcome of the call.
    pub fn resolve_internal_ft_transfer_call(
        &mut self,
        account_id: &String,
        token_id: &String,
        amount: u128,
        reply: Option<Vec<u8>>,
    ) -> (r: Result<u128, EngineError>)
        requires
            old(self).wf(),
        ensures
            final(self).wf(),
            settled(
                old(self).ledger(),
                final(self).ledger(),
                account_id@,
                token_id@,
                amount,
                opt_bytes_view(reply),
                r,
            ),
            final(self).construction_map() == old(self).construction_map(),
            final(self).action_map() == old(self).action_map(),
            final(self).run_map() == old(self).run_map(),
            final(self).calls() == old(self).calls(),
            final(self).self_id() == old(self).self_id(),
    {
        self.balances.resolve_internal_ft_transfer_call(account_id, token_id, amount, reply)
    }
}

} // verus!

verus! {

/// Advancing a run whose stack is empty is refused with `StackEmpty`, which
/// [`Contract::process_next_action_call`] reports with nothing changed.
pub proof fn lemma_empty_stack_is_quiescent(c: Contract, run_id: Seq<char>)
    requires
        c.run_map().contains_key(run_id),
        c.run_map()[run_id].next_action_calls_stack@.len() == 0,
    ensures
        next_step(c, run_id) == Err::<(u64, Action), EngineError>(EngineError::StackEmpty),
{
}

/// Results whose first item is in another asset than the step's action
/// declares are refused with `AssetMismatch`: no step is created and neither
/// the ledger nor any run changes.
pub proof fn lemma_asset_mismatch_refused(
    c: Contract,
    new: Contract,
    run_id: Seq<char>,
    cid: u64,
    items: Seq<(Seq<char>, Seq<char>)>,
    block_index: u64,
    r: Result<(), EngineError>,
)
    requires
        routed(c, new, run_id, cid, items, block_index, r),
        callback_target_error(c, run_id, cid) is None,
        c.construction_map().contains_key(c.run_map()[run_id].construction_id@),
        step_index(c, cid) < run_construction(c, run_id).actions@.len(),
        c.action_map().contains_key(
            run_construction(c, run_id).actions@[step_index(c, cid)]@,
        ),
        step_index(c, cid) < run_construction(c, run_id).next_actions_indices@.len(),
        step_index(c, cid) < run_construction(c, run_id).next_actions_splits@.len(),
        slots(run_construction(c, run_id), step_index(c, cid)) == run_construction(
            c,
            run_id,
        ).next_actions_splits@[step_index(c, cid)]@.len(),
        items.len() == slots(run_construction(c, run_id), step_index(c, cid)),
        slot_shapes_ok(run_construction(c, run_id), step_index(c, cid)),
        items.len() > 0,
        items[0].0 != declared_asset(
            c.action_map()[run_construction(c, run_id).actions@[step_index(c, cid)]@],
        ),
    ensures
        r == Err::<(), EngineError>(EngineError::AssetMismatch),
        new == c,
        new.calls() == c.calls(),
        new.ledger() == c.ledger(),
        new.run_map() == c.run_map(),
{
    let con = run_construction(c, run_id);
    let i = step_index(c, cid);
    let asset = declared_asset(c.action_map()[con.actions@[i]@]);
    assert(first_item_error(con, i, asset, items, 0) is None);
    assert(item_error(con, i, asset, items, 0) == Some(EngineError::AssetMismatch));
    assert(first_item_error(con, i, asset, items, 1) == Some(EngineError::AssetMismatch));
    lemma_first_item_error_stays(con, i, asset, items, 1, items.len() as int);
}

} // verus!

verus! {

/// Why entry `k` of a batch of actions cannot be registered by `owner` after
/// the entries before it, if it cannot.
pub open spec fn batch_entry_error(
    c: Contract,
    owner: Seq<char>,
    names: Seq<String>,
    actions: Seq<Action>,
    k: int,
) -> Option<EngineError> {
    if !action_accounts_valid(actions[k]) {
        Some(EngineError::InvalidAccountId)
    } else if c.action_map().contains_key((owner, names[k]@)) || exists|j: int|
        0 <= j < k && #[trigger] names[j]@ == names[k]@ {
        Some(EngineError::AlreadyRegistered)
    } else {
        None
    }
}

/// The first error among the first `k` entries of a batch.
pub open spec fn first_batch_error(
    c: Contract,
    owner: Seq<char>,
    names: Seq<String>,
    actions: Seq<Action>,
    k: int,
) -> Option<EngineError>
    decreases k,
{
    if k <= 0 {
        None
    } else {
        match first_batch_error(c, owner, names, actions, k - 1) {
            Some(e) => Some(e),
            None => batch_entry_error(c, owner, names, actions, k - 1),
        }
    }
}

/// Why a batch of actions cannot be registered, if it cannot.
pub open spec fn batch_error(
    c: Contract,
    owner: Seq<char>,
    names: Seq<String>,
    actions: Seq<Action>,
) -> Option<EngineError> {
    if names.len() != actions.len() {
        Some(EngineError::NumbOfNodesNotEqualToNumbNames)
    } else {
        first_batch_error(c, owner, names, actions, names.len() as int)
    }
}

proof fn lemma_first_batch_error_stays(
    c: Contract,
    owner: Seq<char>,
    names: Seq<String>,
    actions: Seq<Action>,
    k: int,
    n: int,
)
    requires
        0 <= k <= n,
        first_batch_error(c, owner, names, actions, k) is Some,
    ensures
        first_batch_error(c, owner, names, actions, n) == first_batch_error(c, owner, names, actions, k),
    decreases n - k,
{
    if k < n {
        lemma_first_batch_error_stays(c, owner, names, actions, k + 1, n);
    }
}

proof fn lemma_first_batch_error_none(
    c: Contract,
    owner: Seq<char>,
    names: Seq<String>,
    actions: Seq<Action>,
    k: int,
    n: int,
)
    requires
        0 <= k < n,
        first_batch_error(c, owner, names, actions, n) is None,
    ensures
        batch_entry_error(c, owner, names, actions, k) is None,
    decreases n,
{
    if k < n - 1 {
        lemma_first_batch_error_none(c, owner, names, actions, k, n - 1);
    }
}

fn name_repeats(names: &Vec<String>, k: usize) -> (r: bool)
    requires
        k < names@.len(),
    ensures
        r == exists|j: int| 0 <= j < k && #[trigger] names@[j]@ == names@[k as int]@,
{
    let mut j: usize = 0;
    while j < k
        invariant
            j <= k,
            k < names@.len(),
            forall|t: int| 0 <= t < j ==> names@[t]@ != names@[k as int]@,
        decreases k - j,
    {
        if names[j] == names[k] {
            return true;
        }
        j = j + 1;
    }
    false
}

impl Contract {
    /// Registers `actions[i]` under (`owner`, `action_names[i]`) for every
    /// `i`, all or none: the batch is refused, with nothing registered, when
    /// the two lists differ in length, or at its first entry that names an
    /// invalid account or a key that is registered or repeated in the batch.
    pub fn register_actions(
        &mut self,
        owner: &String,
        action_names: Vec<String>,
        actions: Vec<Action>,
    ) -> (r: Result<(), EngineError>)
        requires
            old(self).wf(),
        ensures
            final(self).wf(),
            match batch_error(*old(self), owner@, action_names@, actions@) {
                Some(e) => r == Err::<(), EngineError>(e) && *final(self) == *old(self),
                None => {
                    &&& r is Ok
                    &&& forall|key: (Seq<char>, Seq<char>)|
                        #[trigger] final(self).action_map().contains_key(key) <==> (old(self).action_map().contains_key(key) || exists|k: int|
                            0 <= k < action_names@.len() && key == (owner@, action_names@[k]@))
                    &&& forall|key: (Seq<char>, Seq<char>)|
                        #[trigger] old(self).action_map().contains_key(key) ==> final(self).action_map()[key] == old(self).action_map()[key]
                    &&& forall|k: int|
                        0 <= k < action_names@.len() ==> final(self).action_map()[(
                            owner@,
                            #[trigger] action_names@[k]@,
                        )] == actions@[k]
                    &&& final(self).construction_map() == old(self).construction_map()
                    &&& final(self).run_map() == old(self).run_map()
                    &&& final(self).calls() == old(self).calls()
                    &&& final(self).ledger() == old(self).ledger()
                    &&& final(self).self_id() == old(self).self_id()
                },
            },
    {
        let n = action_names.len();
        if n != actions.len() {
            return Err(EngineError::NumbOfNodesNotEqualToNumbNames);
        }
        let mut k: usize = 0;
        while k < n
            invariant
                k <= n,
                n == action_names@.len(),
                n == actions@.len(),
                self.wf(),
                *self == *old(self),
                first_batch_error(*self, owner@, action_names@, actions@, k as int) is None,
            decreases n - k,
        {
            let key = GenericId::new(action_names[k].clone(), owner.clone());
            let bad = if !check_action_accounts(&actions[k]) {
                Some(EngineError::InvalidAccountId)
            } else if self.actions.contains(&key) || name_repeats(&action_names, k) {
                Some(EngineError::AlreadyRegistered)
            } else {
                None
            };
            assert(bad == batch_entry_error(*self, owner@, action_names@, actions@, k as int));
            match bad {
                Some(e) => {
                    proof {
                        lemma_first_batch_error_stays(
                            *self,
                            owner@,
                            action_names@,
                            actions@,
                            k as int + 1,
                            n as int,
                        );
                    }
                    return Err(e);
                },
                None => {},
            }
            k = k + 1;
        }
        let ghost pre = *self;
        let ghost all_names = action_names@;
        let ghost all_actions = actions@;
        let mut names = action_names;
        let mut acts = actions;
        while names.len() > 0
            invariant
                names@.len() == acts@.len(),
                names@.len() <= n,
                n == all_names.len(),
                names@ == all_names.subrange(0, names@.len() as int),
                acts@ == all_actions.subrange(0, acts@.len() as int),
                batch_error(pre, owner@, all_names, all_actions) is None,
                pre.wf(),
                self.wf(),
                self.constructions == pre.constructions,
                self.construction_calls == pre.construction_calls,
                self.action_calls == pre.action_calls,
                self.balances == pre.balances,
                self.malloc_contract_id == pre.malloc_contract_id,
                forall|key: (Seq<char>, Seq<char>)|
                    #[trigger] self.action_map().contains_key(key) <==> (pre.action_map().contains_key(
                        key,
                    ) || exists|k: int| names@.len() <= k < n && key == (owner@, all_names[k]@)),
                forall|key: (Seq<char>, Seq<char>)|
                    #[trigger] pre.action_map().contains_key(key) ==> self.action_map()[key]
                        == pre.action_map()[key],
                forall|k: int|
                    names@.len() <= k < n ==> self.action_map()[(owner@, #[trigger] all_names[k]@)]
                        == all_actions[k],
            decreases names@.len(),
        {
            let m = names.len() - 1;
            proof {
                lemma_first_batch_error_none(pre, owner@, all_names, all_actions, m as int, n as int);
            }
            let name = names.pop().unwrap();
            let action = acts.pop().unwrap();
            let key = GenericId::new(name, owner.clone());
            assert(key@ == (owner@, all_names[m as int]@));
            assert(!self.action_map().contains_key(key@)) by {
                if self.action_map().contains_key(key@) {
                    if !pre.action_map().contains_key(key@) {
                        let t = choose|t: int|
                            m + 1 <= t < n && key@ == (owner@, #[trigger] all_names[t]@);
                        lemma_first_batch_error_none(pre, owner@, all_names, all_actions, t, n as int);
                        assert(all_names[m as int]@ == all_names[t]@);
                    }
                }
            }
            self.actions.insert_new(key, action);
            proof {
                assert(names@ =~= all_names.subrange(0, m as int));
                assert(acts@ =~= all_actions.subrange(0, m as int));
                assert forall|k: int| m <= k < n implies self.action_map()[(owner@, #[trigger] all_names[k]@)]
                    == all_actions[k] by {
                    if k > m && all_names[k]@ == all_names[m as int]@ {
                        lemma_first_batch_error_none(pre, owner@, all_names, all_actions, k, n as int);
                    }
                }
            }
        }
        Ok(())
    }
}

} // verus!
