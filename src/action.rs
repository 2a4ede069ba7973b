use vstd::prelude::*;
use crate::errors::EngineError;
use crate::ledger::FungibleTokenBalances;
use crate::methods::{call_method_bytes, call_method_name};

verus! {

/// Where a step stands.
#[derive(Clone, Debug)]
pub enum ActionCallStatus {
    /// The step's call failed.
    Error { message: String },
    /// The step is waiting to be started.
    WaitingCall,
    /// The step's call was issued at `block_index_start` and has not replied yet.
    Executing { block_index_start: u64 },
    /// The step's call replied and its results were routed on.
    Success,
}

/// One scheduled invocation of an action within a run.
#[derive(Clone, Debug)]
pub struct ActionCall {
    pub action_index_in_construction: u64,
    pub block_index: u64,
    pub amount: u128,
    pub status: ActionCallStatus,
}

/// Sends tokens to a contract with `ft_transfer_call`.
#[derive(Clone, Debug)]
pub struct FtTransferCallToMallocCall {
    pub malloc_call_id: String,
    pub token_id: String,
}

/// Asks a contract to withdraw the caller's tokens to a recipient, or back to
/// this contract where no recipient is given.
#[derive(Clone, Debug)]
pub struct WithdrawFromMallocCall {
    pub malloc_call_id: String,
    pub token_id: String,
    pub recipient: Option<String>,
}

/// Calls a contract's `malloc_call` method with a payload, after sending it
/// the step's tokens unless told to skip the transfer.
#[derive(Clone, Debug)]
pub struct MallocCall {
    pub check_callback: Option<bool>,
    pub skip_ft_transfer: Option<bool>,
    pub malloc_call_id: String,
    pub token_id: String,
    pub json_args: String,
    pub gas: u64,
    pub attached_amount: u128,
}

/// A step kind, with its static parameters.
#[derive(Clone, Debug)]
pub enum Action {
    FtTransferCallToMallocCall(FtTransferCallToMallocCall),
    WithdrawFromMallocCall(WithdrawFromMallocCall),
    MallocCall(MallocCall),
}

/// How a withdrawal hands the tokens on.
#[derive(Clone, Copy, Debug, PartialEq, Eq, Structural)]
pub enum TransferType {
    /// A plain `ft_transfer` to an account.
    Transfer,
    /// An `ft_transfer_call` back into a contract of this kind.
    TransferCallMalloc,
}

/// A token transfer to issue on a sender's behalf, already debited from the
/// sender's balance: `ft_transfer_call` of `amount` of `token_id` to `receiver_id`.
#[derive(Clone, Debug)]
pub struct TransferCall {
    pub token_id: String,
    pub receiver_id: String,
    pub amount: u128,
    pub sender_id: String,
}

/// Where a step's reply is to be delivered.
#[derive(Clone, Debug)]
pub struct Continuation {
    pub construction_call_id: String,
    pub action_call_id: u64,
    pub caller: String,
    /// The asset that a reply holding a bare amount is in.
    pub token_return_id: Option<String>,
}

/// A call with a payload: `method_name` on `contract_id`, told the step's
/// amount, asset and caller.
#[derive(Clone, Debug)]
pub struct PayloadCall {
    pub contract_id: String,
    pub method_name: Vec<u8>,
    pub json_args: String,
    pub amount: u128,
    pub token_id: String,
    pub caller: String,
    pub attached_amount: u128,
    pub gas: u64,
}

/// The outside work that a step asks for, to be issued by the host.
#[derive(Clone, Debug)]
pub enum Dispatch {
    TransferCall { transfer: TransferCall, callback: Continuation },
    Withdraw {
        malloc_call_id: String,
        account_id: String,
        amount: u128,
        token_id: String,
        recipient: String,
        transfer_type: TransferType,
        callback: Continuation,
    },
    MallocCall { transfer: Option<TransferCall>, call: PayloadCall, callback: Option<Continuation> },
}

/// The asset that an action declares.
pub open spec fn declared_asset(a: Action) -> Seq<char> {
    match a {
        Action::FtTransferCallToMallocCall(x) => x.token_id@,
        Action::WithdrawFromMallocCall(x) => x.token_id@,
        Action::MallocCall(x) => x.token_id@,
    }
}

/// Whether a payload call sends the step's tokens first.
pub open spec fn sends_tokens(m: MallocCall, amount: u128) -> bool {
    amount > 0 && m.skip_ft_transfer != Some(true)
}

/// The token that handling an action debits from the caller, if any.
pub open spec fn debited_token(a: Action, amount: u128) -> Option<Seq<char>> {
    match a {
        Action::FtTransferCallToMallocCall(x) => Some(x.token_id@),
        Action::WithdrawFromMallocCall(_) => None,
        Action::MallocCall(m) => if sends_tokens(m, amount) {
            Some(m.token_id@)
        } else {
            None
        },
    }
}

pub open spec fn transfer_is(
    t: TransferCall,
    token: Seq<char>,
    receiver: Seq<char>,
    amount: u128,
    sender: Seq<char>,
) -> bool {
    t.token_id@ == token && t.receiver_id@ == receiver && t.amount == amount && t.sender_id@
        == sender
}

pub open spec fn continuation_is(
    c: Continuation,
    run: Seq<char>,
    call_id: u64,
    caller: Seq<char>,
    token: Option<Seq<char>>,
) -> bool {
    &&& c.construction_call_id@ == run
    &&& c.action_call_id == call_id
    &&& c.caller@ == caller
    &&& match (c.token_return_id, token) {
        (Some(x), Some(y)) => x@ == y,
        (None, None) => true,
        _ => false,
    }
}

/// The outside work that `a` asks for when it runs with `amount` as step
/// `call_id` of run `run`, on behalf of `caller`, in the contract `self_id`.
pub open spec fn dispatch_for(
    d: Dispatch,
    a: Action,
    amount: u128,
    run: Seq<char>,
    call_id: u64,
    caller: Seq<char>,
    self_id: Seq<char>,
) -> bool {
    match a {
        Action::FtTransferCallToMallocCall(x) => match d {
            Dispatch::TransferCall { transfer, callback } => transfer_is(
                transfer,
                x.token_id@,
                x.malloc_call_id@,
                amount,
                caller,
            ) && continuation_is(callback, run, call_id, caller, Some(x.token_id@)),
            _ => false,
        },
        Action::WithdrawFromMallocCall(x) => match d {
            Dispatch::Withdraw {
                malloc_call_id,
                account_id,
                amount: w_amount,
                token_id,
                recipient,
                transfer_type,
                callback,
            } => {
                &&& malloc_call_id@ == x.malloc_call_id@
                &&& account_id@ == caller
                &&& w_amount == amount
                &&& token_id@ == x.token_id@
                &&& recipient@ == match x.recipient {
                    Some(r) => r@,
                    None => self_id,
                }
                &&& transfer_type == if x.recipient is None {
                    TransferType::TransferCallMalloc
                } else {
                    TransferType::Transfer
                }
                &&& continuation_is(callback, run, call_id, caller, Some(x.token_id@))
            },
            _ => false,
        },
        Action::MallocCall(m) => match d {
            Dispatch::MallocCall { transfer, call, callback } => {
                &&& match transfer {
                    Some(t) => sends_tokens(m, amount) && transfer_is(
                        t,
                        m.token_id@,
                        m.malloc_call_id@,
                        amount,
                        caller,
                    ),
                    None => !sends_tokens(m, amount),
                }
                &&& call.contract_id@ == m.malloc_call_id@
                &&& call.method_name@ == call_method_bytes()
                &&& call.json_args@ == m.json_args@
                &&& call.amount == amount
                &&& call.token_id@ == m.token_id@
                &&& call.caller@ == caller
                &&& call.attached_amount == m.attached_amount
                &&& call.gas == m.gas
                &&& match callback {
                    Some(c) => m.check_callback != Some(false) && continuation_is(
                        c,
                        run,
                        call_id,
                        caller,
                        None,
                    ),
                    None => m.check_callback == Some(false),
                }
            },
            _ => false,
        },
    }
}

fn continuation(run: &String, call_id: u64, caller: &String, token: Option<&String>) -> (r:
    Continuation)
    ensures
        continuation_is(
            r,
            run@,
            call_id,
            caller@,
            match token {
                Some(t) => Some(t@),
                None => None,
            },
        ),
{
    Continuation {
        construction_call_id: run.clone(),
        action_call_id: call_id,
        caller: caller.clone(),
        token_return_id: match token {
            Some(t) => Some(t.clone()),
            None => None,
        },
    }
}

fn transfer(token: &String, receiver: &String, amount: u128, sender: &String) -> (r: TransferCall)
    ensures
        transfer_is(r, token@, receiver@, amount, sender@),
{
    TransferCall {
        token_id: token.clone(),
        receiver_id: receiver.clone(),
        amount,
        sender_id: sender.clone(),
    }
}

/// Undoing what issuing a step did to the ledger, for when its outside work
/// could not be issued at all.
pub trait Revert {
    /// The account, token and amount to give back, if any.
    spec fn refund(&self) -> Option<(Seq<char>, Seq<char>, u128)>;

    fn revert(&self, ledger: &mut FungibleTokenBalances) -> (r: Result<(), EngineError>)
        requires
            old(ledger).wf(),
        ensures
            final(ledger).wf(),
            match self.refund() {
                None => r is Ok && *final(ledger) == *old(ledger),
                Some((a, t, x)) => {
                    &&& (r is Ok <==> old(ledger).balance(a, t) + x <= u128::MAX)
                    &&& r is Ok ==> final(ledger).balance(a, t) == old(ledger).balance(a, t) + x
                        && final(ledger).same_except(old(ledger), a, t)
                    &&& r is Err ==> r == Err::<(), EngineError>(EngineError::BalanceOverflow)
                        && *final(ledger) == *old(ledger)
                },
            },
    ;
}

impl Revert for Dispatch {
    /// A dispatch gives back the transfer it debited, if it made one.
    open spec fn refund(&self) -> Option<(Seq<char>, Seq<char>, u128)> {
        match self {
            Dispatch::TransferCall { transfer, .. } => Some(
                (transfer.sender_id@, transfer.token_id@, transfer.amount),
            ),
            Dispatch::MallocCall { transfer: Some(t), .. } => Some(
                (t.sender_id@, t.token_id@, t.amount),
            ),
            _ => None,
        }
    }

    fn revert(&self, ledger: &mut FungibleTokenBalances) -> (r: Result<(), EngineError>) {
        match self {
            Dispatch::TransferCall { transfer, .. } => ledger.credit(
                &transfer.sender_id,
                &transfer.token_id,
                transfer.amount,
            ),
            Dispatch::MallocCall { transfer: Some(t), .. } => ledger.credit(
                &t.sender_id,
                &t.token_id,
                t.amount,
            ),
            _ => Ok(()),
        }
    }
}

impl Action {
    /// The asset this action declares.
    pub fn token_id(&self) -> (r: &String)
        ensures
            r@ == declared_asset(*self),
    {
        match self {
            Action::FtTransferCallToMallocCall(x) => &x.token_id,
            Action::WithdrawFromMallocCall(x) => &x.token_id,
            Action::MallocCall(x) => &x.token_id,
        }
    }

    /// Starts the action for a step: debits the caller's balance where the
    /// action sends tokens, and says what outside work to issue and where its
    /// reply goes. Refused, with nothing changed, when the balance is too small.
    pub fn handle_action(
        &self,
        ledger: &mut FungibleTokenBalances,
        action_call: &ActionCall,
        construction_call_id: &String,
        action_call_id: u64,
        caller: &String,
        self_id: &String,
    ) -> (r: Result<Dispatch, EngineError>)
        requires
            old(ledger).wf(),
        ensures
            final(ledger).wf(),
            match debited_token(*self, action_call.amount) {
                Some(t) => {
                    &&& (r is Ok <==> action_call.amount <= old(ledger).balance(caller@, t))
                    &&& r is Ok ==> final(ledger).balance(caller@, t) == old(ledger).balance(
                        caller@,
                        t,
                    ) - action_call.amount && final(ledger).same_except(old(ledger), caller@, t)
                    &&& r is Err ==> r == Err::<Dispatch, EngineError>(
                        EngineError::InsufficientFunds,
                    ) && *final(ledger) == *old(ledger)
                },
                None => r is Ok && *final(ledger) == *old(ledger),
            },
            r matches Ok(d) ==> dispatch_for(
                d,
                *self,
                action_call.amount,
                construction_call_id@,
                action_call_id,
                caller@,
                self_id@,
            ),
    {
        let amount = action_call.amount;
        match self {
            Action::FtTransferCallToMallocCall(x) => {
                match ledger.debit_for_transfer(caller, &x.token_id, amount) {
                    Err(e) => Err(e),
                    Ok(()) => Ok(
                        Dispatch::TransferCall {
                            transfer: transfer(&x.token_id, &x.malloc_call_id, amount, caller),
                            callback: continuation(
                                construction_call_id,
                                action_call_id,
                                caller,
                                Some(&x.token_id),
                            ),
                        },
                    ),
                }
            },
            Action::WithdrawFromMallocCall(x) => {
                let (recipient, transfer_type) = match &x.recipient {
                    Some(r) => (r.clone(), TransferType::Transfer),
                    None => (self_id.clone(), TransferType::TransferCallMalloc),
                };
                Ok(
                    Dispatch::Withdraw {
                        malloc_call_id: x.malloc_call_id.clone(),
                        account_id: caller.clone(),
                        amount,
                        token_id: x.token_id.clone(),
                        recipient,
                        transfer_type,
                        callback: continuation(
                            construction_call_id,
                            action_call_id,
                            caller,
                            Some(&x.token_id),
                        ),
                    },
                )
            },
            Action::MallocCall(m) => {
                let skip = match m.skip_ft_transfer {
                    Some(b) => b,
                    None => false,
                };
                let sent = if amount > 0 && !skip {
                    match ledger.debit_for_transfer(caller, &m.token_id, amount) {
                        Err(e) => {
                            return Err(e);
                        },
                        Ok(()) => Some(transfer(&m.token_id, &m.malloc_call_id, amount, caller)),
                    }
                } else {
                    None
                };
                let call = PayloadCall {
                    contract_id: m.malloc_call_id.clone(),
                    method_name: call_method_name(),
                    json_args: m.json_args.clone(),
                    amount,
                    token_id: m.token_id.clone(),
                    caller: caller.clone(),
                    attached_amount: m.attached_amount,
                    gas: m.gas,
                };
                let wants_callback = match m.check_callback {
                    Some(b) => b,
                    None => true,
                };
                let callback = if wants_callback {
                    Some(continuation(construction_call_id, action_call_id, caller, None))
                } else {
                    None
                };
                Ok(Dispatch::MallocCall { transfer: sent, call, callback })
            },
        }
    }
}

} // verus!
