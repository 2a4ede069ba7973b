use vstd::prelude::*;
use crate::decimal::{parse_u128, parsed_u128};
use crate::errors::EngineError;
use crate::json::{decode_json_object, decode_json_string, field_of, find_field, json_object_of, json_string_of};
use crate::table::{Table, TableKey};

verus! {

/// The key of a balance: the account that owns it and the token it is in.
pub struct BalanceKey {
    pub account_id: String,
    pub token_id: String,
}

impl View for BalanceKey {
    type V = (Seq<char>, Seq<char>);

    open spec fn view(&self) -> (Seq<char>, Seq<char>) {
        (self.account_id@, self.token_id@)
    }
}

impl TableKey for BalanceKey {
    fn same_key(&self, other: &Self) -> (r: bool) {
        self.account_id == other.account_id && self.token_id == other.token_id
    }
}

pub open spec fn sender_id_key() -> Seq<char> {
    seq!['s', 'e', 'n', 'd', 'e', 'r', '_', 'i', 'd']
}

/// The account that a deposit is credited to: the sender, unless the message
/// is a JSON object naming another account under `sender_id`.
pub open spec fn deposit_beneficiary(sender: Seq<char>, msg: Seq<char>) -> Option<Seq<char>> {
    if msg.len() == 0 {
        Some(sender)
    } else {
        match json_object_of(msg) {
            Some(o) => field_of(o, sender_id_key()),
            None => None,
        }
    }
}

/// The amount that a transfer's receiver reports having used: the reply is a
/// JSON string holding a decimal amount.
pub open spec fn reported_used(reply: Seq<u8>) -> Option<u128> {
    match json_string_of(reply) {
        Some(s) => parsed_u128(s),
        None => None,
    }
}

pub open spec fn opt_bytes_view(o: Option<Vec<u8>>) -> Option<Seq<u8>> {
    match o {
        Some(b) => Some(b@),
        None => None,
    }
}

/// `new` is the ledger `old` after a transfer of `amount` of `token` from
/// `account` was settled with the raw outcome `reply`, and `r` the result.
pub open spec fn settled(
    old: FungibleTokenBalances,
    new: FungibleTokenBalances,
    account: Seq<char>,
    token: Seq<char>,
    amount: u128,
    reply: Option<Seq<u8>>,
    r: Result<u128, EngineError>,
) -> bool {
    let used: Option<u128> = match reply {
        Some(b) => reported_used(b),
        None => None,
    };
    if amount == 0 {
        r == Ok::<u128, EngineError>(0) && new == old
    } else if reply is Some && used is None {
        r == Err::<u128, EngineError>(EngineError::ParseError) && new == old
    } else {
        let refund: int = match used {
            Some(u) => amount - u,
            None => amount as int,
        };
        let spent: u128 = match used {
            Some(u) => u,
            None => 0,
        };
        if refund < 0 {
            r == Err::<u128, EngineError>(EngineError::MoreUsedThanAllowed) && new == old
        } else if old.balance(account, token) + refund > u128::MAX {
            r == Err::<u128, EngineError>(EngineError::BalanceOverflow) && new == old
        } else {
            r == Ok::<u128, EngineError>(spent) && new.balance(
                account,
                token,
            ) == old.balance(account, token) + refund && new.same_except(&old, account, token)
        }
    }
}

/// `new` is the ledger `old` after `sender` deposited `amount_text` of `token`
/// with the message `msg`, and `r` the result.
pub open spec fn deposited(
    old: FungibleTokenBalances,
    new: FungibleTokenBalances,
    sender: Seq<char>,
    token: Seq<char>,
    amount_text: Seq<char>,
    msg: Seq<char>,
    r: Result<(), EngineError>,
) -> bool {
    let who = deposit_beneficiary(sender, msg);
    let value = parsed_u128(amount_text);
    if who is None || value is None {
        r == Err::<(), EngineError>(EngineError::ParseError) && new == old
    } else if old.balance(who->0, token) + value->0 > u128::MAX {
        r == Err::<(), EngineError>(EngineError::BalanceOverflow) && new == old
    } else {
        r is Ok && new.balance(who->0, token) == old.balance(
            who->0,
            token,
        ) + value->0 && new.same_except(&old, who->0, token)
    }
}

/// Per-account, per-token balances of the tokens deposited with the contract.
pub struct FungibleTokenBalances {
    balances: Table<BalanceKey, u128>,
}

impl FungibleTokenBalances {
    pub closed spec fn wf(&self) -> bool {
        self.balances.wf()
    }

    pub closed spec fn view(&self) -> Map<(Seq<char>, Seq<char>), u128> {
        self.balances@
    }

    /// The balance of `account` in `token`; zero where nothing was deposited.
    pub open spec fn balance(&self, account: Seq<char>, token: Seq<char>) -> u128 {
        if self@.contains_key((account, token)) {
            self@[(account, token)]
        } else {
            0
        }
    }

    /// Every balance but that of `account` in `token` is the same in `self` and `other`.
    pub open spec fn same_except(&self, other: &Self, account: Seq<char>, token: Seq<char>) -> bool {
        forall|a: Seq<char>, t: Seq<char>|
            (a, t) != (account, token) ==> #[trigger] self.balance(a, t) == other.balance(a, t)
    }

    pub fn new() -> (r: Self)
        ensures
            r.wf(),
            forall|a: Seq<char>, t: Seq<char>| #[trigger] r.balance(a, t) == 0,
    {
        FungibleTokenBalances { balances: Table::new() }
    }

    pub fn get_ft_balance(&self, account_id: &String, token_id: &String) -> (r: u128)
        requires
            self.wf(),
        ensures
            r == self.balance(account_id@, token_id@),
    {
        let key = BalanceKey { account_id: account_id.clone(), token_id: token_id.clone() };
        match self.balances.get(&key) {
            Some(b) => *b,
            None => 0,
        }
    }

    fn set_balance(&mut self, account_id: &String, token_id: &String, amount: u128)
        requires
            old(self).wf(),
        ensures
            final(self).wf(),
            final(self).balance(account_id@, token_id@) == amount,
            final(self).same_except(old(self), account_id@, token_id@),
    {
        let key = BalanceKey { account_id: account_id.clone(), token_id: token_id.clone() };
        if self.balances.contains(&key) {
            self.balances.replace(&key, amount);
        } else {
            self.balances.insert_new(key, amount);
        }
    }

    /// Adds `amount` to the balance of `account_id` in `token_id`.
    pub fn credit(&mut self, account_id: &String, token_id: &String, amount: u128) -> (r: Result<
        (),
        EngineError,
    >)
        requires
            old(self).wf(),
        ensures
            final(self).wf(),
            old(self).balance(account_id@, token_id@) + amount <= u128::MAX <==> r is Ok,
            r is Ok ==> final(self).balance(account_id@, token_id@) == old(self).balance(
                account_id@,
                token_id@,
            ) + amount && final(self).same_except(old(self), account_id@, token_id@),
            r is Err ==> r == Err::<(), EngineError>(EngineError::BalanceOverflow) && *final(self) == *old(self),
    {
        let current = self.get_ft_balance(account_id, token_id);
        if current > u128::MAX - amount {
            return Err(EngineError::BalanceOverflow);
        }
        self.set_balance(account_id, token_id, current + amount);
        Ok(())
    }

    /// Takes `amount` off the balance of `account_id` in `token_id` before a
    /// transfer out is issued; refused when the balance is smaller.
    pub fn debit_for_transfer(&mut self, account_id: &String, token_id: &String, amount: u128) -> (r:
        Result<(), EngineError>)
        requires
            old(self).wf(),
        ensures
            final(self).wf(),
            amount <= old(self).balance(account_id@, token_id@) <==> r is Ok,
            r is Ok ==> final(self).balance(account_id@, token_id@) == old(self).balance(
                account_id@,
                token_id@,
            ) - amount && final(self).same_except(old(self), account_id@, token_id@),
            r is Err ==> r == Err::<(), EngineError>(EngineError::InsufficientFunds) && *final(self) == *old(self),
    {
        let current = self.get_ft_balance(account_id, token_id);
        if current < amount {
            return Err(EngineError::InsufficientFunds);
        }
        self.set_balance(account_id, token_id, current - amount);
        Ok(())
    }

    /// Settles a transfer of `amount` once its outcome is known: `used` is what
    /// the receiver reports having used, or `None` where the transfer failed.
    /// What was not used goes back to the balance; the result is what was used.
    pub fn resolve_transfer_result(
        &mut self,
        account_id: &String,
        token_id: &String,
        amount: u128,
        used: Option<u128>,
    ) -> (r: Result<u128, EngineError>)
        requires
            old(self).wf(),
        ensures
            final(self).wf(),
            ({
                let refund: int = match used {
                    Some(u) => amount - u,
                    None => amount as int,
                };
                let spent: u128 = match used {
                    Some(u) => u,
                    None => 0,
                };
                if amount == 0 {
                    r == Ok::<u128, EngineError>(0) && *final(self) == *old(self)
                } else if refund < 0 {
                    r == Err::<u128, EngineError>(EngineError::MoreUsedThanAllowed) && *final(self) == *old(self)
                } else if old(self).balance(account_id@, token_id@) + refund > u128::MAX {
                    r == Err::<u128, EngineError>(EngineError::BalanceOverflow) && *final(self) == *old(self)
                } else {
                    r == Ok::<u128, EngineError>(spent) && final(self).balance(account_id@, token_id@)
                        == old(self).balance(account_id@, token_id@) + refund && final(self).same_except(old(self), account_id@, token_id@)
                }
            }),
    {
        if amount == 0 {
            return Ok(0);
        }
        let (refund, spent) = match used {
            Some(u) => {
                if u > amount {
                    return Err(EngineError::MoreUsedThanAllowed);
                }
                (amount - u, u)
            },
            None => (amount, 0),
        };
        match self.credit(account_id, token_id, refund) {
            Ok(()) => Ok(spent),
            Err(e) => Err(e),
        }
    }

    /// Settles a transfer from the raw outcome of the call: `reply` is what the
    /// receiver returned, or `None` where the call failed.
    pub fn resolve_internal_ft_transfer_call(
        &mut self,
        account_id: &String,
        token_id: &String,
        amount: u128,
        reply: Option<Vec<u8>>,
    ) -> (r: Result<u128, EngineError>)
        requires
            old(self).wf(),
        ensures
            final(self).wf(),
            settled(*old(self), *final(self), account_id@, token_id@, amount, opt_bytes_view(reply), r),
    {
        if amount == 0 {
            return Ok(0);
        }
        let used = match reply {
            None => None,
            Some(bytes) => {
                let text = decode_json_string(&bytes);
                match text {
                    None => {
                        return Err(EngineError::ParseError);
                    },
                    Some(s) => match parse_u128(s.as_str()) {
                        None => {
                            return Err(EngineError::ParseError);
                        },
                        Some(u) => Some(u),
                    },
                }
            },
        };
        self.resolve_transfer_result(account_id, token_id, amount, used)
    }

    /// Records a deposit of `amount` (in decimal) of `token_id`, sent by
    /// `sender_id` with the message `msg`.
    pub fn ft_on_transfer(
        &mut self,
        sender_id: &String,
        token_id: &String,
        amount: &String,
        msg: &String,
    ) -> (r: Result<(), EngineError>)
        requires
            old(self).wf(),
        ensures
            final(self).wf(),
            deposited(*old(self), *final(self), sender_id@, token_id@, amount@, msg@, r),
    {
        let who: String;
        if msg.as_str().unicode_len() == 0 {
            who = sender_id.clone();
        } else {
            let key = "sender_id".to_owned();
            proof {
                reveal_strlit("sender_id");
                assert(key@ =~= sender_id_key());
            }
            match decode_json_object(msg.as_str()) {
                None => {
                    return Err(EngineError::ParseError);
                },
                Some(o) => match find_field(&o, &key) {
                    None => {
                        return Err(EngineError::ParseError);
                    },
                    Some(s) => {
                        who = s;
                    },
                },
            }
        }
        let value = match parse_u128(amount.as_str()) {
            None => {
                return Err(EngineError::ParseError);
            },
            Some(v) => v,
        };
        self.credit(&who, token_id, value)
    }
}

} // verus!

verus! {

/// No balance is ever negative, whatever credits and debits came before: a
/// balance is a `u128`, and a debit larger than the balance is refused with
/// the ledger unchanged.
pub proof fn lemma_balance_never_negative(l: FungibleTokenBalances, account: Seq<char>, token: Seq<char>)
    ensures
        l.balance(account, token) >= 0,
{
}

} // verus!
