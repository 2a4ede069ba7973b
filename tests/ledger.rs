use malloc_contract::action::{
    Action, ActionCall, ActionCallStatus, FtTransferCallToMallocCall, Revert,
};
use malloc_contract::errors::EngineError;
use malloc_contract::ledger::FungibleTokenBalances;

fn s(x: &str) -> String {
    x.to_string()
}

#[test]
fn test_ft_adding_balances() {
    let mut bals = FungibleTokenBalances::new();
    let account = s("bob.near");
    let token = s("alice.near");
    let token2 = s("fargo.near");
    assert_eq!(bals.get_ft_balance(&account, &token), 0);
    bals.ft_on_transfer(&account, &token, &s("100"), &s("")).unwrap();
    assert_eq!(bals.get_ft_balance(&account, &token), 100);
    bals.ft_on_transfer(&account, &token, &s("100"), &s("")).unwrap();
    assert_eq!(bals.get_ft_balance(&account, &token), 200);
    assert_eq!(bals.get_ft_balance(&account, &token2), 0);
    bals.ft_on_transfer(&account, &token2, &s("100"), &s("")).unwrap();
    assert_eq!(bals.get_ft_balance(&account, &token2), 100);
    assert_eq!(bals.get_ft_balance(&account, &token), 200);
}

#[test]
fn test_ft_adding_balances_and_then_subtracting() {
    let mut bals = FungibleTokenBalances::new();
    let account = s("bob.near");
    let token = s("alice.near");
    bals.ft_on_transfer(&account, &token, &s("100"), &s("")).unwrap();
    assert_eq!(bals.get_ft_balance(&account, &token), 100);
    bals.debit_for_transfer(&account, &token, 50).unwrap();
    assert_eq!(bals.get_ft_balance(&account, &token), 50);
    bals.debit_for_transfer(&account, &token, 50).unwrap();
    assert_eq!(bals.get_ft_balance(&account, &token), 0);
}

#[test]
fn test_ft_not_enough_balance() {
    let mut bals = FungibleTokenBalances::new();
    let account = s("bob.near");
    let token = s("alice.near");
    bals.ft_on_transfer(&account, &token, &s("25"), &s("")).unwrap();
    assert_eq!(bals.debit_for_transfer(&account, &token, 50), Err(EngineError::InsufficientFunds));
    assert_eq!(bals.get_ft_balance(&account, &token), 25);
}

#[test]
fn test_ft_not_enough_balance_never_registered() {
    let mut bals = FungibleTokenBalances::new();
    let account = s("bob.near");
    let token = s("alice.near");
    assert_eq!(bals.debit_for_transfer(&account, &token, 50), Err(EngineError::InsufficientFunds));
    assert_eq!(bals.get_ft_balance(&account, &token), 0);
    assert_eq!(bals.debit_for_transfer(&account, &token, 0), Ok(()));
}

#[test]
fn ledger_never_goes_negative_over_a_sequence() {
    let mut bals = FungibleTokenBalances::new();
    let a = s("a.near");
    let t = s("t.near");
    bals.credit(&a, &t, 10).unwrap();
    assert_eq!(bals.debit_for_transfer(&a, &t, 7), Ok(()));
    assert_eq!(bals.debit_for_transfer(&a, &t, 4), Err(EngineError::InsufficientFunds));
    assert_eq!(bals.get_ft_balance(&a, &t), 3);
    bals.credit(&a, &t, 1).unwrap();
    assert_eq!(bals.debit_for_transfer(&a, &t, 4), Ok(()));
    assert_eq!(bals.get_ft_balance(&a, &t), 0);
    assert_eq!(bals.debit_for_transfer(&a, &t, 1), Err(EngineError::InsufficientFunds));
    assert_eq!(bals.get_ft_balance(&a, &t), 0);
}

#[test]
fn credit_refuses_overflow() {
    let mut bals = FungibleTokenBalances::new();
    let a = s("a.near");
    let t = s("t.near");
    bals.credit(&a, &t, u128::MAX - 1).unwrap();
    assert_eq!(bals.credit(&a, &t, 2), Err(EngineError::BalanceOverflow));
    assert_eq!(bals.get_ft_balance(&a, &t), u128::MAX - 1);
    assert_eq!(bals.credit(&a, &t, 1), Ok(()));
}

#[test]
fn deposit_message_names_the_beneficiary() {
    let mut bals = FungibleTokenBalances::new();
    let sender = s("pool.near");
    let t = s("t.near");
    let msg = s("{\"sender_id\":\"carol.near\"}");
    bals.ft_on_transfer(&sender, &t, &s("+42"), &msg).unwrap();
    assert_eq!(bals.get_ft_balance(&s("carol.near"), &t), 42);
    assert_eq!(bals.get_ft_balance(&sender, &t), 0);
    assert_eq!(bals.ft_on_transfer(&sender, &t, &s("12"), &s("{}")), Err(EngineError::ParseError));
    assert_eq!(bals.ft_on_transfer(&sender, &t, &s("12"), &s("not json")), Err(EngineError::ParseError));
    assert_eq!(bals.ft_on_transfer(&sender, &t, &s("1x"), &s("")), Err(EngineError::ParseError));
    assert_eq!(bals.get_ft_balance(&sender, &t), 0);
}

#[test]
fn resolve_transfer_result_refunds_what_was_not_used() {
    let mut bals = FungibleTokenBalances::new();
    let a = s("a.near");
    let t = s("t.near");
    assert_eq!(bals.resolve_transfer_result(&a, &t, 100, Some(30)), Ok(30));
    assert_eq!(bals.get_ft_balance(&a, &t), 70);
    assert_eq!(bals.resolve_transfer_result(&a, &t, 100, None), Ok(0));
    assert_eq!(bals.get_ft_balance(&a, &t), 170);
    assert_eq!(bals.resolve_transfer_result(&a, &t, 10, Some(11)), Err(EngineError::MoreUsedThanAllowed));
    assert_eq!(bals.resolve_transfer_result(&a, &t, 0, None), Ok(0));
    assert_eq!(bals.get_ft_balance(&a, &t), 170);
}

#[test]
fn resolve_internal_transfer_decodes_the_reply() {
    let mut bals = FungibleTokenBalances::new();
    let a = s("a.near");
    let t = s("t.near");
    let reply = b"\"25\"".to_vec();
    assert_eq!(bals.resolve_internal_ft_transfer_call(&a, &t, 100, Some(reply)), Ok(25));
    assert_eq!(bals.get_ft_balance(&a, &t), 75);
    assert_eq!(
        bals.resolve_internal_ft_transfer_call(&a, &t, 100, Some(b"25".to_vec())),
        Err(EngineError::ParseError)
    );
    assert_eq!(bals.resolve_internal_ft_transfer_call(&a, &t, 100, None), Ok(0));
    assert_eq!(bals.get_ft_balance(&a, &t), 175);
}

#[test]
fn reverting_a_dispatch_gives_the_debit_back() {
    let mut bals = FungibleTokenBalances::new();
    let a = s("a.near");
    let t = s("t.near");
    bals.credit(&a, &t, 50).unwrap();
    let action = Action::FtTransferCallToMallocCall(FtTransferCallToMallocCall {
        malloc_call_id: s("pool.near"),
        token_id: t.clone(),
    });
    let call = ActionCall {
        action_index_in_construction: 0,
        block_index: 0,
        amount: 30,
        status: ActionCallStatus::WaitingCall,
    };
    let d = action.handle_action(&mut bals, &call, &s("run"), 4, &a, &s("me.near")).unwrap();
    assert_eq!(bals.get_ft_balance(&a, &t), 20);
    d.revert(&mut bals).unwrap();
    assert_eq!(bals.get_ft_balance(&a, &t), 50);
}
