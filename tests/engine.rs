use malloc_contract::action::{
    Action, ActionCallStatus, Dispatch, FtTransferCallToMallocCall, MallocCall, TransferType,
    WithdrawFromMallocCall,
};
use malloc_contract::construction::Construction;
use malloc_contract::contract::Contract;
use malloc_contract::errors::EngineError;
use malloc_contract::ids::GenericId;

fn s(x: &str) -> String {
    x.to_string()
}

fn id(owner: &str, name: &str) -> GenericId {
    GenericId::new(s(name), s(owner))
}

fn transfer_action(receiver: &str, token: &str) -> Action {
    Action::FtTransferCallToMallocCall(FtTransferCallToMallocCall {
        malloc_call_id: s(receiver),
        token_id: s(token),
    })
}

fn leaf_construction(owner: &str, names: &[&str]) -> Construction {
    Construction {
        actions: names.iter().map(|n| id(owner, n)).collect(),
        next_actions_indices: names.iter().map(|_| vec![]).collect(),
        next_actions_splits: names.iter().map(|_| vec![]).collect(),
    }
}

fn two_action_contract() -> Contract {
    let mut contract = Contract::new(s("malloc.testnet"));
    let owner = s("alice.near");
    contract.register_action(&owner, s("action1"), transfer_action("charlie.near", "wrappppp.localnet")).unwrap();
    contract.register_action(&owner, s("action2"), transfer_action("charlie.near", "wrapp.localnet")).unwrap();
    contract
        .register_construction(&owner, s("Jimbe First Son of the Sea"), leaf_construction("alice.near", &["action1", "action2"]))
        .unwrap();
    contract
}

#[test]
fn test_register_actions() {
    let mut contract = Contract::new(s("malloc.testnet"));
    let owner = s("alice.near");
    let a1 = transfer_action("charlie.near", "wrappppp.localnet");
    let a2 = transfer_action("charlie.near", "wrapp.localnet");
    contract.register_actions(&owner, vec![s("action1"), s("action2")], vec![a1, a2]).unwrap();
    let got1 = contract.get_action(&id("alice.near", "action1")).unwrap();
    let got2 = contract.get_action(&id("alice.near", "action2")).unwrap();
    assert_eq!(got1.token_id(), "wrappppp.localnet");
    assert_eq!(got2.token_id(), "wrapp.localnet");
    assert_eq!(contract.get_action(&id("bob.near", "action1")).err(), Some(EngineError::NotFound));
}

#[test]
fn register_actions_is_all_or_nothing() {
    let mut contract = Contract::new(s("malloc.testnet"));
    let owner = s("alice.near");
    let a = || transfer_action("charlie.near", "wrap.near");
    assert_eq!(
        contract.register_actions(&owner, vec![s("x")], vec![a(), a()]),
        Err(EngineError::NumbOfNodesNotEqualToNumbNames)
    );
    assert_eq!(
        contract.register_actions(&owner, vec![s("x"), s("y"), s("x")], vec![a(), a(), a()]),
        Err(EngineError::AlreadyRegistered)
    );
    assert_eq!(
        contract.register_actions(&owner, vec![s("x"), s("y")], vec![a(), transfer_action("Bad", "wrap.near")]),
        Err(EngineError::InvalidAccountId)
    );
    assert!(contract.get_action(&id("alice.near", "x")).is_err());
    contract
        .register_actions(&owner, vec![s("x"), s("y")], vec![a(), transfer_action("dan.near", "usdc.near")])
        .unwrap();
    assert_eq!(contract.get_action(&id("alice.near", "x")).unwrap().token_id(), "wrap.near");
    assert_eq!(contract.get_action(&id("alice.near", "y")).unwrap().token_id(), "usdc.near");
    assert_eq!(
        contract.register_actions(&owner, vec![s("z"), s("y")], vec![a(), a()]),
        Err(EngineError::AlreadyRegistered)
    );
    assert!(contract.get_action(&id("alice.near", "z")).is_err());
}

#[test]
fn register_action_refuses_duplicates_and_invalid_ids() {
    let mut contract = Contract::new(s("malloc.testnet"));
    let owner = s("alice.near");
    contract.register_action(&owner, s("a"), transfer_action("charlie.near", "wrap.near")).unwrap();
    assert_eq!(
        contract.register_action(&owner, s("a"), transfer_action("charlie.near", "other.near")),
        Err(EngineError::AlreadyRegistered)
    );
    assert_eq!(contract.get_action(&id("alice.near", "a")).unwrap().token_id(), "wrap.near");
    assert_eq!(
        contract.register_action(&owner, s("b"), transfer_action("Charlie", "wrap.near")),
        Err(EngineError::InvalidAccountId)
    );
    let withdraw = Action::WithdrawFromMallocCall(WithdrawFromMallocCall {
        malloc_call_id: s("pool.near"),
        token_id: s("wrap.near"),
        recipient: Some(s("bad..id")),
    });
    assert_eq!(contract.register_action(&owner, s("c"), withdraw), Err(EngineError::InvalidAccountId));
    assert!(contract.get_action(&id("alice.near", "b")).is_err());
}

#[test]
fn test_register_construction() {
    let contract = two_action_contract();
    let got = contract.get_construction(&id("alice.near", "Jimbe First Son of the Sea")).unwrap();
    let expected = leaf_construction("alice.near", &["action1", "action2"]);
    assert_eq!(got.actions.len(), expected.actions.len());
    for (g, e) in got.actions.iter().zip(expected.actions.iter()) {
        assert_eq!(g.name, e.name);
        assert_eq!(g.owner, e.owner);
    }
    assert_eq!(got.next_actions_indices, expected.next_actions_indices);
    assert_eq!(got.next_actions_splits, expected.next_actions_splits);
}

#[test]
fn test_init_construction() {
    let mut contract = two_action_contract();
    let cid = id("alice.near", "Jimbe First Son of the Sea");
    contract
        .init_construction(s("mycall"), cid.clone(), s("alice.near"), 100, vec![0, 1], vec![1, 2], 5)
        .unwrap();
    contract
        .init_construction(s("aaaaaaa"), cid.clone(), s("alice.near"), 100, vec![0, 1], vec![1, 2], 5)
        .unwrap();
    let registered = contract.get_construction_call_unchecked(&s("mycall"));
    let other = contract.get_construction_call_unchecked(&s("aaaaaaa"));
    assert_ne!(registered.action_calls, other.action_calls);
    assert_eq!(registered.caller, other.caller);
    assert_eq!(registered.construction_id.name, other.construction_id.name);
    assert_eq!(registered.construction_id.owner, other.construction_id.owner);
    assert_eq!(registered.next_action_calls_stack, other.next_action_calls_stack);
    assert_eq!(registered.next_action_calls_stack, vec![0, 1]);
    assert_eq!(registered.action_calls, vec![0, 1]);
    assert_eq!(other.action_calls, vec![2, 3]);
    assert_eq!(contract.get_action_call_unchecked(0).amount, 33);
    assert_eq!(contract.get_action_call_unchecked(1).amount, 67);
    assert_eq!(contract.get_action_call_unchecked(1).action_index_in_construction, 1);
    assert!(matches!(contract.get_action_call_unchecked(0).status, ActionCallStatus::WaitingCall));
    assert_eq!(
        contract.init_construction(s("mycall"), cid.clone(), s("alice.near"), 1, vec![0], vec![1], 5),
        Err(EngineError::ConstructionCallIdAlreadyUsed)
    );
    assert_eq!(
        contract.init_construction(s("x"), id("bob.near", "nope"), s("alice.near"), 1, vec![0], vec![1], 5),
        Err(EngineError::NotFound)
    );
    assert_eq!(
        contract.init_construction(s("x"), cid.clone(), s("alice.near"), 1, vec![0], vec![1, 1], 5),
        Err(EngineError::NumbNodesDneNumbSplits)
    );
    assert_eq!(
        contract.init_construction(s("x"), cid.clone(), s("alice.near"), 1, vec![], vec![], 5),
        Err(EngineError::NoChildrenSpecified)
    );
    assert_eq!(
        contract.init_construction(s("x"), cid, s("alice.near"), 1, vec![0], vec![0], 5),
        Err(EngineError::ZeroTotalWeight)
    );
    assert_eq!(contract.action_call_count(), 4);
}

fn routed_construction(children: Vec<Vec<u64>>, weights: Vec<Vec<u128>>) -> Construction {
    Construction {
        actions: vec![id("alice.near", "a"), id("alice.near", "b")],
        next_actions_indices: vec![children, vec![]],
        next_actions_splits: vec![weights, vec![]],
    }
}

#[test]
fn checker_test_diff_numb_endpoints_and_splitter() {
    let c = routed_construction(vec![vec![1]], vec![vec![100, 20]]);
    assert_eq!(c.check(), Err(EngineError::NumbNodesDneNumbSplits));
    let mut contract = Contract::new(s("malloc.testnet"));
    assert_eq!(
        contract.register_construction(&s("alice.near"), s("c"), c),
        Err(EngineError::NumbNodesDneNumbSplits)
    );
    assert!(contract.get_construction(&id("alice.near", "c")).is_err());
}

#[test]
fn checker_test_no_endpoints() {
    let c = routed_construction(vec![vec![]], vec![vec![]]);
    assert_eq!(c.check(), Err(EngineError::NoChildrenSpecified));
    let mut contract = Contract::new(s("malloc.testnet"));
    assert_eq!(
        contract.register_construction(&s("alice.near"), s("c"), c),
        Err(EngineError::NoChildrenSpecified)
    );
    assert!(contract.get_construction(&id("alice.near", "c")).is_err());
}

#[test]
fn checker_test_check() {
    let c = routed_construction(vec![vec![1, 1]], vec![vec![20, 100]]);
    assert_eq!(c.check(), Ok(()));
    let mismatched_tables = Construction {
        actions: vec![id("alice.near", "a")],
        next_actions_indices: vec![],
        next_actions_splits: vec![],
    };
    assert_eq!(mismatched_tables.check(), Err(EngineError::NumbNodesDneNumbSplits));
    let both = Construction {
        actions: vec![id("alice.near", "a"), id("alice.near", "b")],
        next_actions_indices: vec![vec![vec![]], vec![vec![1]]],
        next_actions_splits: vec![vec![vec![]], vec![vec![1, 2]]],
    };
    assert_eq!(both.check(), Err(EngineError::NumbNodesDneNumbSplits));
}

#[test]
fn lib_test_simple_transfers_success() {
    let mut contract = Contract::new(s("malloc.testnet"));
    let owner = s("alice.near");
    contract.register_action(&owner, s("to_b"), transfer_action("bob.near", "wrap.near")).unwrap();
    contract.register_action(&owner, s("to_c"), transfer_action("carol.near", "wrap.near")).unwrap();
    contract.register_construction(&owner, s("pair"), leaf_construction("alice.near", &["to_b", "to_c"])).unwrap();
    contract.ft_on_transfer(&owner, &s("wrap.near"), &s("110"), &s("")).unwrap();
    contract
        .init_construction(s("run"), id("alice.near", "pair"), owner.clone(), 100, vec![0, 1], vec![100, 100], 1)
        .unwrap();
    let mut receivers = vec![];
    for block in [2u64, 3u64] {
        match contract.process_next_action_call(&s("run"), block).unwrap() {
            Dispatch::TransferCall { transfer, callback } => {
                assert_eq!(transfer.amount, 50);
                assert_eq!(transfer.sender_id, "alice.near");
                assert_eq!(transfer.token_id, "wrap.near");
                assert_eq!(callback.construction_call_id, "run");
                assert_eq!(callback.token_return_id, Some(s("wrap.near")));
                receivers.push(transfer.receiver_id);
            }
            _ => panic!("expected a transfer"),
        }
    }
    assert_eq!(receivers, vec![s("carol.near"), s("bob.near")]);
    assert_eq!(contract.get_ft_balance(&owner, &s("wrap.near")), 10);
    assert!(matches!(
        contract.get_action_call_unchecked(1).status,
        ActionCallStatus::Executing { block_index_start: 2 }
    ));
}

#[test]
fn advance_on_empty_stack_is_quiescent() {
    let mut contract = two_action_contract();
    let cid = id("alice.near", "Jimbe First Son of the Sea");
    contract.ft_on_transfer(&s("alice.near"), &s("wrapp.localnet"), &s("1000"), &s("")).unwrap();
    contract.ft_on_transfer(&s("alice.near"), &s("wrappppp.localnet"), &s("1000"), &s("")).unwrap();
    contract.init_construction(s("r"), cid, s("alice.near"), 10, vec![0, 1], vec![1, 1], 1).unwrap();
    contract.process_next_action_call(&s("r"), 2).unwrap();
    contract.process_next_action_call(&s("r"), 3).unwrap();
    for _ in 0..2 {
        assert_eq!(contract.process_next_action_call(&s("r"), 4).err(), Some(EngineError::StackEmpty));
        assert_eq!(contract.get_construction_call_unchecked(&s("r")).next_action_calls_stack.len(), 0);
        assert_eq!(contract.action_call_count(), 2);
        assert_eq!(contract.get_ft_balance(&s("alice.near"), &s("wrapp.localnet")), 995);
        assert_eq!(contract.get_ft_balance(&s("alice.near"), &s("wrappppp.localnet")), 995);
    }
    assert_eq!(contract.process_next_action_call(&s("missing"), 4).err(), Some(EngineError::NotFound));
}

#[test]
fn advance_without_funds_changes_nothing() {
    let mut contract = two_action_contract();
    let cid = id("alice.near", "Jimbe First Son of the Sea");
    contract.init_construction(s("r"), cid, s("alice.near"), 10, vec![0], vec![1], 1).unwrap();
    assert_eq!(contract.process_next_action_call(&s("r"), 2).err(), Some(EngineError::InsufficientFunds));
    assert_eq!(contract.get_construction_call_unchecked(&s("r")).next_action_calls_stack, vec![0]);
    assert!(matches!(contract.get_action_call_unchecked(0).status, ActionCallStatus::WaitingCall));
}

fn fan_out_contract() -> Contract {
    let mut contract = Contract::new(s("malloc.testnet"));
    let owner = s("alice.near");
    contract.register_action(&owner, s("entry"), transfer_action("pass.near", "wrap.near")).unwrap();
    contract.register_action(&owner, s("left"), transfer_action("bob.near", "wrap.near")).unwrap();
    contract.register_action(&owner, s("right"), transfer_action("carol.near", "wrap.near")).unwrap();
    let c = Construction {
        actions: vec![id("alice.near", "entry"), id("alice.near", "left"), id("alice.near", "right")],
        next_actions_indices: vec![vec![vec![1, 2]], vec![], vec![]],
        next_actions_splits: vec![vec![vec![1, 1]], vec![], vec![]],
    };
    contract.register_construction(&owner, s("fan"), c).unwrap();
    contract.ft_on_transfer(&owner, &s("wrap.near"), &s("100"), &s("")).unwrap();
    contract.init_construction(s("run"), id("alice.near", "fan"), owner, 100, vec![0], vec![1], 1).unwrap();
    contract.process_next_action_call(&s("run"), 2).unwrap();
    contract
}

#[test]
fn callback_fans_out_by_weights() {
    let mut contract = fan_out_contract();
    assert_eq!(contract.get_ft_balance(&s("alice.near"), &s("wrap.near")), 0);
    contract
        .handle_action_callback(&s("run"), 0, Some(b"\"100\"".to_vec()), Some(s("wrap.near")), 7)
        .unwrap();
    assert_eq!(contract.action_call_count(), 3);
    assert_eq!(contract.get_action_call_unchecked(1).amount, 50);
    assert_eq!(contract.get_action_call_unchecked(2).amount, 50);
    assert_eq!(contract.get_action_call_unchecked(1).action_index_in_construction, 1);
    assert_eq!(contract.get_action_call_unchecked(2).action_index_in_construction, 2);
    assert_eq!(contract.get_action_call_unchecked(2).block_index, 7);
    assert!(matches!(contract.get_action_call_unchecked(0).status, ActionCallStatus::Success));
    let run = contract.get_construction_call_unchecked(&s("run"));
    assert_eq!(run.next_action_calls_stack, vec![1, 2]);
    assert_eq!(run.action_calls, vec![0, 1, 2]);
}

#[test]
fn callback_with_result_list_fans_out() {
    let mut contract = fan_out_contract();
    let reply = b"[{\"token_id\":\"wrap.near\",\"amount\":\"7\"}]".to_vec();
    contract.handle_action_callback(&s("run"), 0, Some(reply), None, 3).unwrap();
    assert_eq!(contract.get_action_call_unchecked(1).amount, 3);
    assert_eq!(contract.get_action_call_unchecked(2).amount, 4);
}

#[test]
fn callback_with_other_asset_is_refused() {
    let mut contract = fan_out_contract();
    let reply = b"[{\"token_id\":\"usdc.near\",\"amount\":\"100\"}]".to_vec();
    assert_eq!(
        contract.handle_action_callback(&s("run"), 0, Some(reply), None, 3),
        Err(EngineError::AssetMismatch)
    );
    assert_eq!(
        contract.handle_action_callback(&s("run"), 0, Some(b"\"100\"".to_vec()), Some(s("usdc.near")), 3),
        Err(EngineError::AssetMismatch)
    );
    assert_eq!(contract.action_call_count(), 1);
    assert_eq!(contract.get_construction_call_unchecked(&s("run")).next_action_calls_stack.len(), 0);
    assert_eq!(contract.get_ft_balance(&s("alice.near"), &s("wrap.near")), 0);
    assert!(matches!(
        contract.get_action_call_unchecked(0).status,
        ActionCallStatus::Executing { block_index_start: 2 }
    ));
}

#[test]
fn callback_errors_leave_state_unchanged() {
    let mut contract = fan_out_contract();
    let two = b"[{\"token_id\":\"wrap.near\",\"amount\":\"1\"},{\"token_id\":\"wrap.near\",\"amount\":\"1\"}]";
    assert_eq!(
        contract.handle_action_callback(&s("run"), 0, Some(two.to_vec()), None, 3),
        Err(EngineError::RoutingMismatch)
    );
    assert_eq!(
        contract.handle_action_callback(&s("run"), 0, Some(b"\"x\"".to_vec()), Some(s("wrap.near")), 3),
        Err(EngineError::ParseError)
    );
    assert_eq!(
        contract.handle_action_callback(&s("run"), 9, Some(b"\"1\"".to_vec()), Some(s("wrap.near")), 3),
        Err(EngineError::NotFound)
    );
    assert_eq!(contract.action_call_count(), 1);
}

#[test]
fn undecodable_reply_marks_the_step_failed() {
    let mut contract = fan_out_contract();
    contract.handle_action_callback(&s("run"), 0, Some(b"{".to_vec()), None, 3).unwrap();
    match &contract.get_action_call_unchecked(0).status {
        ActionCallStatus::Error { message } => assert_eq!(message, "Error deserializing result"),
        _ => panic!("expected an error status"),
    }
    let mut other = fan_out_contract();
    other.handle_action_callback(&s("run"), 0, Some(b"\"5\"".to_vec()), None, 3).unwrap();
    assert!(matches!(other.get_action_call_unchecked(0).status, ActionCallStatus::Error { .. }));
    assert_eq!(contract.action_call_count(), 1);
    assert_eq!(contract.get_construction_call_unchecked(&s("run")).next_action_calls_stack.len(), 0);
    assert_eq!(contract.get_ft_balance(&s("alice.near"), &s("wrap.near")), 0);
}

#[test]
fn failed_call_marks_the_step() {
    let mut contract = fan_out_contract();
    contract.handle_action_callback(&s("run"), 0, None, Some(s("wrap.near")), 3).unwrap();
    match &contract.get_action_call_unchecked(0).status {
        ActionCallStatus::Error { message } => assert_eq!(message, "The malloc call failed"),
        _ => panic!("expected an error status"),
    }
    assert_eq!(contract.action_call_count(), 1);
}

#[test]
fn withdraw_and_payload_calls_dispatch() {
    let mut contract = Contract::new(s("malloc.testnet"));
    let owner = s("alice.near");
    let withdraw = Action::WithdrawFromMallocCall(WithdrawFromMallocCall {
        malloc_call_id: s("pool.near"),
        token_id: s("wrap.near"),
        recipient: None,
    });
    let call = Action::MallocCall(MallocCall {
        check_callback: Some(false),
        skip_ft_transfer: None,
        malloc_call_id: s("echo.near"),
        token_id: s("wrap.near"),
        json_args: s("{}"),
        gas: 10,
        attached_amount: 1,
    });
    contract.register_action(&owner, s("w"), withdraw).unwrap();
    contract.register_action(&owner, s("c"), call).unwrap();
    contract.register_construction(&owner, s("k"), leaf_construction("alice.near", &["w", "c"])).unwrap();
    contract.ft_on_transfer(&owner, &s("wrap.near"), &s("40"), &s("")).unwrap();
    contract.init_construction(s("r"), id("alice.near", "k"), owner.clone(), 40, vec![0, 1], vec![1, 1], 1).unwrap();
    match contract.process_next_action_call(&s("r"), 2).unwrap() {
        Dispatch::MallocCall { transfer, call, callback } => {
            let t = transfer.unwrap();
            assert_eq!(t.amount, 20);
            assert_eq!(t.receiver_id, "echo.near");
            assert_eq!(call.method_name, b"malloc_call".to_vec());
            assert_eq!(call.amount, 20);
            assert_eq!(call.caller, "alice.near");
            assert!(callback.is_none());
        }
        _ => panic!("expected a payload call"),
    }
    match contract.process_next_action_call(&s("r"), 3).unwrap() {
        Dispatch::Withdraw { recipient, transfer_type, amount, account_id, .. } => {
            assert_eq!(recipient, "malloc.testnet");
            assert_eq!(transfer_type, TransferType::TransferCallMalloc);
            assert_eq!(amount, 20);
            assert_eq!(account_id, "alice.near");
        }
        _ => panic!("expected a withdrawal"),
    }
    assert_eq!(contract.get_ft_balance(&owner, &s("wrap.near")), 20);
}

#[test]
fn lib_test_blackwhole() {
    let mut contract = Contract::new(s("malloc.testnet"));
    let owner = s("alice.near");
    let sink = Action::MallocCall(MallocCall {
        check_callback: None,
        skip_ft_transfer: None,
        malloc_call_id: s("blackwhole.near"),
        token_id: s("wrap.near"),
        json_args: s("{\"log_message\": \"hello\"}"),
        gas: 5_000_000_000_000,
        attached_amount: 1,
    });
    contract.register_action(&owner, s("sink"), sink).unwrap();
    contract.register_construction(&owner, s("hole"), leaf_construction("alice.near", &["sink"])).unwrap();
    contract.ft_on_transfer(&owner, &s("wrap.near"), &s("12"), &s("")).unwrap();
    contract.init_construction(s("r"), id("alice.near", "hole"), owner.clone(), 12, vec![0], vec![1], 1).unwrap();
    match contract.process_next_action_call(&s("r"), 2).unwrap() {
        Dispatch::MallocCall { transfer, call, callback } => {
            assert_eq!(transfer.unwrap().amount, 12);
            assert_eq!(call.json_args, "{\"log_message\": \"hello\"}");
            let cb = callback.unwrap();
            assert_eq!(cb.action_call_id, 0);
            assert_eq!(cb.token_return_id, None);
        }
        _ => panic!("expected a payload call"),
    }
    contract.handle_action_callback(&s("r"), 0, Some(b"[]".to_vec()), None, 3).unwrap();
    assert_eq!(contract.action_call_count(), 1);
    assert_eq!(contract.process_next_action_call(&s("r"), 4).err(), Some(EngineError::StackEmpty));
    assert_eq!(contract.get_ft_balance(&owner, &s("wrap.near")), 0);
}

#[test]
fn callback_with_zero_weights_is_refused() {
    let mut contract = Contract::new(s("malloc.testnet"));
    let owner = s("alice.near");
    contract.register_action(&owner, s("entry"), transfer_action("pass.near", "wrap.near")).unwrap();
    contract.register_action(&owner, s("left"), transfer_action("bob.near", "wrap.near")).unwrap();
    let c = Construction {
        actions: vec![id("alice.near", "entry"), id("alice.near", "left")],
        next_actions_indices: vec![vec![vec![1]], vec![]],
        next_actions_splits: vec![vec![vec![0]], vec![]],
    };
    contract.register_construction(&owner, s("zero"), c).unwrap();
    contract.ft_on_transfer(&owner, &s("wrap.near"), &s("5"), &s("")).unwrap();
    contract.init_construction(s("run"), id("alice.near", "zero"), owner, 5, vec![0], vec![1], 1).unwrap();
    contract.process_next_action_call(&s("run"), 2).unwrap();
    assert_eq!(
        contract.handle_action_callback(&s("run"), 0, Some(b"\"5\"".to_vec()), Some(s("wrap.near")), 3),
        Err(EngineError::ZeroTotalWeight)
    );
    assert_eq!(contract.action_call_count(), 1);
}
