use foundry_core::address::Address;
use foundry_core::inner::{
    begin_inner_call, finish_inner_call, created_address, inner_call_env, merge_states, translate_result, Account, AccountInfo,
    BlockEnv, CallInputs, Env, ExecutionResult, TxEnv, TxKind,
};
use foundry_core::inspector::{
    first_decisive_call, first_decisive_call_end, is_decisive_call_end, CallOutcome, Gas,
    HaltReason, InspectorKind, InspectorStack, InstructionResult, Log, SuccessReason,
};
use foundry_core::prank::Cheatcodes;
use foundry_core::word::U256;

fn log(n: u64) -> Log {
    Log { address: Address::from_low(n as u128), topics: vec![U256::from_u64(n)], data: vec![n as u8] }
}

#[test]
fn collected_logs_are_the_logged_events_in_order() {
    let mut stack = InspectorStack::new();
    stack.collect_logs(true);
    for i in 0..5 {
        stack.log(log(i));
    }
    let data = stack.collect();
    assert_eq!(data.logs.len(), 5);
    for (i, l) in data.logs.iter().enumerate() {
        assert_eq!(l.address, Address::from_low(i as u128));
        assert_eq!(l.data, vec![i as u8]);
    }
}

#[test]
fn logs_without_collector_are_dropped() {
    let mut stack = InspectorStack::new();
    stack.log(log(1));
    assert!(stack.collect().logs.is_empty());
}

#[test]
fn empty_stack_answers_continue_with_full_gas() {
    let r = first_decisive_call(&vec![], 21000);
    assert_eq!(r.status, InstructionResult::Continue);
    assert_eq!(r.gas, Gas::new(21000));
    assert!(r.output.is_empty());
    let stack = InspectorStack::new();
    assert!(stack.call_order().is_empty());
}

fn outcome(status: InstructionResult, out: Vec<u8>) -> CallOutcome {
    CallOutcome { status, gas: Gas::new(10), output: out }
}

#[test]
fn first_decisive_answer_wins() {
    let answers = vec![
        outcome(InstructionResult::Continue, vec![]),
        outcome(InstructionResult::Revert, vec![1]),
        outcome(InstructionResult::Return, vec![2]),
    ];
    let r = first_decisive_call(&answers, 50);
    assert_eq!(r.status, InstructionResult::Revert);
    assert_eq!(r.output, vec![1]);
}

#[test]
fn call_end_overrides_on_new_status_or_new_revert_data() {
    let running = outcome(InstructionResult::Revert, vec![9]);
    assert!(!is_decisive_call_end(&outcome(InstructionResult::Revert, vec![9]), InstructionResult::Revert, &vec![9]));
    assert!(is_decisive_call_end(&outcome(InstructionResult::Revert, vec![8]), InstructionResult::Revert, &vec![9]));
    let answers = vec![
        outcome(InstructionResult::Revert, vec![9]),
        outcome(InstructionResult::Return, vec![3]),
    ];
    let r = first_decisive_call_end(&answers, &running);
    assert_eq!(r.status, InstructionResult::Return);
    let r = first_decisive_call_end(&vec![outcome(InstructionResult::Revert, vec![9])], &running);
    assert_eq!(r.output, vec![9]);
}

#[test]
fn inspectors_are_asked_in_declared_order() {
    let mut stack = InspectorStack::new();
    stack.print(true);
    stack.set_cheatcodes(Cheatcodes::new());
    stack.tracing(true);
    stack.set_fuzzer();
    stack.collect_logs(true);
    assert_eq!(
        stack.call_order(),
        vec![
            InspectorKind::Fuzzer,
            InspectorKind::Tracer,
            InspectorKind::LogCollector,
            InspectorKind::Cheatcodes,
            InspectorKind::TracePrinter
        ]
    );
    assert_eq!(stack.create_order()[0], InspectorKind::Tracer);
}

#[test]
fn inner_context_depth_bookkeeping() {
    let mut stack = InspectorStack::new();
    assert!(stack.runs_inner_call(1, false));
    assert!(!stack.runs_inner_call(1, true));
    assert!(!stack.runs_inner_call(2, false));
    stack.begin_inner();
    assert!(stack.is_inner_dispatch(0));
    assert!(!stack.runs_inner_call(1, false));
    assert_eq!(stack.dispatch_depth(3), 4);
    stack.end_inner();
    assert!(!stack.is_inner_dispatch(0));
    assert_eq!(stack.dispatch_depth(3), 3);
}

fn account(nonce: u64, slots: Vec<(u64, u64)>, status: u8) -> Account {
    Account {
        info: AccountInfo { balance: U256::from_u64(1), nonce, code_hash: U256::zero() },
        storage: slots.into_iter().map(|(k, v)| (U256::from_u64(k), U256::from_u64(v))).collect(),
        status,
    }
}

fn slot(state: &Vec<(Address, Account)>, a: u128, k: u64) -> Option<U256> {
    let acc = &state.iter().rev().find(|(addr, _)| *addr == Address::from_low(a))?.1;
    acc.storage.iter().rev().find(|(key, _)| *key == U256::from_u64(k)).map(|(_, v)| *v)
}

#[test]
fn reverted_inner_call_keeps_only_earlier_writes() {
    let mut outer = vec![(Address::from_low(0xC0), account(1, vec![(1, 5)], 1))];
    let reverted = ExecutionResult::Revert { gas_used: 30, output: vec![0xde, 0xad] };
    let answer = translate_result(&reverted, 100);
    assert_eq!(answer.status, InstructionResult::Revert);
    assert_eq!(answer.gas.remaining, 70);
    assert_eq!(answer.output, vec![0xde, 0xad]);
    assert_eq!(created_address(&reverted), None);
    merge_states(&mut outer, &vec![]);
    assert_eq!(slot(&outer, 0xC0, 1), Some(U256::from_u64(5)));
}

#[test]
fn merge_joins_status_and_extends_storage() {
    let mut main = vec![(Address::from_low(1), account(1, vec![(1, 10), (2, 20)], 0b01))];
    let new_state = vec![
        (Address::from_low(1), account(2, vec![(2, 99)], 0b10)),
        (Address::from_low(2), account(7, vec![(3, 30)], 0b100)),
    ];
    merge_states(&mut main, &new_state);
    assert_eq!(slot(&main, 1, 1), Some(U256::from_u64(10)));
    assert_eq!(slot(&main, 1, 2), Some(U256::from_u64(99)));
    assert_eq!(slot(&main, 2, 3), Some(U256::from_u64(30)));
    let a1 = &main.iter().rev().find(|(a, _)| *a == Address::from_low(1)).unwrap().1;
    assert_eq!(a1.status, 0b11);
    assert_eq!(a1.info.nonce, 2);
}

#[test]
fn results_translate_to_call_site_answers() {
    let ok = ExecutionResult::Success {
        reason: SuccessReason::Return,
        gas_used: 40,
        gas_refunded: 5,
        output: vec![1, 2],
        created: Some(Address::from_low(9)),
    };
    let a = translate_result(&ok, 100);
    assert_eq!(a.status, InstructionResult::Return);
    assert_eq!(a.gas, Gas { limit: 100, remaining: 60, refunded: 5 });
    assert_eq!(created_address(&ok), Some(Address::from_low(9)));
    let halt = ExecutionResult::Halt { reason: HaltReason::OutOfGas, gas_used: 500 };
    let h = translate_result(&halt, 100);
    assert_eq!(h.status, InstructionResult::OutOfGas);
    assert_eq!(h.gas.remaining, 100);
    assert!(h.output.is_empty());
}

#[test]
fn inner_env_is_a_free_top_level_transaction() {
    let outer = Env {
        chain_id: 31337,
        block: BlockEnv {
            number: U256::from_u64(5),
            coinbase: Address::zero(),
            timestamp: U256::from_u64(6),
            gas_limit: U256::from_u64(30_000_000),
            basefee: U256::from_u64(7),
            difficulty: U256::zero(),
        },
        tx: TxEnv {
            caller: Address::from_low(1),
            transact_to: TxKind::Call(Address::from_low(2)),
            data: vec![],
            value: U256::zero(),
            gas_limit: 1,
            gas_price: U256::from_u64(3),
            nonce: None,
            chain_id: Some(31337),
        },
    };
    let call = CallInputs {
        contract: Address::from_low(0xD0),
        caller: Address::from_low(0xAAAA),
        input: vec![4, 5],
        value: U256::from_u64(8),
        gas_limit: 77,
        is_static: false,
    };
    let env = inner_call_env(&outer, &call, 12);
    assert_eq!(env.block.basefee, U256::zero());
    assert_eq!(env.block.gas_limit, U256::max_value());
    assert_eq!(env.block.number, U256::from_u64(5));
    assert_eq!(env.tx.caller, Address::from_low(0xAAAA));
    assert_eq!(env.tx.transact_to, TxKind::Call(Address::from_low(0xD0)));
    assert_eq!(env.tx.data, vec![4, 5]);
    assert_eq!(env.tx.gas_limit, 77);
    assert_eq!(env.tx.gas_price, U256::zero());
    assert_eq!(env.tx.nonce, Some(12));
}

#[test]
fn intercepted_call_runs_as_its_own_transaction() {
    let outer = Env {
        chain_id: 1,
        block: BlockEnv {
            number: U256::from_u64(1),
            coinbase: Address::zero(),
            timestamp: U256::from_u64(1),
            gas_limit: U256::from_u64(1),
            basefee: U256::from_u64(1),
            difficulty: U256::zero(),
        },
        tx: TxEnv {
            caller: Address::from_low(1),
            transact_to: TxKind::Call(Address::from_low(2)),
            data: vec![],
            value: U256::zero(),
            gas_limit: 1,
            gas_price: U256::from_u64(1),
            nonce: None,
            chain_id: None,
        },
    };
    let call = CallInputs {
        contract: Address::from_low(0xD0),
        caller: Address::from_low(0xAAAA),
        input: vec![],
        value: U256::zero(),
        gas_limit: 1000,
        is_static: false,
    };
    let mut stack = InspectorStack::new();
    assert!(begin_inner_call(&mut stack, &outer, &call, 2, 0).is_none());
    let env = begin_inner_call(&mut stack, &outer, &call, 1, 3).unwrap();
    assert!(stack.in_inner_context);
    assert_eq!(env.tx.nonce, Some(3));
    assert!(begin_inner_call(&mut stack, &outer, &call, 1, 3).is_none());
    let mut main = vec![(Address::from_low(0xD0), account(1, vec![(1, 5)], 0))];
    let reverted = ExecutionResult::Revert { gas_used: 10, output: vec![1] };
    let answer = finish_inner_call(&mut stack, &mut main, &reverted, &vec![], 1000);
    assert!(!stack.in_inner_context);
    assert_eq!(answer.status, InstructionResult::Revert);
    assert_eq!(answer.gas.remaining, 990);
    assert_eq!(slot(&main, 0xD0, 1), Some(U256::from_u64(5)));
}

fn create(status: InstructionResult, addr: Option<u128>, out: Vec<u8>) -> foundry_core::inspector::CreateOutcome {
    foundry_core::inspector::CreateOutcome { status, address: addr.map(Address::from_low), gas: Gas::new(10), output: out }
}

#[test]
fn creation_fan_out_takes_first_status_change() {
    use_create_fan_out();
}

fn use_create_fan_out() {
    let answers = vec![
        create(InstructionResult::Continue, None, vec![]),
        create(InstructionResult::Return, Some(7), vec![1]),
        create(InstructionResult::Revert, Some(8), vec![2]),
    ];
    let r = foundry_core::inspector::first_decisive_create(&answers, 99);
    assert_eq!(r.status, InstructionResult::Return);
    assert_eq!(r.address, Some(Address::from_low(7)));
    let r = foundry_core::inspector::first_decisive_create(&vec![], 99);
    assert_eq!(r.status, InstructionResult::Continue);
    assert_eq!(r.gas, Gas::new(99));
    assert_eq!(r.address, None);
    let running = create(InstructionResult::Return, Some(5), vec![3]);
    let same = vec![create(InstructionResult::Return, Some(6), vec![4])];
    let r = foundry_core::inspector::first_decisive_create_end(&same, &running);
    assert_eq!(r.address, Some(Address::from_low(5)));
    assert_eq!(r.output, vec![3]);
    let changed = vec![create(InstructionResult::Return, None, vec![]), create(InstructionResult::Revert, None, vec![9])];
    let r = foundry_core::inspector::first_decisive_create_end(&changed, &running);
    assert_eq!(r.status, InstructionResult::Revert);
    assert_eq!(r.output, vec![9]);
}

#[test]
fn every_inspector_sees_each_step() {
    let mut stack = InspectorStack::new();
    stack.enable_debugger(true);
    stack.collect_logs(true);
    stack.set_chisel(4);
    assert_eq!(stack.step_order(), vec![InspectorKind::Debugger, InspectorKind::LogCollector]);
    assert_eq!(stack.step_end_order(), vec![InspectorKind::Debugger, InspectorKind::LogCollector, InspectorKind::ChiselState]);
}

#[test]
fn intercepted_creation_reports_the_created_address() {
    let mut stack = InspectorStack::new();
    stack.begin_inner();
    let mut main = vec![];
    let ok = ExecutionResult::Success {
        reason: SuccessReason::Return,
        gas_used: 10,
        gas_refunded: 0,
        output: vec![],
        created: Some(Address::from_low(0xC4)),
    };
    let r = foundry_core::inner::finish_inner_create(&mut stack, &mut main, &ok, &vec![(Address::from_low(0xC4), account(1, vec![], 1))], 50);
    assert!(!stack.in_inner_context);
    assert_eq!(r.address, Some(Address::from_low(0xC4)));
    assert_eq!(r.gas.remaining, 40);
    assert_eq!(main.len(), 1);
}
