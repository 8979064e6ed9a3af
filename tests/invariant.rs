use foundry_core::address::{cheatcode_address, Address};
use foundry_core::invariant_fuzz::{
    generate_sequence, select_contracts, select_random_function, select_random_sender,
    select_senders, Action, Function, InvariantFuzzError, InvariantFuzzTestResult, ParamKind,
    Phase, SequenceRun, StateMutability, TargetContract,
};
use proptest::test_runner::TestRunner;

fn function(name: &str, m: StateMutability, inputs: Vec<ParamKind>) -> Function {
    Function { name: name.to_string(), inputs, state_mutability: m }
}

fn contract(a: u128) -> TargetContract {
    TargetContract {
        address: Address::from_low(a),
        name: format!("C{a}"),
        abi: vec![
            function("get", StateMutability::View, vec![]),
            function("set", StateMutability::NonPayable, vec![ParamKind::Uint(8), ParamKind::Bool]),
            function("pay", StateMutability::Payable, vec![ParamKind::Address]),
        ],
    }
}

#[test]
fn targets_follow_the_allow_list() {
    let invariant_address = Address::from_low(0x10);
    let contracts = vec![contract(0x10), contract(0x20), contract(0x30), TargetContract { address: cheatcode_address(), name: "vm".to_string(), abi: vec![] }];
    let selected = vec![Address::from_low(0x30)];
    let targets = select_contracts(contracts, invariant_address, &selected);
    assert_eq!(targets.len(), 1);
    assert_eq!(targets[0].address, Address::from_low(0x30));
    let mut runner = TestRunner::deterministic();
    for _ in 0..50 {
        let seq = generate_sequence(&mut runner, 3, &targets, &vec![]);
        assert!(!seq.is_empty() && seq.len() <= 3);
        for step in &seq {
            assert_eq!(step.target, Address::from_low(0x30));
            assert!(step.function == 1 || step.function == 2);
            assert_eq!(step.args.len(), targets[0].abi[step.function].inputs.len());
        }
    }
}

#[test]
fn without_allow_list_all_but_reserved_are_targets() {
    let contracts = vec![contract(0x10), contract(0x20), contract(0x30)];
    let targets = select_contracts(contracts, Address::from_low(0x20), &vec![]);
    let addrs: Vec<Address> = targets.iter().map(|t| t.address).collect();
    assert_eq!(addrs, vec![Address::from_low(0x10), Address::from_low(0x30)]);
}

#[test]
fn only_state_changing_functions_are_picked() {
    let abi = contract(1).abi;
    assert_eq!(select_random_function(&abi, 0), Some(1));
    assert_eq!(select_random_function(&abi, 1), Some(2));
    assert_eq!(select_random_function(&abi, 2), Some(1));
    let views = vec![function("a", StateMutability::Pure, vec![]), function("b", StateMutability::View, vec![])];
    assert_eq!(select_random_function(&views, 5), None);
}

#[test]
fn senders_come_from_the_list_when_given() {
    let senders = vec![Address::from_low(1), Address::from_low(2)];
    assert_eq!(select_random_sender(&senders, 3, Address::from_low(9)), Address::from_low(2));
    assert_eq!(select_random_sender(&vec![], 3, Address::from_low(9)), Address::from_low(9));
    assert_eq!(select_senders(None).len(), 0);
    assert_eq!(select_senders(Some(senders.clone())), senders);
    let targets = vec![contract(0x30)];
    let mut runner = TestRunner::deterministic();
    for step in generate_sequence(&mut runner, 5, &targets, &senders) {
        assert!(senders.contains(&step.sender));
    }
}

#[test]
fn reverted_calls_are_skipped_and_first_break_stops() {
    let mut run = SequenceRun::new(3, 2);
    assert_eq!(run.next_action(), Action::Call(0));
    run.on_call_result(true, 10, 0);
    assert_eq!(run.next_action(), Action::Call(1));
    run.on_call_result(false, 20, 1);
    assert_eq!(run.next_action(), Action::Check { step: 1, invariant: 0 });
    run.on_check_result(false);
    assert_eq!(run.next_action(), Action::Check { step: 1, invariant: 1 });
    run.on_check_result(false);
    assert_eq!(run.cases.len(), 1);
    assert_eq!(run.cases[0].gas, 20);
    assert_eq!(run.next_action(), Action::Call(2));
    run.on_call_result(false, 30, 0);
    run.on_check_result(true);
    assert_eq!(run.broken, Some(0));
    assert_eq!(run.phase, Phase::Done);
    assert_eq!(run.next_action(), Action::Finished);
    assert_eq!(run.cases.len(), 1);
}

#[test]
fn runs_without_invariants_record_every_call() {
    let mut run = SequenceRun::new(2, 0);
    run.on_call_result(false, 1, 0);
    run.on_call_result(false, 2, 0);
    assert_eq!(run.cases.len(), 2);
    assert_eq!(run.next_action(), Action::Finished);
    assert_eq!(SequenceRun::new(0, 1).next_action(), Action::Finished);
}

#[test]
fn only_the_first_violation_is_kept() {
    let mut result = InvariantFuzzTestResult::new(2);
    result.record_violation(InvariantFuzzError { invariant: 1, sequence: vec![], revert_reason: "first".to_string() });
    result.record_violation(InvariantFuzzError { invariant: 1, sequence: vec![], revert_reason: "second".to_string() });
    assert!(result.invariants[0].is_none());
    assert_eq!(result.invariants[1].as_ref().unwrap().revert_reason, "first");
    let mut run = SequenceRun::new(1, 0);
    run.on_call_result(false, 5, 0);
    result.add_cases(&run);
    assert_eq!(result.cases.len(), 1);
}

#[test]
fn sequences_have_at_least_one_call() {
    let targets = vec![contract(0x30), contract(0x40)];
    let mut runner = TestRunner::deterministic();
    for _ in 0..100 {
        let seq = generate_sequence(&mut runner, 3, &targets, &vec![]);
        assert!(1 <= seq.len() && seq.len() <= 3);
    }
}

#[test]
fn plan_step_picks_cyclically() {
    use_plan_step();
}

fn use_plan_step() {
    let targets = vec![contract(0x30), TargetContract { address: Address::from_low(0x50), name: "V".to_string(), abi: vec![function("v", StateMutability::View, vec![])] }];
    let senders = vec![Address::from_low(1), Address::from_low(2)];
    let d = foundry_core::invariant_fuzz::StepDraw { target: 2, function: 3, sender: 5, fallback: Address::from_low(9) };
    assert_eq!(foundry_core::invariant_fuzz::plan_step(&targets, &senders, &d), Some((0, 2, Address::from_low(2))));
    let d1 = foundry_core::invariant_fuzz::StepDraw { target: 1, ..d };
    assert_eq!(foundry_core::invariant_fuzz::plan_step(&targets, &senders, &d1), None);
    assert_eq!(foundry_core::invariant_fuzz::plan_step(&targets, &vec![], &d), Some((0, 2, Address::from_low(9))));
}
