use foundry_core::address::Address;
use foundry_core::prank::{uint_in_range, CallContext, CheatError, Cheatcodes, IgnoredTraces, Prank};
use foundry_core::word::U256;
use proptest::test_runner::TestRunner;

fn ctx(caller: u128, depth: u64) -> CallContext {
    CallContext {
        caller: Address::from_low(caller),
        origin: Address::from_low(0x0123),
        depth,
        is_delegatecall: false,
    }
}

#[test]
fn single_call_prank_applies_once() {
    let mut cheats = Cheatcodes::new();
    cheats.prank(&ctx(0xAAAA, 1), Address::from_low(0xBEEF), None, true, false).unwrap();
    let first = cheats.on_call(&ctx(0xAAAA, 1));
    assert_eq!(first.caller, Address::from_low(0xBEEF));
    assert!(cheats.prank.unwrap().used);
    assert_eq!(cheats.on_call_end(1), Some(Address::from_low(0x0123)));
    assert!(cheats.prank.is_none());
    let second = cheats.on_call(&ctx(0xAAAA, 1));
    assert_eq!(second.caller, Address::from_low(0xAAAA));
}

#[test]
fn start_prank_stays_until_stopped() {
    let mut cheats = Cheatcodes::new();
    cheats.prank(&ctx(0xAAAA, 1), Address::from_low(0xBEEF), Some(Address::from_low(0xCAFE)), false, false).unwrap();
    for _ in 0..3 {
        let seen = cheats.on_call(&ctx(0xAAAA, 1));
        assert_eq!(seen.caller, Address::from_low(0xBEEF));
        assert_eq!(seen.origin, Address::from_low(0xCAFE));
        cheats.on_call_end(1);
        assert!(cheats.prank.is_some());
    }
    let deeper = cheats.on_call(&ctx(0xAAAA, 2));
    assert_eq!(deeper.caller, Address::from_low(0xAAAA));
    assert_eq!(deeper.origin, Address::from_low(0xCAFE));
    cheats.stop_prank();
    assert_eq!(cheats.on_call(&ctx(0xAAAA, 1)), ctx(0xAAAA, 1));
}

#[test]
fn unused_prank_cannot_be_overwritten() {
    let mut cheats = Cheatcodes::new();
    cheats.prank(&ctx(0xAAAA, 1), Address::from_low(0xBEEF), None, true, false).unwrap();
    for new_caller in [0x1u128, 0xBEEF, 0xFFFF] {
        let r = cheats.prank(&ctx(0xAAAA, 1), Address::from_low(new_caller), None, true, false);
        assert_eq!(r, Err(CheatError::PrankNotApplied));
    }
    assert_eq!(cheats.prank.unwrap().new_caller, Address::from_low(0xBEEF));
}

#[test]
fn ongoing_prank_kind_cannot_change() {
    let mut cheats = Cheatcodes::new();
    cheats.prank(&ctx(0xAAAA, 1), Address::from_low(0xBEEF), None, false, false).unwrap();
    cheats.on_call(&ctx(0xAAAA, 1));
    let r = cheats.prank(&ctx(0xAAAA, 1), Address::from_low(0x1), None, true, false);
    assert_eq!(r, Err(CheatError::PrankKindMismatch));
    assert!(cheats.prank(&ctx(0xAAAA, 1), Address::from_low(0x1), None, false, false).is_ok());
}

#[test]
fn prank_and_broadcast_exclude_each_other() {
    let mut cheats = Cheatcodes::new();
    cheats.start_broadcast(&ctx(0xAAAA, 1), Address::from_low(0x77), false).unwrap();
    let r = cheats.prank(&ctx(0xAAAA, 1), Address::from_low(0xBEEF), None, true, false);
    assert_eq!(r, Err(CheatError::PrankDuringBroadcast));
    assert_eq!(
        cheats.start_broadcast(&ctx(0xAAAA, 1), Address::from_low(0x77), false),
        Err(CheatError::BroadcastActive)
    );
    cheats.stop_broadcast();
    cheats.prank(&ctx(0xAAAA, 1), Address::from_low(0xBEEF), None, true, false).unwrap();
    assert_eq!(
        cheats.start_broadcast(&ctx(0xAAAA, 1), Address::from_low(0x77), false),
        Err(CheatError::BroadcastDuringPrank)
    );
    assert!(CheatError::PrankNotApplied.message().starts_with("cannot overwrite"));
}

#[test]
fn delegate_calls_follow_the_prank_flag() {
    let mut cheats = Cheatcodes::new();
    cheats.prank(&ctx(0xAAAA, 1), Address::from_low(0xBEEF), None, true, false).unwrap();
    let mut dc = ctx(0xAAAA, 1);
    dc.is_delegatecall = true;
    assert_eq!(cheats.on_call(&dc).caller, Address::from_low(0xAAAA));
    assert!(!cheats.prank.unwrap().used);
    let mut cheats = Cheatcodes::new();
    cheats.prank(&ctx(0xAAAA, 1), Address::from_low(0xBEEF), None, true, true).unwrap();
    assert_eq!(cheats.on_call(&dc).caller, Address::from_low(0xBEEF));
}

#[test]
fn first_application_marks_prank_used() {
    let p = Prank::new(Address::from_low(1), Address::from_low(2), Address::from_low(3), None, 4, true, false);
    let applied = p.first_time_applied().unwrap();
    assert!(applied.used);
    assert_eq!(applied.depth, 4);
    assert!(applied.first_time_applied().is_none());
}

#[test]
fn labels_keep_the_latest_name() {
    let mut cheats = Cheatcodes::new();
    assert_eq!(cheats.get_label(Address::from_low(5)), None);
    cheats.label(Address::from_low(5), "alice".to_string());
    cheats.label(Address::from_low(6), "bob".to_string());
    cheats.label(Address::from_low(5), "carol".to_string());
    assert_eq!(cheats.get_label(Address::from_low(5)), Some("carol".to_string()));
    assert_eq!(cheats.get_label(Address::from_low(6)), Some("bob".to_string()));
}

#[test]
fn tracing_pause_and_resume() {
    let mut t = IgnoredTraces::new();
    t.resume(Some((1, 1)));
    assert!(t.ignored.is_empty());
    t.pause(None);
    assert_eq!(t.last_pause_call, None);
    t.pause(Some((2, 3)));
    t.pause(Some((4, 5)));
    assert_eq!(t.last_pause_call, Some((2, 3)));
    t.resume(None);
    assert_eq!(t.last_pause_call, Some((2, 3)));
    t.resume(Some((6, 7)));
    assert_eq!(t.ignored, vec![((2, 3), (6, 7))]);
    assert_eq!(t.last_pause_call, None);
}

#[test]
fn random_uint_respects_bounds() {
    assert_eq!(
        uint_in_range(&U256::from_u64(10), &U256::from_u64(19), &U256::from_u64(25)),
        Ok(U256::from_u64(15))
    );
    assert_eq!(
        uint_in_range(&U256::from_u64(20), &U256::from_u64(19), &U256::from_u64(25)),
        Err(CheatError::InvalidBounds)
    );
    assert_eq!(
        uint_in_range(&U256::zero(), &U256::max_value(), &U256::from_u64(25)),
        Ok(U256::from_u64(25))
    );
    let mut runner = TestRunner::deterministic();
    for _ in 0..100 {
        let v = Cheatcodes::random_uint(&mut runner, &U256::from_u64(3), &U256::from_u64(5)).unwrap();
        assert!(U256::from_u64(3).le(&v) && v.le(&U256::from_u64(5)));
    }
}

fn acct(nonce: u64, slots: Vec<(u64, u64)>) -> foundry_core::inner::Account {
    foundry_core::inner::Account {
        info: foundry_core::inner::AccountInfo { balance: U256::zero(), nonce, code_hash: U256::zero() },
        storage: slots.into_iter().map(|(k, v)| (U256::from_u64(k), U256::from_u64(v))).collect(),
        status: 0,
    }
}

#[test]
fn copy_storage_replaces_target_storage() {
    let mut cheats = Cheatcodes::new();
    let mut state = vec![(Address::from_low(1), acct(1, vec![(7, 70)])), (Address::from_low(2), acct(2, vec![(8, 80)]))];
    cheats.copy_storage(&mut state, Address::from_low(1), Address::from_low(2)).unwrap();
    let to = &state.iter().rev().find(|(a, _)| *a == Address::from_low(2)).unwrap().1;
    assert_eq!(to.storage, vec![(U256::from_u64(7), U256::from_u64(70))]);
    assert_eq!(to.info.nonce, 2);
    assert_eq!(cheats.storage_copies, vec![(Address::from_low(1), Address::from_low(2))]);
    cheats.set_arbitrary_storage(Address::from_low(2));
    assert!(cheats.has_arbitrary_storage(Address::from_low(2)));
    assert_eq!(
        cheats.copy_storage(&mut state, Address::from_low(1), Address::from_low(2)),
        Err(CheatError::InvalidTarget)
    );
    let before = state.len();
    cheats.copy_storage(&mut state, Address::from_low(1), Address::from_low(9)).unwrap();
    assert_eq!(state.len(), before);
}

#[test]
fn random_bytes_have_the_asked_length() {
    assert_eq!(foundry_core::prank::fit_bytes(vec![1, 2, 3], 2), vec![1, 2]);
    assert_eq!(foundry_core::prank::fit_bytes(vec![1], 3), vec![1, 0, 0]);
    let mut runner = TestRunner::deterministic();
    assert_eq!(foundry_core::prank::random_bytes(&mut runner, 40).len(), 40);
}

#[test]
fn refused_cheats_leave_the_state_alone() {
    let mut cheats = Cheatcodes::new();
    cheats.label(Address::from_low(5), "x".to_string());
    cheats.set_arbitrary_storage(Address::from_low(2));
    cheats.prank(&ctx(0xAAAA, 1), Address::from_low(0xBEEF), None, true, false).unwrap();
    let before = format!("{:?}", cheats);
    assert!(cheats.prank(&ctx(0xAAAA, 1), Address::from_low(1), None, true, false).is_err());
    let mut state = vec![];
    assert!(cheats.copy_storage(&mut state, Address::from_low(1), Address::from_low(2)).is_err());
    assert_eq!(format!("{:?}", cheats), before);
}
