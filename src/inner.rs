use vstd::prelude::*;
use crate::address::Address;
use crate::inspector::{CallOutcome, CreateOutcome, Gas, HaltReason, InspectorStack, InstructionResult, SuccessReason};
use crate::word::U256;

verus! {

/// How a contract creation picks its address.
#[derive(Clone, Copy, Debug, PartialEq, Eq, Structural)]
pub enum CreateScheme {
    Create,
    Create2 { salt: U256 },
}

/// What a transaction is sent to.
#[derive(Clone, Copy, Debug, PartialEq, Eq, Structural)]
pub enum TxKind {
    Call(Address),
    Create(CreateScheme),
}

/// The block a transaction runs in.
#[derive(Clone, Copy, Debug, PartialEq, Eq, Structural)]
pub struct BlockEnv {
    pub number: U256,
    pub coinbase: Address,
    pub timestamp: U256,
    pub gas_limit: U256,
    pub basefee: U256,
    pub difficulty: U256,
}

/// The transaction being run.
#[derive(Clone, Debug)]
pub struct TxEnv {
    pub caller: Address,
    pub transact_to: TxKind,
    pub data: Vec<u8>,
    pub value: U256,
    pub gas_limit: u64,
    pub gas_price: U256,
    pub nonce: Option<u64>,
    pub chain_id: Option<u64>,
}

/// The full environment of a transaction.
#[derive(Clone, Debug)]
pub struct Env {
    pub chain_id: u64,
    pub block: BlockEnv,
    pub tx: TxEnv,
}

/// A call as the interpreter is about to make it.
#[derive(Clone, Debug)]
pub struct CallInputs {
    pub contract: Address,
    pub caller: Address,
    pub input: Vec<u8>,
    pub value: U256,
    pub gas_limit: u64,
    pub is_static: bool,
}

/// A creation as the interpreter is about to make it.
#[derive(Clone, Debug)]
pub struct CreateInputs {
    pub caller: Address,
    pub scheme: CreateScheme,
    pub value: U256,
    pub init_code: Vec<u8>,
    pub gas_limit: u64,
}

/// How a transaction ended.
#[derive(Clone, Debug)]
pub enum ExecutionResult {
    Success {
        reason: SuccessReason,
        gas_used: u64,
        gas_refunded: u64,
        output: Vec<u8>,
        created: Option<Address>,
    },
    Revert { gas_used: u64, output: Vec<u8> },
    Halt { reason: HaltReason, gas_used: u64 },
}

/// Balance, nonce and code of an account.
#[derive(Clone, Copy, Debug, PartialEq, Eq, Structural)]
pub struct AccountInfo {
    pub balance: U256,
    pub nonce: u64,
    pub code_hash: U256,
}

/// An account touched by a transaction. A storage slot holds the value of its last entry.
#[derive(Clone, Debug)]
pub struct Account {
    pub info: AccountInfo,
    pub storage: Vec<(U256, U256)>,
    pub status: u8,
}

/// What is read of an account.
pub struct AccountView {
    pub info: AccountInfo,
    pub storage: Seq<(U256, U256)>,
    pub status: u8,
}

/// Accounts by address; an address stands for its last entry.
pub type State = Vec<(Address, Account)>;

pub open spec fn bytes_of(o: Option<Account>) -> Option<AccountView> {
    match o {
        Some(a) => Some(AccountView { info: a.info, storage: a.storage@, status: a.status }),
        None => None,
    }
}

/// The account that `s` holds for `a`: its last entry.
pub open spec fn account_of(s: Seq<(Address, Account)>, a: Address) -> Option<Account>
    decreases s.len(),
{
    if s.len() == 0 {
        None
    } else if s.last().0 == a {
        Some(s.last().1)
    } else {
        account_of(s.drop_last(), a)
    }
}

/// The value that `storage` holds in slot `k`: its last entry.
pub open spec fn slot_of(storage: Seq<(U256, U256)>, k: U256) -> Option<U256>
    decreases storage.len(),
{
    if storage.len() == 0 {
        None
    } else if storage.last().0 == k {
        Some(storage.last().1)
    } else {
        slot_of(storage.drop_last(), k)
    }
}

/// An account as the main state holds it after merging `n` into `m`: status bits joined,
/// info replaced, storage extended.
pub open spec fn merged_view(m: Option<AccountView>, n: Option<AccountView>) -> Option<AccountView> {
    match n {
        None => m,
        Some(nv) => match m {
            None => Some(nv),
            Some(mv) => Some(
                AccountView {
                    info: nv.info,
                    storage: mv.storage + nv.storage,
                    status: mv.status | nv.status,
                },
            ),
        },
    }
}

/// No address occurs twice in `s`.
pub open spec fn unique_addresses(s: Seq<(Address, Account)>) -> bool {
    forall|i: int, j: int| 0 <= i < j < s.len() ==> s[i].0 != s[j].0
}

/// The environment of an intercepted call run as a transaction of its own: the outer
/// environment with no base fee, no block gas limit and a free gas price, sent from the
/// call's caller with its input, value and gas limit, at the caller's `nonce`.
pub fn inner_call_env(outer: &Env, call: &CallInputs, nonce: u64) -> (r: Env)
    ensures
        r.chain_id == outer.chain_id,
        r.block == (BlockEnv { basefee: U256::zero_spec(), gas_limit: U256::max_spec(), ..outer.block }),
        r.tx.caller == call.caller,
        r.tx.transact_to == TxKind::Call(call.contract),
        r.tx.data@ == call.input@,
        r.tx.value == call.value,
        r.tx.gas_limit == call.gas_limit,
        r.tx.gas_price == U256::zero_spec(),
        r.tx.nonce == Some(nonce),
        r.tx.chain_id == outer.tx.chain_id,
{
    let block = BlockEnv { basefee: U256::zero(), gas_limit: U256::max_value(), ..outer.block };
    let tx = TxEnv {
        caller: call.caller,
        transact_to: TxKind::Call(call.contract),
        data: copy_bytes(&call.input),
        value: call.value,
        gas_limit: call.gas_limit,
        gas_price: U256::zero(),
        nonce: Some(nonce),
        chain_id: outer.tx.chain_id,
    };
    Env { chain_id: outer.chain_id, block, tx }
}

/// The environment of an intercepted creation run as a transaction of its own, built as
/// for a call, with the creation's scheme and init code.
pub fn inner_create_env(outer: &Env, create: &CreateInputs, nonce: u64) -> (r: Env)
    ensures
        r.chain_id == outer.chain_id,
        r.block == (BlockEnv { basefee: U256::zero_spec(), gas_limit: U256::max_spec(), ..outer.block }),
        r.tx.caller == create.caller,
        r.tx.transact_to == TxKind::Create(create.scheme),
        r.tx.data@ == create.init_code@,
        r.tx.value == create.value,
        r.tx.gas_limit == create.gas_limit,
        r.tx.gas_price == U256::zero_spec(),
        r.tx.nonce == Some(nonce),
        r.tx.chain_id == outer.tx.chain_id,
{
    let block = BlockEnv { basefee: U256::zero(), gas_limit: U256::max_value(), ..outer.block };
    let tx = TxEnv {
        caller: create.caller,
        transact_to: TxKind::Create(create.scheme),
        data: copy_bytes(&create.init_code),
        value: create.value,
        gas_limit: create.gas_limit,
        gas_price: U256::zero(),
        nonce: Some(nonce),
        chain_id: outer.tx.chain_id,
    };
    Env { chain_id: outer.chain_id, block, tx }
}

/// Starts running an intercepted call at `depth` as a transaction of its own, where the
/// stack does that: the environment to run it in, with the stack now in its inner
/// context; `None`, and nothing changed, where the call runs as it is.
pub fn begin_inner_call(
    stack: &mut InspectorStack,
    outer: &Env,
    call: &CallInputs,
    depth: u64,
    nonce: u64,
) -> (r: Option<Env>)
    ensures
        !call.is_static && !old(stack).in_inner_context && depth == 1 ==> {
            &&& r is Some
            &&& r->0.tx.caller == call.caller
            &&& r->0.tx.transact_to == TxKind::Call(call.contract)
            &&& r->0.tx.data@ == call.input@
            &&& r->0.tx.gas_limit == call.gas_limit
            &&& r->0.tx.gas_price == U256::zero_spec()
            &&& r->0.tx.nonce == Some(nonce)
            &&& r->0.block == (BlockEnv {
                basefee: U256::zero_spec(),
                gas_limit: U256::max_spec(),
                ..outer.block
            })
            &&& *final(stack) == (InspectorStack { in_inner_context: true, ..*old(stack) })
        },
        !(!call.is_static && !old(stack).in_inner_context && depth == 1) ==> r is None,
        !(!call.is_static && !old(stack).in_inner_context && depth == 1) ==> *final(stack) == *old(stack),
{
    if stack.runs_inner_call(depth, call.is_static) {
        let env = inner_call_env(outer, call, nonce);
        stack.begin_inner();
        Some(env)
    } else {
        None
    }
}

/// Closes an intercepted call that ran as a transaction of its own: what it wrote is
/// merged into `main`, the stack leaves its inner context, and the answer at the call site
/// is the translated result.
pub fn finish_inner_call(
    stack: &mut InspectorStack,
    main: &mut State,
    res: &ExecutionResult,
    written: &State,
    gas_limit: u64,
) -> (r: CallOutcome)
    requires
        unique_addresses(written@),
    ensures
        *final(stack) == (InspectorStack { in_inner_context: false, ..*old(stack) }),
        forall|a: Address|
            #[trigger] bytes_of(account_of(final(main)@, a)) == merged_view(
                bytes_of(account_of(old(main)@, a)),
                bytes_of(account_of(written@, a)),
            ),
        r.status == match *res {
            ExecutionResult::Success { reason, .. } => success_status(reason),
            ExecutionResult::Halt { reason, .. } => halt_status(reason),
            ExecutionResult::Revert { .. } => InstructionResult::Revert,
        },
        r.gas == match *res {
            ExecutionResult::Success { gas_used, gas_refunded, .. } => gas_after(
                gas_limit,
                gas_used,
                refund_of(gas_refunded),
            ),
            ExecutionResult::Halt { gas_used, .. } => gas_after(gas_limit, gas_used, 0),
            ExecutionResult::Revert { gas_used, .. } => gas_after(gas_limit, gas_used, 0),
        },
        r.output@ == match *res {
            ExecutionResult::Success { output, .. } => output@,
            ExecutionResult::Halt { .. } => Seq::<u8>::empty(),
            ExecutionResult::Revert { output, .. } => output@,
        },
{
    stack.end_inner();
    merge_states(main, written);
    let r = translate_result(res, gas_limit);
    proof {
        if res is Halt {
            assert(r.output@ =~= Seq::<u8>::empty());
        }
    }
    r
}

/// Starts running an intercepted creation at `depth` as a transaction of its own, where
/// the stack does that: the environment to run it in, with the stack now in its inner
/// context; `None`, and nothing changed, where the creation runs as it is.
pub fn begin_inner_create(
    stack: &mut InspectorStack,
    outer: &Env,
    create: &CreateInputs,
    depth: u64,
    nonce: u64,
) -> (r: Option<Env>)
    ensures
        !old(stack).in_inner_context && depth == 1 ==> {
            &&& r is Some
            &&& r->0.tx.caller == create.caller
            &&& r->0.tx.transact_to == TxKind::Create(create.scheme)
            &&& r->0.tx.data@ == create.init_code@
            &&& r->0.tx.gas_limit == create.gas_limit
            &&& r->0.tx.gas_price == U256::zero_spec()
            &&& r->0.tx.nonce == Some(nonce)
            &&& r->0.block == (BlockEnv {
                basefee: U256::zero_spec(),
                gas_limit: U256::max_spec(),
                ..outer.block
            })
            &&& *final(stack) == (InspectorStack { in_inner_context: true, ..*old(stack) })
        },
        !(!old(stack).in_inner_context && depth == 1) ==> r is None,
        !(!old(stack).in_inner_context && depth == 1) ==> *final(stack) == *old(stack),
{
    if stack.runs_inner_create(depth) {
        let env = inner_create_env(outer, create, nonce);
        stack.begin_inner();
        Some(env)
    } else {
        None
    }
}

/// Closes an intercepted creation that ran as a transaction of its own: as for a call,
/// and the answer also carries the created address, on success only.
pub fn finish_inner_create(
    stack: &mut InspectorStack,
    main: &mut State,
    res: &ExecutionResult,
    written: &State,
    gas_limit: u64,
) -> (r: CreateOutcome)
    requires
        unique_addresses(written@),
    ensures
        *final(stack) == (InspectorStack { in_inner_context: false, ..*old(stack) }),
        forall|a: Address|
            #[trigger] bytes_of(account_of(final(main)@, a)) == merged_view(
                bytes_of(account_of(old(main)@, a)),
                bytes_of(account_of(written@, a)),
            ),
        r.address == (match *res {
            ExecutionResult::Success { created, .. } => created,
            _ => None,
        }),
        r.status == match *res {
            ExecutionResult::Success { reason, .. } => success_status(reason),
            ExecutionResult::Halt { reason, .. } => halt_status(reason),
            ExecutionResult::Revert { .. } => InstructionResult::Revert,
        },
        r.gas == match *res {
            ExecutionResult::Success { gas_used, gas_refunded, .. } => gas_after(
                gas_limit,
                gas_used,
                refund_of(gas_refunded),
            ),
            ExecutionResult::Halt { gas_used, .. } => gas_after(gas_limit, gas_used, 0),
            ExecutionResult::Revert { gas_used, .. } => gas_after(gas_limit, gas_used, 0),
        },
        r.output@ == match *res {
            ExecutionResult::Success { output, .. } => output@,
            ExecutionResult::Halt { .. } => Seq::<u8>::empty(),
            ExecutionResult::Revert { output, .. } => output@,
        },
{
    let c = finish_inner_call(stack, main, res, written, gas_limit);
    CreateOutcome { status: c.status, address: created_address(res), gas: c.gas, output: c.output }
}

/// The status that a successful end maps to.
pub open spec fn success_status(reason: SuccessReason) -> InstructionResult {
    match reason {
        SuccessReason::Stop => InstructionResult::Stop,
        SuccessReason::Return => InstructionResult::Return,
        SuccessReason::SelfDestruct => InstructionResult::SelfDestruct,
    }
}

/// The status that a halt maps to.
pub open spec fn halt_status(reason: HaltReason) -> InstructionResult {
    match reason {
        HaltReason::OutOfGas => InstructionResult::OutOfGas,
        HaltReason::OpcodeNotFound => InstructionResult::OpcodeNotFound,
        HaltReason::InvalidJump => InstructionResult::InvalidJump,
        HaltReason::StackUnderflow => InstructionResult::StackUnderflow,
        HaltReason::StackOverflow => InstructionResult::StackOverflow,
        HaltReason::CallTooDeep => InstructionResult::CallTooDeep,
        HaltReason::OutOfFunds => InstructionResult::OutOfFunds,
        HaltReason::CreateCollision => InstructionResult::CreateCollision,
        HaltReason::NonceOverflow => InstructionResult::NonceOverflow,
    }
}

fn success_to_status(reason: SuccessReason) -> (r: InstructionResult)
    ensures
        r == success_status(reason),
{
    match reason {
        SuccessReason::Stop => InstructionResult::Stop,
        SuccessReason::Return => InstructionResult::Return,
        SuccessReason::SelfDestruct => InstructionResult::SelfDestruct,
    }
}

fn halt_to_status(reason: HaltReason) -> (r: InstructionResult)
    ensures
        r == halt_status(reason),
{
    match reason {
        HaltReason::OutOfGas => InstructionResult::OutOfGas,
        HaltReason::OpcodeNotFound => InstructionResult::OpcodeNotFound,
        HaltReason::InvalidJump => InstructionResult::InvalidJump,
        HaltReason::StackUnderflow => InstructionResult::StackUnderflow,
        HaltReason::StackOverflow => InstructionResult::StackOverflow,
        HaltReason::CallTooDeep => InstructionResult::CallTooDeep,
        HaltReason::OutOfFunds => InstructionResult::OutOfFunds,
        HaltReason::CreateCollision => InstructionResult::CreateCollision,
        HaltReason::NonceOverflow => InstructionResult::NonceOverflow,
    }
}

/// The gas left of `gas_limit` after `used`, where it fits.
pub open spec fn gas_after(gas_limit: u64, used: u64, refunded: i64) -> Gas {
    Gas {
        limit: gas_limit,
        remaining: if used <= gas_limit { (gas_limit - used) as u64 } else { gas_limit },
        refunded,
    }
}

/// The refund as a signed amount, capped at the largest one.
pub open spec fn refund_of(gas_refunded: u64) -> i64 {
    if gas_refunded <= i64::MAX as u64 { gas_refunded as i64 } else { i64::MAX }
}

/// The answer at the call site for an inner transaction's end: success keeps its status
/// and output, a halt gives its status and no output, a revert gives `Revert` and its
/// output; the gas is the call's limit less what the transaction used.
pub fn translate_result(res: &ExecutionResult, gas_limit: u64) -> (r: CallOutcome)
    ensures
        match *res {
            ExecutionResult::Success { reason, gas_used, gas_refunded, output, created } => {
                &&& r.status == success_status(reason)
                &&& r.gas == gas_after(gas_limit, gas_used, refund_of(gas_refunded))
                &&& r.output@ == output@
            },
            ExecutionResult::Halt { reason, gas_used } => {
                &&& r.status == halt_status(reason)
                &&& r.gas == gas_after(gas_limit, gas_used, 0)
                &&& r.output@.len() == 0
            },
            ExecutionResult::Revert { gas_used, output } => {
                &&& r.status == InstructionResult::Revert
                &&& r.gas == gas_after(gas_limit, gas_used, 0)
                &&& r.output@ == output@
            },
        },
{
    let mut gas = Gas::new(gas_limit);
    match res {
        ExecutionResult::Success { reason, gas_used, gas_refunded, output, created } => {
            let refund: i64 = if *gas_refunded <= i64::MAX as u64 {
                *gas_refunded as i64
            } else {
                i64::MAX
            };
            gas.set_refund(refund);
            gas.record_cost(*gas_used);
            CallOutcome { status: success_to_status(*reason), gas, output: copy_bytes(output) }
        },
        ExecutionResult::Halt { reason, gas_used } => {
            gas.record_cost(*gas_used);
            CallOutcome { status: halt_to_status(*reason), gas, output: Vec::new() }
        },
        ExecutionResult::Revert { gas_used, output } => {
            gas.record_cost(*gas_used);
            CallOutcome { status: InstructionResult::Revert, gas, output: copy_bytes(output) }
        },
    }
}

/// The address that an inner creation reports: the created one on success, none else.
pub fn created_address(res: &ExecutionResult) -> (r: Option<Address>)
    ensures
        r == (match *res {
            ExecutionResult::Success { created, .. } => created,
            _ => None,
        }),
{
    match res {
        ExecutionResult::Success { created, .. } => *created,
        _ => None,
    }
}

fn copy_bytes(b: &Vec<u8>) -> (r: Vec<u8>)
    ensures
        r@ == b@,
{
    let mut r: Vec<u8> = Vec::new();
    let mut i: usize = 0;
    while i < b.len()
        invariant
            i <= b.len(),
            r@ == b@.subrange(0, i as int),
        decreases b.len() - i,
    {
        r.push(b[i]);
        i = i + 1;
    }
    assert(r@ =~= b@);
    r
}

fn copy_slots(s: &Vec<(U256, U256)>, into: &mut Vec<(U256, U256)>)
    ensures
        final(into)@ == old(into)@ + s@,
{
    let ghost start = into@;
    let mut i: usize = 0;
    while i < s.len()
        invariant
            i <= s.len(),
            into@ == start + s@.subrange(0, i as int),
        decreases s.len() - i,
    {
        into.push(s[i]);
        i = i + 1;
        assert(s@.subrange(0, i as int) == s@.subrange(0, i - 1).push(s@[i - 1]));
    }
    assert(s@.subrange(0, s@.len() as int) =~= s@);
}

/// The index of the entry that stands for `a` in `s`: its last one.
pub(crate) fn find_account(s: &State, a: Address) -> (r: Option<usize>)
    ensures
        match r {
            Some(i) => i < s@.len() && s@[i as int].0 == a && account_of(s@, a) == Some(s@[i as int].1),
            None => account_of(s@, a) is None,
        },
{
    let mut i: usize = s.len();
    assert(s@.subrange(0, i as int) =~= s@);
    while i > 0
        invariant
            i <= s@.len(),
            account_of(s@, a) == account_of(s@.subrange(0, i as int), a),
        decreases i,
    {
        let ghost pre = s@.subrange(0, i as int);
        assert(pre.drop_last() == s@.subrange(0, i - 1));
        if s[i - 1].0 == a {
            return Some(i - 1);
        }
        i = i - 1;
    }
    None
}

proof fn lemma_absent(s: Seq<(Address, Account)>, a: Address)
    requires
        forall|k: int| 0 <= k < s.len() ==> s[k].0 != a,
    ensures
        account_of(s, a) is None,
    decreases s.len(),
{
    if s.len() > 0 {
        lemma_absent(s.drop_last(), a);
    }
}

/// Merges the accounts of `new_state` into `main`: an account already there gets the
/// status bits of both, the new info, and the new storage written over the old; any
/// other is added as it is.
pub fn merge_states(main: &mut State, new_state: &State)
    requires
        unique_addresses(new_state@),
    ensures
        forall|a: Address|
            #[trigger] bytes_of(account_of(final(main)@, a)) == merged_view(
                bytes_of(account_of(old(main)@, a)),
                bytes_of(account_of(new_state@, a)),
            ),
{
    let ghost start = main@;
    let mut i: usize = 0;
    while i < new_state.len()
        invariant
            i <= new_state@.len(),
            unique_addresses(new_state@),
            forall|a: Address|
                #[trigger] bytes_of(account_of(main@, a)) == merged_view(
                    bytes_of(account_of(start, a)),
                    bytes_of(account_of(new_state@.subrange(0, i as int), a)),
                ),
        decreases new_state@.len() - i,
    {
        let addr = new_state[i].0;
        let acc = &new_state[i].1;
        let ghost done = new_state@.subrange(0, i as int);
        let ghost done_next = new_state@.subrange(0, i + 1);
        proof {
            assert(done_next.drop_last() == done);
            assert forall|k: int| 0 <= k < done.len() implies done[k].0 != addr by {
                assert(done[k] == new_state@[k]);
            }
            lemma_absent(done, addr);
        }
        let mut storage: Vec<(U256, U256)> = Vec::new();
        let status: u8;
        match find_account(main, addr) {
            Some(j) => {
                copy_slots(&main[j].1.storage, &mut storage);
                status = main[j].1.status | acc.status;
            },
            None => {
                status = acc.status;
            },
        }
        copy_slots(&acc.storage, &mut storage);
        let merged = Account { info: acc.info, storage, status };
        let ghost before = main@;
        main.push((addr, merged));
        proof {
            assert(main@.drop_last() == before);
            assert forall|a: Address|
                #[trigger] bytes_of(account_of(main@, a)) == merged_view(
                    bytes_of(account_of(start, a)),
                    bytes_of(account_of(done_next, a)),
                ) by {
                if a != addr {
                    assert(account_of(main@, a) == account_of(before, a));
                    assert(account_of(done_next, a) == account_of(done, a));
                } else {
                    assert(bytes_of(account_of(before, a)) == bytes_of(account_of(start, a)));
                }
            }
        }
        i = i + 1;
    }
    proof {
        assert(new_state@.subrange(0, new_state@.len() as int) =~= new_state@);
    }
}

} // verus!
