use vstd::prelude::*;
use crate::address::{Address, cheatcode_address, cheatcode_address_spec, console_address, console_address_spec};
use crate::draw::{draw_below, draw_u128};
use crate::uint::UintStrategy;
use crate::word::U256;
use proptest::test_runner::TestRunner;

verus! {

/// Whether a function may change state.
#[derive(Clone, Copy, Debug, PartialEq, Eq, Structural)]
pub enum StateMutability {
    Pure,
    View,
    NonPayable,
    Payable,
}

/// The type of a function parameter, as far as the fuzzer reads it.
#[derive(Clone, Copy, Debug, PartialEq, Eq, Structural)]
pub enum ParamKind {
    Uint(usize),
    Address,
    Bool,
    Other,
}

/// A function of a contract's interface.
#[derive(Clone, Debug)]
pub struct Function {
    pub name: String,
    pub inputs: Vec<ParamKind>,
    pub state_mutability: StateMutability,
}

/// A deployed contract that calls can be sent to.
#[derive(Clone, Debug)]
pub struct TargetContract {
    pub address: Address,
    pub name: String,
    pub abi: Vec<Function>,
}

/// One call of a sequence: who sends it, where, which function, with what arguments.
#[derive(Clone, Debug)]
pub struct CallStep {
    pub sender: Address,
    pub target: Address,
    /// Index of the function in the target's interface.
    pub function: usize,
    pub args: Vec<U256>,
}

/// Whether calls may be sent to a contract at `addr`: not the contract holding the
/// invariants, not a reserved address, and on the allow-list where there is one.
pub open spec fn is_target(addr: Address, invariant_address: Address, selected: Seq<Address>) -> bool {
    &&& addr != invariant_address
    &&& addr != cheatcode_address_spec()
    &&& addr != console_address_spec()
    &&& (selected.len() == 0 || selected.contains(addr))
}

/// The contracts of `s` that calls may be sent to, in order.
pub open spec fn targets_of(s: Seq<TargetContract>, invariant_address: Address, selected: Seq<Address>) -> Seq<
    TargetContract,
>
    decreases s.len(),
{
    if s.len() == 0 {
        Seq::empty()
    } else if is_target(s[0].address, invariant_address, selected) {
        seq![s[0]] + targets_of(s.drop_first(), invariant_address, selected)
    } else {
        targets_of(s.drop_first(), invariant_address, selected)
    }
}

pub proof fn lemma_targets_are_targets(
    s: Seq<TargetContract>,
    invariant_address: Address,
    selected: Seq<Address>,
)
    ensures
        forall|i: int|
            0 <= i < targets_of(s, invariant_address, selected).len() ==> is_target(
                #[trigger] targets_of(s, invariant_address, selected)[i].address,
                invariant_address,
                selected,
            ),
    decreases s.len(),
{
    if s.len() > 0 {
        lemma_targets_are_targets(s.drop_first(), invariant_address, selected);
        let rest = targets_of(s.drop_first(), invariant_address, selected);
        if is_target(s[0].address, invariant_address, selected) {
            assert forall|i: int|
                0 <= i < targets_of(s, invariant_address, selected).len() implies is_target(
                #[trigger] targets_of(s, invariant_address, selected)[i].address,
                invariant_address,
                selected,
            ) by {
                if i > 0 {
                    assert(targets_of(s, invariant_address, selected)[i] == rest[i - 1]);
                }
            }
        }
    }
}

fn contains_address(v: &Vec<Address>, a: Address) -> (r: bool)
    ensures
        r == v@.contains(a),
{
    let mut i: usize = 0;
    while i < v.len()
        invariant
            i <= v.len(),
            forall|j: int| 0 <= j < i ==> v@[j] != a,
        decreases v.len() - i,
    {
        if v[i] == a {
            return true;
        }
        i = i + 1;
    }
    false
}

fn keeps_target(
    addr: Address,
    invariant_address: Address,
    selected: &Vec<Address>,
    cheat: Address,
    console: Address,
) -> (r: bool)
    requires
        cheat == cheatcode_address_spec(),
        console == console_address_spec(),
    ensures
        r == is_target(addr, invariant_address, selected@),
{
    if addr == invariant_address || addr == cheat || addr == console {
        return false;
    }
    selected.len() == 0 || contains_address(selected, addr)
}

/// The contracts that calls may be sent to: all but the contract holding the invariants
/// and the reserved addresses, restricted to `selected` where that is not empty.
pub fn select_contracts(contracts: Vec<TargetContract>, invariant_address: Address, selected: &Vec<Address>) -> (r: Vec<
    TargetContract,
>)
    ensures
        r@ == targets_of(contracts@, invariant_address, selected@),
{
    let ghost all = contracts@;
    let mut rest = contracts;
    let mut r: Vec<TargetContract> = Vec::new();
    let cheat = cheatcode_address();
    let console = console_address();
    while rest.len() > 0
        invariant
            cheat == cheatcode_address_spec(),
            console == console_address_spec(),
            r@ + targets_of(rest@, invariant_address, selected@) == targets_of(
                all,
                invariant_address,
                selected@,
            ),
        decreases rest.len(),
    {
        let ghost before = rest@;
        let c = rest.remove(0);
        assert(rest@ == before.drop_first());
        assert(c == before[0]);
        let ghost keep = is_target(c.address, invariant_address, selected@);
        assert(targets_of(before, invariant_address, selected@) == if keep {
            seq![before[0]] + targets_of(rest@, invariant_address, selected@)
        } else {
            targets_of(rest@, invariant_address, selected@)
        });
        if keeps_target(c.address, invariant_address, selected, cheat, console) {
            assert(keep);
            let ghost r0 = r@;
            r.push(c);
            assert(r@ == r0.push(before[0]));
            assert(r0 + targets_of(before, invariant_address, selected@) =~= r@ + targets_of(
                rest@,
                invariant_address,
                selected@,
            ));
        }
    }
    r
}

/// The senders to use: those the invariant contract lists, or none where it lists none.
pub fn select_senders(listed: Option<Vec<Address>>) -> (r: Vec<Address>)
    ensures
        r@ == (match listed {
            Some(v) => v@,
            None => Seq::empty(),
        }),
{
    match listed {
        Some(v) => v,
        None => Vec::new(),
    }
}

/// Whether a function may change state, so that a call of it can break an invariant.
pub open spec fn is_mutable(f: Function) -> bool {
    f.state_mutability != StateMutability::Pure && f.state_mutability != StateMutability::View
}

/// The number of functions in `abi` that may change state.
pub open spec fn mutable_count(abi: Seq<Function>) -> nat
    decreases abi.len(),
{
    if abi.len() == 0 {
        0
    } else {
        mutable_count(abi.drop_last()) + if is_mutable(abi.last()) { 1nat } else { 0nat }
    }
}

/// The index in `abi` of its `k`-th function that may change state, counting from zero.
pub open spec fn nth_mutable(abi: Seq<Function>, k: nat) -> int
    decreases abi.len(),
{
    if abi.len() == 0 {
        0
    } else if is_mutable(abi.last()) && k == mutable_count(abi.drop_last()) {
        abi.len() - 1
    } else {
        nth_mutable(abi.drop_last(), k)
    }
}

proof fn lemma_nth_mutable(abi: Seq<Function>, k: nat)
    requires
        k < mutable_count(abi),
    ensures
        0 <= nth_mutable(abi, k) < abi.len(),
        is_mutable(abi[nth_mutable(abi, k)]),
    decreases abi.len(),
{
    if !(is_mutable(abi.last()) && k == mutable_count(abi.drop_last())) {
        lemma_nth_mutable(abi.drop_last(), k);
    }
}

proof fn lemma_nth_mutable_prefix(abi: Seq<Function>, n: int, k: nat)
    requires
        0 <= n <= abi.len(),
        k < mutable_count(abi.subrange(0, n)),
    ensures
        nth_mutable(abi, k) == nth_mutable(abi.subrange(0, n), k),
        mutable_count(abi.subrange(0, n)) <= mutable_count(abi),
    decreases abi.len() - n,
{
    if n < abi.len() {
        assert(abi.subrange(0, n + 1).drop_last() == abi.subrange(0, n));
        lemma_nth_mutable_prefix(abi, n + 1, k);
    } else {
        assert(abi.subrange(0, n) == abi);
    }
}

/// The index of the function to call: the `index`-th, cyclically, of those in `abi` that
/// may change state; none where there is no such function.
pub fn select_random_function(abi: &Vec<Function>, index: u64) -> (r: Option<usize>)
    ensures
        mutable_count(abi@) == 0 ==> r is None,
        mutable_count(abi@) > 0 ==> r == Some(
            nth_mutable(abi@, (index as nat % mutable_count(abi@))) as usize,
        ),
        r matches Some(i) ==> i < abi@.len() && is_mutable(abi@[i as int]),
{
    let mut count: usize = 0;
    let mut i: usize = 0;
    while i < abi.len()
        invariant
            i <= abi@.len(),
            count == mutable_count(abi@.subrange(0, i as int)),
            count <= i,
        decreases abi.len() - i,
    {
        proof {
            assert(abi@.subrange(0, i + 1).drop_last() == abi@.subrange(0, i as int));
        }
        if abi[i].state_mutability != StateMutability::Pure && abi[i].state_mutability
            != StateMutability::View {
            count = count + 1;
        }
        i = i + 1;
    }
    proof {
        assert(abi@.subrange(0, abi@.len() as int) == abi@);
    }
    if count == 0 {
        return None;
    }
    let k = (index % (count as u64)) as usize;
    let mut seen: usize = 0;
    let mut j: usize = 0;
    while j < abi.len()
        invariant
            j <= abi@.len(),
            seen == mutable_count(abi@.subrange(0, j as int)),
            count == mutable_count(abi@),
            k < count,
            k as nat == index as nat % mutable_count(abi@),
            seen <= k,
        decreases abi.len() - j,
    {
        proof {
            assert(abi@.subrange(0, j + 1).drop_last() == abi@.subrange(0, j as int));
        }
        if abi[j].state_mutability != StateMutability::Pure && abi[j].state_mutability
            != StateMutability::View {
            if seen == k {
                proof {
                    lemma_nth_mutable_prefix(abi@, j + 1, k as nat);
                    lemma_nth_mutable(abi@, k as nat);
                    assert(nth_mutable(abi@.subrange(0, j + 1), k as nat) == j);
                    assert(k as nat == index as nat % mutable_count(abi@));
                }
                return Some(j);
            }
            seen = seen + 1;
        }
        j = j + 1;
    }
    proof {
        assert(abi@.subrange(0, abi@.len() as int) == abi@);
    }
    None
}

/// The sender of a call: the `index`-th, cyclically, of `senders`, or `fallback` where
/// there are none.
pub fn select_random_sender(senders: &Vec<Address>, index: u64, fallback: Address) -> (r: Address)
    ensures
        senders@.len() == 0 ==> r == fallback,
        senders@.len() > 0 ==> r == senders@[(index as nat % senders@.len()) as int],
{
    if senders.len() == 0 {
        fallback
    } else {
        senders[(index % (senders.len() as u64)) as usize]
    }
}

/// A random argument for a parameter of kind `kind`.
fn fuzz_param(runner: &mut TestRunner, kind: ParamKind) -> (r: U256) {
    match kind {
        ParamKind::Uint(bits) => {
            let strategy = UintStrategy::new(bits, None, None, None, false);
            let tree = strategy.new_tree(runner);
            tree.current()
        },
        ParamKind::Address => {
            let hi = draw_below(runner, 0x1_0000_0000);
            let lo = draw_u128(runner);
            U256 {
                l0: #[verifier::truncate] (lo as u64),
                l1: #[verifier::truncate] ((lo >> 64u128) as u64),
                l2: hi,
                l3: 0,
            }
        },
        ParamKind::Bool => U256::from_u64(draw_below(runner, 2)),
        ParamKind::Other => U256::zero(),
    }
}

/// A random address.
fn fuzz_address(runner: &mut TestRunner) -> (r: Address) {
    let hi = draw_below(runner, 0x1_0000_0000) as u32;
    let lo = draw_u128(runner);
    Address { hi, lo }
}

/// Random arguments for the parameters `inputs`, one each.
fn fuzz_args(runner: &mut TestRunner, inputs: &Vec<ParamKind>) -> (r: Vec<U256>)
    ensures
        r@.len() == inputs@.len(),
{
    let mut args: Vec<U256> = Vec::new();
    let mut i: usize = 0;
    while i < inputs.len()
        invariant
            i <= inputs@.len(),
            args@.len() == i,
        decreases inputs.len() - i,
    {
        let a = fuzz_param(runner, inputs[i]);
        args.push(a);
        i = i + 1;
    }
    args
}

/// Whether `step` calls a function that may change state on one of `targets`, with one
/// argument per parameter, from one of `senders` where there are any.
pub open spec fn well_formed_step(step: CallStep, targets: Seq<TargetContract>, senders: Seq<Address>) -> bool {
    &&& exists|t: int|
        0 <= t < targets.len() && #[trigger] targets[t].address == step.target && step.function
            < targets[t].abi@.len() && is_mutable(targets[t].abi@[step.function as int])
            && step.args@.len() == targets[t].abi@[step.function as int].inputs@.len()
    &&& senders.len() > 0 ==> senders.contains(step.sender)
}

/// The random numbers that pick one call: its target, function and sender, and the
/// sender to use where none is listed.
#[derive(Clone, Copy, Debug, PartialEq, Eq, Structural)]
pub struct StepDraw {
    pub target: u64,
    pub function: u64,
    pub sender: u64,
    pub fallback: Address,
}

/// Whether every target has a function that may change state.
pub open spec fn all_callable(targets: Seq<TargetContract>) -> bool {
    forall|t: int| 0 <= t < targets.len() ==> mutable_count(#[trigger] targets[t].abi@) > 0
}

/// The call that `d` picks: the target at `d.target` (cyclically), its `d.function`-th
/// function that may change state (cyclically), and the sender at `d.sender` among
/// `senders` (cyclically) or `d.fallback` where none are listed; none where there is no
/// target or the target has no such function.
pub open spec fn planned_step(targets: Seq<TargetContract>, senders: Seq<Address>, d: StepDraw) -> Option<(int, int, Address)> {
    if targets.len() == 0 {
        None
    } else {
        let t = d.target as nat % targets.len();
        let abi = targets[t as int].abi@;
        if mutable_count(abi) == 0 {
            None
        } else {
            Some((
                t as int,
                nth_mutable(abi, d.function as nat % mutable_count(abi)),
                if senders.len() == 0 { d.fallback } else { senders[(d.sender as nat % senders.len()) as int] },
            ))
        }
    }
}

/// The target index, function index and sender that `d` picks.
pub fn plan_step(targets: &Vec<TargetContract>, senders: &Vec<Address>, d: &StepDraw) -> (r: Option<(usize, usize, Address)>)
    ensures
        match planned_step(targets@, senders@, *d) {
            None => r is None,
            Some((t, f, s)) => r == Some((t as usize, f as usize, s)),
        },
        r matches Some((t, f, s)) ==> t < targets@.len() && f < targets@[t as int].abi@.len()
            && is_mutable(targets@[t as int].abi@[f as int]) && (senders@.len() > 0
            ==> senders@.contains(s)),
{
    if targets.len() == 0 {
        return None;
    }
    let t = (d.target % (targets.len() as u64)) as usize;
    match select_random_function(&targets[t].abi, d.function) {
        None => None,
        Some(f) => {
            let s = select_random_sender(senders, d.sender, d.fallback);
            proof {
                if senders@.len() > 0 {
                    assert(senders@[(d.sender as nat % senders@.len()) as int] == s);
                }
            }
            Some((t, f, s))
        },
    }
}

/// A random call sequence of 1 to `depth` calls: each call picks a target, one of its
/// functions that may change state, a sender, and arguments. A target picked with no
/// such function gives no call, so only where every target has one are all the calls
/// there.
pub fn generate_sequence(
    runner: &mut TestRunner,
    depth: usize,
    targets: &Vec<TargetContract>,
    senders: &Vec<Address>,
) -> (r: Vec<CallStep>)
    requires
        depth > 0,
    ensures
        r@.len() <= depth,
        forall|i: int| 0 <= i < r@.len() ==> well_formed_step(#[trigger] r@[i], targets@, senders@),
        targets@.len() > 0 && all_callable(targets@) ==> 1 <= r@.len(),
{
    let mut seq: Vec<CallStep> = Vec::new();
    if targets.len() == 0 {
        return seq;
    }
    let len = draw_below(runner, depth as u64) as usize + 1;
    let mut n: usize = 0;
    while n < len
        invariant
            n <= len <= depth,
            1 <= len,
            targets@.len() > 0,
            seq@.len() <= n,
            all_callable(targets@) ==> seq@.len() == n,
            forall|i: int| 0 <= i < seq@.len() ==> well_formed_step(#[trigger] seq@[i], targets@, senders@),
        decreases len - n,
    {
        let d = StepDraw {
            target: draw_below(runner, targets.len() as u64),
            function: #[verifier::truncate] (draw_u128(runner) as u64),
            sender: #[verifier::truncate] (draw_u128(runner) as u64),
            fallback: fuzz_address(runner),
        };
        match plan_step(targets, senders, &d) {
            Some((t, f, sender)) => {
                let args = fuzz_args(runner, &targets[t].abi[f].inputs);
                let step = CallStep { sender, target: targets[t].address, function: f, args };
                proof {
                    assert(targets@[t as int].address == step.target);
                }
                seq.push(step);
            },
            None => {
                proof {
                    let t = d.target as nat % targets@.len();
                    assert(mutable_count(targets@[t as int].abi@) > 0 ==> planned_step(targets@, senders@, d) is Some);
                }
            },
        }
        n = n + 1;
    }
    seq
}

/// A call sequence built from selected targets only sends calls to them.
pub proof fn lemma_sequence_targets_selected(
    contracts: Seq<TargetContract>,
    invariant_address: Address,
    selected: Seq<Address>,
    senders: Seq<Address>,
    steps: Seq<CallStep>,
)
    requires
        forall|i: int|
            0 <= i < steps.len() ==> well_formed_step(
                #[trigger] steps[i],
                targets_of(contracts, invariant_address, selected),
                senders,
            ),
    ensures
        forall|i: int|
            0 <= i < steps.len() ==> is_target(#[trigger] steps[i].target, invariant_address, selected),
        selected.len() > 0 ==> forall|i: int|
            0 <= i < steps.len() ==> selected.contains(#[trigger] steps[i].target),
{
    lemma_targets_are_targets(contracts, invariant_address, selected);
    let ts = targets_of(contracts, invariant_address, selected);
    assert forall|i: int| 0 <= i < steps.len() implies is_target(
        #[trigger] steps[i].target,
        invariant_address,
        selected,
    ) by {
        let t = choose|t: int|
            0 <= t < ts.len() && #[trigger] ts[t].address == steps[i].target && steps[i].function
                < ts[t].abi@.len() && is_mutable(ts[t].abi@[steps[i].function as int])
                && steps[i].args@.len() == ts[t].abi@[steps[i].function as int].inputs@.len();
        assert(is_target(ts[t].address, invariant_address, selected));
    }
}

/// Gas of a call of a sequence that went through.
#[derive(Clone, Copy, Debug, PartialEq, Eq, Structural)]
pub struct FuzzCase {
    /// Index of the call in its sequence.
    pub step: usize,
    pub gas: u64,
    pub stipend: u64,
}

/// Where a sequence run stands.
#[derive(Clone, Copy, Debug, PartialEq, Eq, Structural)]
pub enum Phase {
    /// The next call of the sequence is due.
    Calling,
    /// The invariants are being checked after a call.
    Checking,
    /// Nothing more is due.
    Done,
}

/// What the executor does next for a sequence.
#[derive(Clone, Copy, Debug, PartialEq, Eq, Structural)]
pub enum Action {
    /// Send call `step` of the sequence.
    Call(usize),
    /// Check invariant `invariant` after call `step`.
    Check { step: usize, invariant: usize },
    /// The sequence is over.
    Finished,
}

/// The run of one call sequence against a fresh copy of the state: each call is sent, a
/// reverted call is skipped, and after each call that went through every invariant is
/// checked; the first broken invariant ends the run.
#[derive(Clone, Debug)]
pub struct SequenceRun {
    pub len: usize,
    pub n_invariants: usize,
    pub step: usize,
    pub check: usize,
    pub phase: Phase,
    /// The call that went through, waiting for its checks.
    pub pending: FuzzCase,
    /// The calls that went through and passed every check.
    pub cases: Vec<FuzzCase>,
    /// The invariant found broken, if any.
    pub broken: Option<usize>,
}

impl SequenceRun {
    pub open spec fn wf(&self) -> bool {
        &&& self.step <= self.len
        &&& (self.phase == Phase::Calling ==> self.step < self.len)
        &&& (self.phase == Phase::Checking ==> self.step < self.len && self.check
            < self.n_invariants && self.pending.step == self.step)
        &&& (self.broken matches Some(i) ==> i < self.n_invariants && self.phase == Phase::Done)
        &&& forall|k: int| 0 <= k < self.cases@.len() ==> (#[trigger] self.cases@[k]).step < self.step
    }

    /// The action due in this state.
    pub open spec fn action_spec(&self) -> Action {
        match self.phase {
            Phase::Calling => Action::Call(self.step),
            Phase::Checking => Action::Check { step: self.step, invariant: self.check },
            Phase::Done => Action::Finished,
        }
    }

    /// A run of `len` calls with `n_invariants` invariants to check after each.
    pub fn new(len: usize, n_invariants: usize) -> (r: SequenceRun)
        ensures
            r.wf(),
            r.len == len,
            r.n_invariants == n_invariants,
            r.step == 0,
            r.phase == (if len == 0 { Phase::Done } else { Phase::Calling }),
            r.cases@.len() == 0,
            r.broken is None,
    {
        SequenceRun {
            len,
            n_invariants,
            step: 0,
            check: 0,
            phase: if len == 0 { Phase::Done } else { Phase::Calling },
            pending: FuzzCase { step: 0, gas: 0, stipend: 0 },
            cases: Vec::new(),
            broken: None,
        }
    }

    /// The action due now.
    pub fn next_action(&self) -> (r: Action)
        ensures
            r == self.action_spec(),
    {
        match self.phase {
            Phase::Calling => Action::Call(self.step),
            Phase::Checking => Action::Check { step: self.step, invariant: self.check },
            Phase::Done => Action::Finished,
        }
    }

    fn advance(&mut self)
        requires
            old(self).step < old(self).len,
        ensures
            final(self).step == old(self).step + 1,
            final(self).phase == (if old(self).step + 1 == old(self).len {
                Phase::Done
            } else {
                Phase::Calling
            }),
            final(self).len == old(self).len,
            final(self).n_invariants == old(self).n_invariants,
            final(self).check == old(self).check,
            final(self).pending == old(self).pending,
            final(self).cases == old(self).cases,
            final(self).broken == old(self).broken,
    {
        self.step = self.step + 1;
        self.phase = if self.step == self.len { Phase::Done } else { Phase::Calling };
    }

    /// Takes the result of the due call: a reverted call is skipped; one that went through
    /// is checked against the invariants, or recorded at once where there are none.
    pub fn on_call_result(&mut self, reverted: bool, gas: u64, stipend: u64)
        requires
            old(self).wf(),
            old(self).phase == Phase::Calling,
        ensures
            final(self).wf(),
            final(self).len == old(self).len,
            final(self).n_invariants == old(self).n_invariants,
            final(self).broken is None,
            reverted ==> final(self).cases@ == old(self).cases@ && final(self).step == old(self).step
                + 1,
            !reverted && old(self).n_invariants == 0 ==> final(self).cases@ == old(self).cases@.push(
                FuzzCase { step: old(self).step, gas, stipend },
            ) && final(self).step == old(self).step + 1,
            !reverted && old(self).n_invariants > 0 ==> final(self).phase == Phase::Checking
                && final(self).check == 0 && final(self).step == old(self).step
                && final(self).cases@ == old(self).cases@ && final(self).pending == (FuzzCase {
                step: old(self).step,
                gas,
                stipend,
            }),
            final(self).step > old(self).step ==> final(self).phase == (if final(self).step
                == final(self).len {
                Phase::Done
            } else {
                Phase::Calling
            }),
    {
        if reverted {
            self.advance();
            return;
        }
        let case = FuzzCase { step: self.step, gas, stipend };
        if self.n_invariants == 0 {
            self.cases.push(case);
            self.advance();
        } else {
            self.pending = case;
            self.check = 0;
            self.phase = Phase::Checking;
        }
    }

    /// Takes the result of the due check: a broken invariant ends the run; where every
    /// invariant held, the call is recorded and the next one is due.
    pub fn on_check_result(&mut self, broken: bool)
        requires
            old(self).wf(),
            old(self).phase == Phase::Checking,
        ensures
            final(self).wf(),
            final(self).len == old(self).len,
            final(self).n_invariants == old(self).n_invariants,
            broken ==> final(self).broken == Some(old(self).check) && final(self).phase
                == Phase::Done && final(self).cases@ == old(self).cases@,
            !broken && old(self).check + 1 < old(self).n_invariants ==> final(self).phase
                == Phase::Checking && final(self).check == old(self).check + 1 && final(self).cases@
                == old(self).cases@ && final(self).step == old(self).step,
            !broken && old(self).check + 1 == old(self).n_invariants ==> final(self).cases@ == old(
                self,
            ).cases@.push(old(self).pending) && final(self).step == old(self).step + 1
                && final(self).phase == (if old(self).step + 1 == old(self).len {
                Phase::Done
            } else {
                Phase::Calling
            }),
            !broken ==> final(self).broken is None,
    {
        if broken {
            self.broken = Some(self.check);
            self.phase = Phase::Done;
            return;
        }
        if self.check + 1 < self.n_invariants {
            self.check = self.check + 1;
        } else {
            self.cases.push(self.pending);
            self.advance();
        }
    }
}

/// What broke an invariant: the invariant, the sequence that broke it, and the reason
/// the check reverted with.
#[derive(Clone, Debug)]
pub struct InvariantFuzzError {
    pub invariant: usize,
    pub sequence: Vec<CallStep>,
    pub revert_reason: String,
}

/// The outcome of an invariant campaign: per invariant, the first violation found, and
/// every call that went through.
#[derive(Clone, Debug)]
pub struct InvariantFuzzTestResult {
    pub invariants: Vec<Option<InvariantFuzzError>>,
    pub cases: Vec<FuzzCase>,
}

impl InvariantFuzzTestResult {
    /// No violation yet for any of `n` invariants, and no calls.
    pub fn new(n: usize) -> (r: InvariantFuzzTestResult)
        ensures
            r.invariants@.len() == n,
            forall|i: int| 0 <= i < n ==> r.invariants@[i] is None,
            r.cases@.len() == 0,
    {
        let mut invariants: Vec<Option<InvariantFuzzError>> = Vec::new();
        let mut i: usize = 0;
        while i < n
            invariant
                i <= n,
                invariants@.len() == i,
                forall|k: int| 0 <= k < i ==> invariants@[k] is None,
            decreases n - i,
        {
            invariants.push(None);
            i = i + 1;
        }
        InvariantFuzzTestResult { invariants, cases: Vec::new() }
    }

    /// Records a violation of invariant `e.invariant`, unless one is already recorded for
    /// it: only the first stays.
    pub fn record_violation(&mut self, e: InvariantFuzzError)
        requires
            e.invariant < old(self).invariants@.len(),
        ensures
            final(self).invariants@ == (if old(self).invariants@[e.invariant as int] is None {
                old(self).invariants@.update(e.invariant as int, Some(e))
            } else {
                old(self).invariants@
            }),
            final(self).cases@ == old(self).cases@,
    {
        if self.invariants[e.invariant].is_none() {
            let i = e.invariant;
            self.invariants.set(i, Some(e));
        }
    }

    /// Adds the calls of a finished run.
    pub fn add_cases(&mut self, run: &SequenceRun)
        ensures
            final(self).cases@ == old(self).cases@ + run.cases@,
            final(self).invariants@ == old(self).invariants@,
    {
        let ghost start = self.cases@;
        let mut i: usize = 0;
        while i < run.cases.len()
            invariant
                i <= run.cases@.len(),
                self.cases@ == start + run.cases@.subrange(0, i as int),
                self.invariants@ == old(self).invariants@,
            decreases run.cases@.len() - i,
        {
            self.cases.push(run.cases[i]);
            i = i + 1;
            assert(run.cases@.subrange(0, i as int) == run.cases@.subrange(0, i - 1).push(
                run.cases@[i - 1],
            ));
        }
        assert(run.cases@.subrange(0, run.cases@.len() as int) =~= run.cases@);
    }
}

/// Once a violation is recorded for an invariant, later ones leave it as it is.
pub proof fn lemma_first_violation_stays(
    before: Seq<Option<InvariantFuzzError>>,
    after: Seq<Option<InvariantFuzzError>>,
    e: InvariantFuzzError,
    i: int,
)
    requires
        0 <= i < before.len(),
        e.invariant < before.len(),
        before[i] is Some,
        after == (if before[e.invariant as int] is None {
            before.update(e.invariant as int, Some(e))
        } else {
            before
        }),
    ensures
        after[i] == before[i],
{
}

} // verus!
