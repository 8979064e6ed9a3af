use vstd::prelude::*;
use crate::address::Address;
use crate::prank::Cheatcodes;
use crate::inner::{BlockEnv, Env};
use crate::word::U256;

verus! {

/// The status of an interpreter step, call or creation.
#[derive(Clone, Copy, Debug, PartialEq, Eq, Structural)]
pub enum InstructionResult {
    Continue,
    Stop,
    Return,
    SelfDestruct,
    Revert,
    OutOfGas,
    OpcodeNotFound,
    InvalidJump,
    StackUnderflow,
    StackOverflow,
    CallTooDeep,
    OutOfFunds,
    CreateCollision,
    NonceOverflow,
}

/// Why a transaction ended successfully.
#[derive(Clone, Copy, Debug, PartialEq, Eq, Structural)]
pub enum SuccessReason {
    Stop,
    Return,
    SelfDestruct,
}

/// Why a transaction halted.
#[derive(Clone, Copy, Debug, PartialEq, Eq, Structural)]
pub enum HaltReason {
    OutOfGas,
    OpcodeNotFound,
    InvalidJump,
    StackUnderflow,
    StackOverflow,
    CallTooDeep,
    OutOfFunds,
    CreateCollision,
    NonceOverflow,
}

/// Gas accounting of one call frame.
#[derive(Clone, Copy, Debug, PartialEq, Eq, Structural)]
pub struct Gas {
    /// Gas the frame started with.
    pub limit: u64,
    /// Gas not yet spent.
    pub remaining: u64,
    /// Gas refunded.
    pub refunded: i64,
}

impl Gas {
    /// A frame with all of `limit` left.
    pub fn new(limit: u64) -> (r: Gas)
        ensures
            r == (Gas { limit, remaining: limit, refunded: 0 }),
    {
        Gas { limit, remaining: limit, refunded: 0 }
    }

    /// Spends `cost`; `false`, and nothing spent, where less than that is left.
    pub fn record_cost(&mut self, cost: u64) -> (r: bool)
        ensures
            r == (cost <= old(self).remaining),
            final(self).remaining == (if r {
                (old(self).remaining - cost) as u64
            } else {
                old(self).remaining
            }),
            final(self).limit == old(self).limit,
            final(self).refunded == old(self).refunded,
    {
        if cost <= self.remaining {
            self.remaining = self.remaining - cost;
            true
        } else {
            false
        }
    }

    /// Sets the refund.
    pub fn set_refund(&mut self, refund: i64)
        ensures
            *final(self) == (Gas { refunded: refund, ..*old(self) }),
    {
        self.refunded = refund;
    }
}

/// What a call hook answers: a status, the gas left, and the output.
#[derive(Clone, Debug)]
pub struct CallOutcome {
    pub status: InstructionResult,
    pub gas: Gas,
    pub output: Vec<u8>,
}

/// What a creation hook answers: a status, the created address, the gas left, and the
/// output.
#[derive(Clone, Debug)]
pub struct CreateOutcome {
    pub status: InstructionResult,
    pub address: Option<Address>,
    pub gas: Gas,
    pub output: Vec<u8>,
}

/// Whether `r` carries the same answer as `a`.
pub open spec fn same_create(r: CreateOutcome, a: CreateOutcome) -> bool {
    r.status == a.status && r.address == a.address && r.gas == a.gas && r.output@ == a.output@
}

/// Whether `i` is the first answer of `answers` whose status is not `status`.
pub open spec fn first_create_status_change(answers: Seq<CreateOutcome>, status: InstructionResult, i: int) -> bool {
    &&& 0 <= i < answers.len()
    &&& answers[i].status != status
    &&& forall|j: int| 0 <= j < i ==> answers[j].status == status
}

/// The answer that lets execution go on with the whole gas limit.
pub open spec fn continue_outcome(o: CallOutcome, gas_limit: u64) -> bool {
    &&& o.status == InstructionResult::Continue
    &&& o.gas == Gas { limit: gas_limit, remaining: gas_limit, refunded: 0 }
    &&& o.output@.len() == 0
}

/// The index of the first call answer in `answers` that is not `Continue`, if any.
pub open spec fn first_decisive_index(answers: Seq<CallOutcome>) -> Option<int>
    decreases answers.len(),
{
    if answers.len() == 0 {
        None
    } else if answers[0].status != InstructionResult::Continue {
        Some(0)
    } else {
        match first_decisive_index(answers.drop_first()) {
            Some(i) => Some(i + 1),
            None => None,
        }
    }
}

/// Whether a call-end answer overrides the running result: another status, or a revert
/// with other output.
pub open spec fn overrides_end(a: CallOutcome, status: InstructionResult, output: Seq<u8>) -> bool {
    a.status != status || (a.status == InstructionResult::Revert && a.output@ != output)
}

/// The index of the first call-end answer in `answers` that overrides the running result.
pub open spec fn first_override_index(
    answers: Seq<CallOutcome>,
    status: InstructionResult,
    output: Seq<u8>,
) -> Option<int>
    decreases answers.len(),
{
    if answers.len() == 0 {
        None
    } else if overrides_end(answers[0], status, output) {
        Some(0)
    } else {
        match first_override_index(answers.drop_first(), status, output) {
            Some(i) => Some(i + 1),
            None => None,
        }
    }
}

pub proof fn lemma_first_decisive_index(answers: Seq<CallOutcome>)
    ensures
        match first_decisive_index(answers) {
            Some(i) => 0 <= i < answers.len() && answers[i].status != InstructionResult::Continue
                && forall|j: int| 0 <= j < i ==> answers[j].status == InstructionResult::Continue,
            None => forall|j: int|
                0 <= j < answers.len() ==> answers[j].status == InstructionResult::Continue,
        },
    decreases answers.len(),
{
    if answers.len() > 0 {
        lemma_first_decisive_index(answers.drop_first());
        if answers[0].status == InstructionResult::Continue {
            match first_decisive_index(answers.drop_first()) {
                Some(i) => {
                    assert forall|j: int| 0 <= j < i + 1 implies answers[j].status
                        == InstructionResult::Continue by {
                        if j > 0 {
                            assert(answers[j] == answers.drop_first()[j - 1]);
                        }
                    }
                },
                None => {
                    assert forall|j: int| 0 <= j < answers.len() implies answers[j].status
                        == InstructionResult::Continue by {
                        if j > 0 {
                            assert(answers[j] == answers.drop_first()[j - 1]);
                        }
                    }
                },
            }
        }
    }
}

pub proof fn lemma_first_override_index(
    answers: Seq<CallOutcome>,
    status: InstructionResult,
    output: Seq<u8>,
)
    ensures
        match first_override_index(answers, status, output) {
            Some(i) => 0 <= i < answers.len() && overrides_end(answers[i], status, output)
                && forall|j: int| 0 <= j < i ==> !overrides_end(answers[j], status, output),
            None => forall|j: int|
                0 <= j < answers.len() ==> !overrides_end(answers[j], status, output),
        },
    decreases answers.len(),
{
    if answers.len() > 0 {
        lemma_first_override_index(answers.drop_first(), status, output);
        if !overrides_end(answers[0], status, output) {
            match first_override_index(answers.drop_first(), status, output) {
                Some(i) => {
                    assert forall|j: int| 0 <= j < i + 1 implies !overrides_end(
                        answers[j],
                        status,
                        output,
                    ) by {
                        if j > 0 {
                            assert(answers[j] == answers.drop_first()[j - 1]);
                        }
                    }
                },
                None => {
                    assert forall|j: int| 0 <= j < answers.len() implies !overrides_end(
                        answers[j],
                        status,
                        output,
                    ) by {
                        if j > 0 {
                            assert(answers[j] == answers.drop_first()[j - 1]);
                        }
                    }
                },
            }
        }
    }
}

fn copy_bytes(b: &Vec<u8>) -> (r: Vec<u8>)
    ensures
        r@ == b@,
{
    let mut r: Vec<u8> = Vec::new();
    let mut i: usize = 0;
    while i < b.len()
        invariant
            i <= b.len(),
            r@ == b@.subrange(0, i as int),
        decreases b.len() - i,
    {
        r.push(b[i]);
        i = i + 1;
    }
    assert(r@ =~= b@);
    r
}

fn copy_outcome(o: &CallOutcome) -> (r: CallOutcome)
    ensures
        r.status == o.status,
        r.gas == o.gas,
        r.output@ == o.output@,
{
    CallOutcome { status: o.status, gas: o.gas, output: copy_bytes(&o.output) }
}

/// Whether a call answer ends the fan-out: anything but `Continue`.
pub fn is_decisive_call(a: &CallOutcome) -> (r: bool)
    ensures
        r == (a.status != InstructionResult::Continue),
{
    a.status != InstructionResult::Continue
}

fn copy_create(o: &CreateOutcome) -> (r: CreateOutcome)
    ensures
        same_create(r, *o),
{
    CreateOutcome { status: o.status, address: o.address, gas: o.gas, output: copy_bytes(&o.output) }
}

fn first_status_change(answers: &Vec<CreateOutcome>, status: InstructionResult) -> (r: Option<usize>)
    ensures
        match r {
            Some(i) => first_create_status_change(answers@, status, i as int),
            None => forall|j: int| 0 <= j < answers@.len() ==> answers@[j].status == status,
        },
{
    let mut i: usize = 0;
    while i < answers.len()
        invariant
            i <= answers@.len(),
            forall|j: int| 0 <= j < i ==> answers@[j].status == status,
        decreases answers@.len() - i,
    {
        if answers[i].status != status {
            return Some(i);
        }
        i = i + 1;
    }
    None
}

/// The combined answer of the inspectors to a creation, given their answers in declared
/// order: the first that is not `Continue`, with its address, gas and output; else
/// `Continue`, no address, the whole gas limit and no output.
pub fn first_decisive_create(answers: &Vec<CreateOutcome>, gas_limit: u64) -> (r: CreateOutcome)
    ensures
        forall|i: int|
            first_create_status_change(answers@, InstructionResult::Continue, i) ==> same_create(
                r,
                #[trigger] answers@[i],
            ),
        (forall|j: int| 0 <= j < answers@.len() ==> answers@[j].status == InstructionResult::Continue)
            ==> r.status == InstructionResult::Continue && r.address is None && r.gas == (Gas {
            limit: gas_limit,
            remaining: gas_limit,
            refunded: 0,
        }) && r.output@.len() == 0,
{
    match first_status_change(answers, InstructionResult::Continue) {
        Some(i) => copy_create(&answers[i]),
        None => CreateOutcome {
            status: InstructionResult::Continue,
            address: None,
            gas: Gas::new(gas_limit),
            output: Vec::new(),
        },
    }
}

/// The combined answer of the inspectors at the end of a creation, given their answers in
/// declared order: the first whose status differs from the running one, with its address,
/// gas and output; else the running status, address, gas and output.
pub fn first_decisive_create_end(answers: &Vec<CreateOutcome>, running: &CreateOutcome) -> (r: CreateOutcome)
    ensures
        forall|i: int|
            first_create_status_change(answers@, running.status, i) ==> same_create(
                r,
                #[trigger] answers@[i],
            ),
        (forall|j: int| 0 <= j < answers@.len() ==> answers@[j].status == running.status)
            ==> same_create(r, *running),
{
    match first_status_change(answers, running.status) {
        Some(i) => copy_create(&answers[i]),
        None => copy_create(running),
    }
}

/// Whether a call-end answer ends the fan-out: it changes the status, or reverts with
/// other output.
pub fn is_decisive_call_end(a: &CallOutcome, status: InstructionResult, output: &Vec<u8>) -> (r: bool)
    ensures
        r == overrides_end(*a, status, output@),
{
    if a.status != status {
        return true;
    }
    if a.status != InstructionResult::Revert {
        return false;
    }
    if a.output.len() != output.len() {
        return true;
    }
    let mut i: usize = 0;
    while i < output.len()
        invariant
            i <= output.len(),
            a.output@.len() == output@.len(),
            a.status == status,
            a.status == InstructionResult::Revert,
            forall|j: int| 0 <= j < i ==> a.output@[j] == output@[j],
        decreases output.len() - i,
    {
        if a.output[i] != output[i] {
            assert(a.output@[i as int] != output@[i as int]);
            return true;
        }
        i = i + 1;
    }
    assert(a.output@ =~= output@);
    false
}

/// The combined answer of the inspectors to a call, given their answers in declared order:
/// the first that is not `Continue`, else `Continue` with the whole gas limit.
pub fn first_decisive_call(answers: &Vec<CallOutcome>, gas_limit: u64) -> (r: CallOutcome)
    ensures
        match first_decisive_index(answers@) {
            Some(i) => r.status == answers@[i].status && r.gas == answers@[i].gas && r.output@
                == answers@[i].output@,
            None => continue_outcome(r, gas_limit),
        },
{
    proof {
        lemma_first_decisive_index(answers@);
    }
    let mut i: usize = 0;
    while i < answers.len()
        invariant
            i <= answers.len(),
            forall|j: int| 0 <= j < i ==> answers@[j].status == InstructionResult::Continue,
            match first_decisive_index(answers@) {
                Some(k) => 0 <= k < answers@.len() && answers@[k].status
                    != InstructionResult::Continue && forall|j: int|
                    0 <= j < k ==> answers@[j].status == InstructionResult::Continue,
                None => forall|j: int|
                    0 <= j < answers@.len() ==> answers@[j].status == InstructionResult::Continue,
            },
        decreases answers.len() - i,
    {
        if is_decisive_call(&answers[i]) {
            return copy_outcome(&answers[i]);
        }
        i = i + 1;
    }
    CallOutcome { status: InstructionResult::Continue, gas: Gas::new(gas_limit), output: Vec::new() }
}

/// The combined answer of the inspectors at the end of a call, given their answers in
/// declared order: the first that overrides the running result, else the running result.
pub fn first_decisive_call_end(answers: &Vec<CallOutcome>, running: &CallOutcome) -> (r: CallOutcome)
    ensures
        match first_override_index(answers@, running.status, running.output@) {
            Some(i) => r.status == answers@[i].status && r.gas == answers@[i].gas && r.output@
                == answers@[i].output@,
            None => r.status == running.status && r.gas == running.gas && r.output@
                == running.output@,
        },
{
    proof {
        lemma_first_override_index(answers@, running.status, running.output@);
    }
    let mut i: usize = 0;
    while i < answers.len()
        invariant
            i <= answers.len(),
            forall|j: int|
                0 <= j < i ==> !overrides_end(answers@[j], running.status, running.output@),
            match first_override_index(answers@, running.status, running.output@) {
                Some(k) => 0 <= k < answers@.len() && overrides_end(
                    answers@[k],
                    running.status,
                    running.output@,
                ) && forall|j: int|
                    0 <= j < k ==> !overrides_end(answers@[j], running.status, running.output@),
                None => forall|j: int|
                    0 <= j < answers@.len() ==> !overrides_end(
                        answers@[j],
                        running.status,
                        running.output@,
                    ),
            },
        decreases answers.len() - i,
    {
        if is_decisive_call_end(&answers[i], running.status, &running.output) {
            return copy_outcome(&answers[i]);
        }
        i = i + 1;
    }
    copy_outcome(running)
}

/// An event emitted by a contract.
#[derive(Clone, Debug)]
pub struct Log {
    /// The emitting contract.
    pub address: Address,
    /// Indexed topics.
    pub topics: Vec<U256>,
    /// Unindexed data.
    pub data: Vec<u8>,
}

/// Collects the events emitted during execution.
#[derive(Clone, Debug)]
pub struct LogCollector {
    pub logs: Vec<Log>,
}

/// The inspectors that a stack can hold, one slot each.
#[derive(Clone, Copy, Debug, PartialEq, Eq, Structural)]
pub enum InspectorKind {
    Fuzzer,
    Debugger,
    Tracer,
    CoverageCollector,
    LogCollector,
    Cheatcodes,
    TracePrinter,
    ChiselState,
}

/// An ordered set of optional inspectors that sees every execution event.
///
/// The slots without state of their own in this library are switches: their inspectors run
/// outside it, and the stack decides which of them are asked, in what order, and which
/// answer stands.
#[derive(Clone, Debug)]
pub struct InspectorStack {
    pub cheatcodes: Option<Cheatcodes>,
    /// The program counter that the REPL state is captured at.
    pub chisel_state: Option<u64>,
    pub coverage: bool,
    pub debugger: bool,
    pub fuzzer: bool,
    pub log_collector: Option<LogCollector>,
    pub printer: bool,
    pub tracer: bool,
    /// Whether a synthetic top-level transaction is running inside an intercepted call.
    pub in_inner_context: bool,
}

/// What the stack hands over once a transaction is done.
#[derive(Clone, Debug)]
pub struct InspectorData {
    pub logs: Vec<Log>,
    pub labels: Vec<(Address, String)>,
    pub cheatcodes: Option<Cheatcodes>,
    pub chisel_state: Option<u64>,
    pub traces: bool,
    pub debug: bool,
    pub coverage: bool,
}

/// The inspectors to put in a stack, and the environment to hand them.
#[derive(Clone, Debug)]
pub struct InspectorStackBuilder {
    pub block: Option<BlockEnv>,
    pub gas_price: Option<U256>,
    pub cheatcodes: bool,
    pub fuzzer: bool,
    pub trace: Option<bool>,
    pub debug: Option<bool>,
    pub logs: Option<bool>,
    pub coverage: Option<bool>,
    pub print: Option<bool>,
    pub chisel_state: Option<u64>,
}

impl InspectorStackBuilder {
    /// A builder that asks for nothing yet.
    pub fn new() -> (r: InspectorStackBuilder)
        ensures
            r.block is None && r.gas_price is None && !r.cheatcodes && !r.fuzzer && r.trace is None
                && r.debug is None && r.logs is None && r.coverage is None && r.print is None
                && r.chisel_state is None,
    {
        InspectorStackBuilder {
            block: None,
            gas_price: None,
            cheatcodes: false,
            fuzzer: false,
            trace: None,
            debug: None,
            logs: None,
            coverage: None,
            print: None,
            chisel_state: None,
        }
    }

    pub fn block(self, block: BlockEnv) -> (r: InspectorStackBuilder)
        ensures
            r == (InspectorStackBuilder { block: Some(block), ..self }),
    {
        InspectorStackBuilder { block: Some(block), ..self }
    }

    pub fn gas_price(self, gas_price: U256) -> (r: InspectorStackBuilder)
        ensures
            r == (InspectorStackBuilder { gas_price: Some(gas_price), ..self }),
    {
        InspectorStackBuilder { gas_price: Some(gas_price), ..self }
    }

    pub fn cheatcodes(self) -> (r: InspectorStackBuilder)
        ensures
            r == (InspectorStackBuilder { cheatcodes: true, ..self }),
    {
        InspectorStackBuilder { cheatcodes: true, ..self }
    }

    pub fn fuzzer(self) -> (r: InspectorStackBuilder)
        ensures
            r == (InspectorStackBuilder { fuzzer: true, ..self }),
    {
        InspectorStackBuilder { fuzzer: true, ..self }
    }

    pub fn chisel_state(self, final_pc: u64) -> (r: InspectorStackBuilder)
        ensures
            r == (InspectorStackBuilder { chisel_state: Some(final_pc), ..self }),
    {
        InspectorStackBuilder { chisel_state: Some(final_pc), ..self }
    }

    pub fn logs(self, yes: bool) -> (r: InspectorStackBuilder)
        ensures
            r == (InspectorStackBuilder { logs: Some(yes), ..self }),
    {
        InspectorStackBuilder { logs: Some(yes), ..self }
    }

    pub fn coverage(self, yes: bool) -> (r: InspectorStackBuilder)
        ensures
            r == (InspectorStackBuilder { coverage: Some(yes), ..self }),
    {
        InspectorStackBuilder { coverage: Some(yes), ..self }
    }

    pub fn debug(self, yes: bool) -> (r: InspectorStackBuilder)
        ensures
            r == (InspectorStackBuilder { debug: Some(yes), ..self }),
    {
        InspectorStackBuilder { debug: Some(yes), ..self }
    }

    pub fn print(self, yes: bool) -> (r: InspectorStackBuilder)
        ensures
            r == (InspectorStackBuilder { print: Some(yes), ..self }),
    {
        InspectorStackBuilder { print: Some(yes), ..self }
    }

    pub fn trace(self, yes: bool) -> (r: InspectorStackBuilder)
        ensures
            r == (InspectorStackBuilder { trace: Some(yes), ..self }),
    {
        InspectorStackBuilder { trace: Some(yes), ..self }
    }

    /// The stack asked for: logs are collected unless switched off, the other switches are
    /// off unless switched on, and the cheatcode state gets the block and gas price.
    pub fn build(self) -> (r: InspectorStack)
        ensures
            r.cheatcodes is Some == self.cheatcodes,
            r.fuzzer == self.fuzzer,
            r.chisel_state == self.chisel_state,
            r.coverage == (self.coverage == Some(true)),
            r.log_collector is Some == (self.logs != Some(false)),
            r.logs_view().len() == 0,
            r.debugger == (self.debug == Some(true)),
            r.printer == (self.print == Some(true)),
            r.tracer == (self.trace == Some(true)),
            !r.in_inner_context,
            r.cheatcodes matches Some(c) ==> c.block == self.block && c.gas_price == self.gas_price
                && c.prank is None && c.broadcast is None,
    {
        let mut stack = InspectorStack::new();
        if self.cheatcodes {
            let mut c = Cheatcodes::new();
            c.block = self.block;
            c.gas_price = self.gas_price;
            stack.set_cheatcodes(c);
        }
        if self.fuzzer {
            stack.set_fuzzer();
        }
        if let Some(pc) = self.chisel_state {
            stack.set_chisel(pc);
        }
        stack.collect_coverage(self.coverage == Some(true));
        stack.collect_logs(self.logs != Some(false));
        stack.enable_debugger(self.debug == Some(true));
        stack.print(self.print == Some(true));
        stack.tracing(self.trace == Some(true));
        stack
    }
}

/// `s` followed by `k` where `on` holds.
pub open spec fn push_if(s: Seq<InspectorKind>, on: bool, k: InspectorKind) -> Seq<InspectorKind> {
    if on { s.push(k) } else { s }
}

impl InspectorStack {
    /// The events logged so far: none where logs are not collected.
    pub open spec fn logs_view(&self) -> Seq<Log> {
        match self.log_collector {
            Some(c) => c.logs@,
            None => Seq::empty(),
        }
    }

    /// The inspectors asked about calls and call ends, in the order they are asked.
    pub open spec fn call_order_spec(&self) -> Seq<InspectorKind> {
        push_if(
            push_if(
                push_if(
                    push_if(
                        push_if(
                            push_if(
                                push_if(Seq::empty(), self.fuzzer, InspectorKind::Fuzzer),
                                self.debugger,
                                InspectorKind::Debugger,
                            ),
                            self.tracer,
                            InspectorKind::Tracer,
                        ),
                        self.coverage,
                        InspectorKind::CoverageCollector,
                    ),
                    self.log_collector is Some,
                    InspectorKind::LogCollector,
                ),
                self.cheatcodes is Some,
                InspectorKind::Cheatcodes,
            ),
            self.printer,
            InspectorKind::TracePrinter,
        )
    }

    /// The inspectors asked about creations and creation ends, in the order they are asked.
    pub open spec fn create_order_spec(&self) -> Seq<InspectorKind> {
        push_if(
            push_if(
                push_if(
                    push_if(
                        push_if(
                            push_if(Seq::empty(), self.debugger, InspectorKind::Debugger),
                            self.tracer,
                            InspectorKind::Tracer,
                        ),
                        self.coverage,
                        InspectorKind::CoverageCollector,
                    ),
                    self.log_collector is Some,
                    InspectorKind::LogCollector,
                ),
                self.cheatcodes is Some,
                InspectorKind::Cheatcodes,
            ),
            self.printer,
            InspectorKind::TracePrinter,
        )
    }

    /// The inspectors asked after each step, in order: every one, as for calls, and
    /// also the REPL state.
    pub open spec fn step_end_order_spec(&self) -> Seq<InspectorKind> {
        push_if(
            push_if(
                push_if(
                    push_if(
                        push_if(
                            push_if(Seq::empty(), self.debugger, InspectorKind::Debugger),
                            self.tracer,
                            InspectorKind::Tracer,
                        ),
                        self.log_collector is Some,
                        InspectorKind::LogCollector,
                    ),
                    self.cheatcodes is Some,
                    InspectorKind::Cheatcodes,
                ),
                self.printer,
                InspectorKind::TracePrinter,
            ),
            self.chisel_state is Some,
            InspectorKind::ChiselState,
        )
    }

    /// The inspectors that see every event, in order.
    pub open spec fn log_order_spec(&self) -> Seq<InspectorKind> {
        push_if(
            push_if(
                push_if(
                    push_if(Seq::empty(), self.tracer, InspectorKind::Tracer),
                    self.log_collector is Some,
                    InspectorKind::LogCollector,
                ),
                self.cheatcodes is Some,
                InspectorKind::Cheatcodes,
            ),
            self.printer,
            InspectorKind::TracePrinter,
        )
    }

    /// An empty stack: no inspector, outside any inner transaction.
    pub fn new() -> (r: InspectorStack)
        ensures
            r.cheatcodes is None,
            r.chisel_state is None,
            !r.coverage,
            !r.debugger,
            !r.fuzzer,
            r.log_collector is None,
            !r.printer,
            !r.tracer,
            !r.in_inner_context,
            r.call_order_spec().len() == 0,
            r.create_order_spec().len() == 0,
    {
        InspectorStack {
            cheatcodes: None,
            chisel_state: None,
            coverage: false,
            debugger: false,
            fuzzer: false,
            log_collector: None,
            printer: false,
            tracer: false,
            in_inner_context: false,
        }
    }

    /// Installs the cheatcode state.
    pub fn set_cheatcodes(&mut self, cheatcodes: Cheatcodes)
        ensures
            *final(self) == (InspectorStack { cheatcodes: Some(cheatcodes), ..*old(self) }),
    {
        self.cheatcodes = Some(cheatcodes);
    }

    /// Switches the fuzzer on.
    pub fn set_fuzzer(&mut self)
        ensures
            *final(self) == (InspectorStack { fuzzer: true, ..*old(self) }),
    {
        self.fuzzer = true;
    }

    /// Captures the REPL state at program counter `final_pc`.
    pub fn set_chisel(&mut self, final_pc: u64)
        ensures
            *final(self) == (InspectorStack { chisel_state: Some(final_pc), ..*old(self) }),
    {
        self.chisel_state = Some(final_pc);
    }

    /// Switches coverage collection.
    pub fn collect_coverage(&mut self, yes: bool)
        ensures
            *final(self) == (InspectorStack { coverage: yes, ..*old(self) }),
    {
        self.coverage = yes;
    }

    /// Switches the debugger.
    pub fn enable_debugger(&mut self, yes: bool)
        ensures
            *final(self) == (InspectorStack { debugger: yes, ..*old(self) }),
    {
        self.debugger = yes;
    }

    /// Switches log collection; switching it on starts with no logs.
    pub fn collect_logs(&mut self, yes: bool)
        ensures
            *final(self) == (InspectorStack { log_collector: final(self).log_collector, ..*old(self) }),
            final(self).log_collector is Some == yes,
            final(self).logs_view().len() == 0,
    {
        self.log_collector = if yes {
            Some(LogCollector { logs: Vec::new() })
        } else {
            None
        };
    }

    /// Switches the trace printer.
    pub fn print(&mut self, yes: bool)
        ensures
            *final(self) == (InspectorStack { printer: yes, ..*old(self) }),
    {
        self.printer = yes;
    }

    /// Switches the tracer.
    pub fn tracing(&mut self, yes: bool)
        ensures
            *final(self) == (InspectorStack { tracer: yes, ..*old(self) }),
    {
        self.tracer = yes;
    }

    /// The inspectors asked about calls and call ends, in the order they are asked.
    pub fn call_order(&self) -> (r: Vec<InspectorKind>)
        ensures
            r@ == self.call_order_spec(),
    {
        let mut r: Vec<InspectorKind> = Vec::new();
        if self.fuzzer {
            r.push(InspectorKind::Fuzzer);
        }
        let mut v = self.create_order();
        r.append(&mut v);
        r
    }

    /// The inspectors asked about creations and creation ends, in the order they are asked.
    pub fn create_order(&self) -> (r: Vec<InspectorKind>)
        ensures
            r@ == self.create_order_spec(),
    {
        let mut r: Vec<InspectorKind> = Vec::new();
        if self.debugger {
            r.push(InspectorKind::Debugger);
        }
        if self.tracer {
            r.push(InspectorKind::Tracer);
        }
        if self.coverage {
            r.push(InspectorKind::CoverageCollector);
        }
        if self.log_collector.is_some() {
            r.push(InspectorKind::LogCollector);
        }
        if self.cheatcodes.is_some() {
            r.push(InspectorKind::Cheatcodes);
        }
        if self.printer {
            r.push(InspectorKind::TracePrinter);
        }
        r
    }

    /// The inspectors asked at each step and at interpreter start, in order. Every one of
    /// them is asked: no answer ends a step early.
    pub fn step_order(&self) -> (r: Vec<InspectorKind>)
        ensures
            r@ == self.call_order_spec(),
    {
        self.call_order()
    }

    /// The inspectors asked after each step and at self-destructs, in order; every one of
    /// them is asked.
    pub fn step_end_order(&self) -> (r: Vec<InspectorKind>)
        ensures
            r@ == self.step_end_order_spec(),
    {
        let mut r: Vec<InspectorKind> = Vec::new();
        if self.debugger {
            r.push(InspectorKind::Debugger);
        }
        if self.tracer {
            r.push(InspectorKind::Tracer);
        }
        if self.log_collector.is_some() {
            r.push(InspectorKind::LogCollector);
        }
        if self.cheatcodes.is_some() {
            r.push(InspectorKind::Cheatcodes);
        }
        if self.printer {
            r.push(InspectorKind::TracePrinter);
        }
        if self.chisel_state.is_some() {
            r.push(InspectorKind::ChiselState);
        }
        r
    }

    /// The inspectors that see every event, in order; all of them are asked.
    pub fn log_order(&self) -> (r: Vec<InspectorKind>)
        ensures
            r@ == self.log_order_spec(),
    {
        let mut r: Vec<InspectorKind> = Vec::new();
        if self.tracer {
            r.push(InspectorKind::Tracer);
        }
        if self.log_collector.is_some() {
            r.push(InspectorKind::LogCollector);
        }
        if self.cheatcodes.is_some() {
            r.push(InspectorKind::Cheatcodes);
        }
        if self.printer {
            r.push(InspectorKind::TracePrinter);
        }
        r
    }

    /// Hands the block to the inspectors that read it.
    pub fn set_block(&mut self, block: &BlockEnv)
        ensures
            final(self).log_collector == old(self).log_collector,
            final(self).in_inner_context == old(self).in_inner_context,
            final(self).cheatcodes is Some == old(self).cheatcodes is Some,
            final(self).cheatcodes matches Some(c) ==> c.block == Some(*block) && c.gas_price
                == old(self).cheatcodes->0.gas_price && c.prank == old(self).cheatcodes->0.prank,
    {
        if let Some(c) = &mut self.cheatcodes {
            c.block = Some(*block);
        }
    }

    /// Hands the gas price to the inspectors that read it.
    pub fn set_gas_price(&mut self, gas_price: U256)
        ensures
            final(self).log_collector == old(self).log_collector,
            final(self).in_inner_context == old(self).in_inner_context,
            final(self).cheatcodes is Some == old(self).cheatcodes is Some,
            final(self).cheatcodes matches Some(c) ==> c.gas_price == Some(gas_price) && c.block
                == old(self).cheatcodes->0.block && c.prank == old(self).cheatcodes->0.prank,
    {
        if let Some(c) = &mut self.cheatcodes {
            c.gas_price = Some(gas_price);
        }
    }

    /// Hands the block and the gas price of `env` to the inspectors that read them.
    pub fn set_env(&mut self, env: &Env)
        ensures
            final(self).cheatcodes is Some == old(self).cheatcodes is Some,
            final(self).cheatcodes matches Some(c) ==> c.block == Some(env.block) && c.gas_price
                == Some(env.tx.gas_price),
    {
        self.set_block(&env.block);
        self.set_gas_price(env.tx.gas_price);
    }

    /// Records an event where logs are collected.
    pub fn log(&mut self, log: Log)
        ensures
            final(self).logs_view() == (if old(self).log_collector is Some {
                old(self).logs_view().push(log)
            } else {
                old(self).logs_view()
            }),
            final(self).log_collector is Some == old(self).log_collector is Some,
            final(self).cheatcodes == old(self).cheatcodes,
            final(self).in_inner_context == old(self).in_inner_context,
    {
        if let Some(c) = &mut self.log_collector {
            c.logs.push(log);
        }
    }

    /// Whether an event at `depth` is the dispatch of the inner transaction itself, which
    /// passes through without being processed twice.
    pub fn is_inner_dispatch(&self, depth: u64) -> (r: bool)
        ensures
            r == (self.in_inner_context && depth == 0),
    {
        self.in_inner_context && depth == 0
    }

    /// The depth the inspectors see for an event at `depth`: one deeper inside an inner
    /// transaction, which started over at depth 0.
    pub fn dispatch_depth(&self, depth: u64) -> (r: u64)
        requires
            depth < u64::MAX,
        ensures
            r == (if self.in_inner_context { depth + 1 } else { depth as int }),
    {
        if self.in_inner_context {
            depth + 1
        } else {
            depth
        }
    }

    /// Whether a call at `depth` that no inspector decided is run as a transaction of its
    /// own: a call at depth 1, outside an inner transaction, that may change state.
    pub fn runs_inner_call(&self, depth: u64, is_static: bool) -> (r: bool)
        ensures
            r == (!is_static && !self.in_inner_context && depth == 1),
    {
        !is_static && !self.in_inner_context && depth == 1
    }

    /// Whether a creation at `depth` that no inspector decided is run as a transaction of
    /// its own: a creation at depth 1 outside an inner transaction.
    pub fn runs_inner_create(&self, depth: u64) -> (r: bool)
        ensures
            r == (!self.in_inner_context && depth == 1),
    {
        !self.in_inner_context && depth == 1
    }

    /// Enters an inner transaction.
    pub fn begin_inner(&mut self)
        ensures
            *final(self) == (InspectorStack { in_inner_context: true, ..*old(self) }),
    {
        self.in_inner_context = true;
    }

    /// Leaves an inner transaction.
    pub fn end_inner(&mut self)
        ensures
            *final(self) == (InspectorStack { in_inner_context: false, ..*old(self) }),
    {
        self.in_inner_context = false;
    }

    /// Hands over what was gathered: the logged events, the labels, and the cheatcode
    /// state.
    pub fn collect(self) -> (r: InspectorData)
        ensures
            r.logs@ == self.logs_view(),
            r.labels@ == (match self.cheatcodes {
                Some(c) => c.labels@,
                None => Seq::empty(),
            }),
            r.cheatcodes == self.cheatcodes,
            r.chisel_state == self.chisel_state,
            r.traces == self.tracer,
            r.debug == self.debugger,
            r.coverage == self.coverage,
    {
        let logs = match self.log_collector {
            Some(c) => c.logs,
            None => Vec::new(),
        };
        let labels = match &self.cheatcodes {
            Some(c) => copy_labels(&c.labels),
            None => Vec::new(),
        };
        InspectorData {
            logs,
            labels,
            cheatcodes: self.cheatcodes,
            chisel_state: self.chisel_state,
            traces: self.tracer,
            debug: self.debugger,
            coverage: self.coverage,
        }
    }
}

fn copy_labels(v: &Vec<(Address, String)>) -> (r: Vec<(Address, String)>)
    ensures
        r@ == v@,
{
    let mut r: Vec<(Address, String)> = Vec::new();
    let mut i: usize = 0;
    while i < v.len()
        invariant
            i <= v.len(),
            r@ == v@.subrange(0, i as int),
        decreases v.len() - i,
    {
        let (a, name) = &v[i];
        let copied = name.clone();
        proof {
            assert(copied == *name);
        }
        r.push((*a, copied));
        i = i + 1;
    }
    assert(r@ =~= v@);
    r
}

/// The logs that a stack collecting logs, started empty, hands over after the events
/// `events`, one `log` call each: exactly those events, in order.
pub proof fn lemma_collected_logs_are_logged_events(stacks: Seq<InspectorStack>, events: Seq<Log>)
    requires
        stacks.len() == events.len() + 1,
        stacks[0].log_collector is Some,
        stacks[0].logs_view().len() == 0,
        forall|i: int|
            0 <= i < events.len() ==> (#[trigger] stacks[i + 1]).logs_view() == (if stacks[i].log_collector is Some {
                stacks[i].logs_view().push(events[i])
            } else {
                stacks[i].logs_view()
            }) && stacks[i + 1].log_collector is Some == stacks[i].log_collector is Some,
    ensures
        stacks[events.len() as int].logs_view() == events,
    decreases events.len(),
{
    if events.len() > 0 {
        let n = events.len() - 1;
        lemma_collected_logs_are_logged_events(stacks.subrange(0, n + 1), events.subrange(0, n));
        assert(stacks.subrange(0, n + 1)[n] == stacks[n]);
        assert forall|i: int| 0 <= i <= n implies #[trigger] stacks[i].log_collector is Some by {
            lemma_collector_kept(stacks, events, i);
        }
        assert(stacks[n + 1].logs_view() == events.subrange(0, n).push(events[n]));
        assert(events.subrange(0, n).push(events[n]) =~= events);
    }
}

proof fn lemma_collector_kept(stacks: Seq<InspectorStack>, events: Seq<Log>, i: int)
    requires
        stacks.len() == events.len() + 1,
        stacks[0].log_collector is Some,
        forall|k: int|
            0 <= k < events.len() ==> (#[trigger] stacks[k + 1]).log_collector is Some
                == stacks[k].log_collector is Some,
        0 <= i < stacks.len(),
    ensures
        stacks[i].log_collector is Some,
    decreases i,
{
    if i > 0 {
        lemma_collector_kept(stacks, events, i - 1);
        assert(stacks[(i - 1) + 1].log_collector is Some == stacks[i - 1].log_collector is Some);
    }
}

} // verus!
