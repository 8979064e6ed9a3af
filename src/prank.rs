use vstd::prelude::*;
use crate::address::Address;
use crate::draw::{draw_below, draw_u128};
use crate::inner::{account_of, Account, BlockEnv, State};
use crate::word::{U256, word_max};
use proptest::test_runner::TestRunner;

verus! {

/// A substitution of `msg.sender` (and optionally `tx.origin`) for calls made by the test.
#[derive(Clone, Copy, Debug, PartialEq, Eq, Structural)]
pub struct Prank {
    /// Address of the contract that set up the prank.
    pub prank_caller: Address,
    /// `tx.origin` when the prank was set up.
    pub prank_origin: Address,
    /// The address that calls appear to come from.
    pub new_caller: Address,
    /// The `tx.origin` that calls see, if it is replaced.
    pub new_origin: Option<Address>,
    /// The call depth at which the prank was set up.
    pub depth: u64,
    /// Whether the prank ends after the next call.
    pub single_call: bool,
    /// Whether the prank also applies to delegate calls.
    pub delegate_call: bool,
    /// Whether the prank has been applied yet.
    pub used: bool,
}

/// A transaction broadcast in progress, with the origin it sends from.
#[derive(Clone, Copy, Debug, PartialEq, Eq, Structural)]
pub struct Broadcast {
    /// The address transactions are sent from.
    pub new_origin: Address,
    /// The contract that started the broadcast.
    pub original_caller: Address,
    /// `tx.origin` when the broadcast started.
    pub original_origin: Address,
    /// The call depth at which the broadcast started.
    pub depth: u64,
    /// Whether the broadcast ends after the next call.
    pub single_call: bool,
}

/// An illegal transition of the prank or broadcast state.
#[derive(Clone, Copy, Debug, PartialEq, Eq, Structural)]
pub enum CheatError {
    /// The current prank has not been applied yet.
    PrankNotApplied,
    /// A single-call prank would replace an ongoing one, or the other way round.
    PrankKindMismatch,
    /// A prank was asked for while a broadcast is active.
    PrankDuringBroadcast,
    /// A broadcast was asked for while a prank is active.
    BroadcastDuringPrank,
    /// A broadcast was asked for while another one is active.
    BroadcastActive,
    /// A random number was asked for between bounds that cross.
    InvalidBounds,
    /// Storage was to be copied into an account whose storage is arbitrary.
    InvalidTarget,
}

impl CheatError {
    /// The reason reported to the calling test.
    pub fn message(&self) -> &'static str {
        match self {
            CheatError::PrankNotApplied => "cannot overwrite a prank until it is applied at least once",
            CheatError::PrankKindMismatch => "cannot override an ongoing prank with a single vm.prank; use vm.startPrank to override the current prank",
            CheatError::PrankDuringBroadcast => "cannot `prank` for a broadcasted transaction; pass the desired `tx.origin` into the `broadcast` cheatcode call",
            CheatError::BroadcastDuringPrank => "you have an active prank; broadcasting and pranks are not compatible",
            CheatError::BroadcastActive => "a broadcast is already active",
            CheatError::InvalidBounds => "min must be less than or equal to max",
            CheatError::InvalidTarget => "target address cannot have arbitrary storage",
        }
    }
}

/// What a call sees of who made it.
#[derive(Clone, Copy, Debug, PartialEq, Eq, Structural)]
pub struct CallContext {
    /// `msg.sender` of the call.
    pub caller: Address,
    /// `tx.origin` of the transaction.
    pub origin: Address,
    /// The call depth at which the call is made.
    pub depth: u64,
    /// Whether the call is a delegate call.
    pub is_delegatecall: bool,
}

impl Prank {
    /// A prank that has not been applied yet.
    pub fn new(
        prank_caller: Address,
        prank_origin: Address,
        new_caller: Address,
        new_origin: Option<Address>,
        depth: u64,
        single_call: bool,
        delegate_call: bool,
    ) -> (r: Prank)
        ensures
            r == (Prank {
                prank_caller,
                prank_origin,
                new_caller,
                new_origin,
                depth,
                single_call,
                delegate_call,
                used: false,
            }),
    {
        Prank {
            prank_caller,
            prank_origin,
            new_caller,
            new_origin,
            depth,
            single_call,
            delegate_call,
            used: false,
        }
    }

    /// The prank marked as applied, only where this is its first application.
    pub fn first_time_applied(&self) -> (r: Option<Prank>)
        ensures
            r == (if self.used {
                None
            } else {
                Some(Prank { used: true, ..*self })
            }),
    {
        if self.used {
            None
        } else {
            Some(Prank { used: true, ..*self })
        }
    }
}

/// Whether `p` acts on a call made in `ctx`: made by the pranking contract, at the prank's
/// depth or deeper, and not a delegate call unless the prank asks for those.
pub open spec fn prank_applies(p: Prank, ctx: CallContext) -> bool {
    &&& ctx.caller == p.prank_caller
    &&& ctx.depth >= p.depth
    &&& (!ctx.is_delegatecall || p.delegate_call)
}

/// What a call made in `ctx` sees under `prank`.
pub open spec fn observed_context(prank: Option<Prank>, ctx: CallContext) -> CallContext {
    match prank {
        Some(p) => if prank_applies(p, ctx) {
            CallContext {
                caller: if ctx.depth == p.depth { p.new_caller } else { ctx.caller },
                origin: match p.new_origin {
                    Some(o) => o,
                    None => ctx.origin,
                },
                ..ctx
            }
        } else {
            ctx
        },
        None => ctx,
    }
}

/// The prank after a call made in `ctx`: marked used where it changed what the call sees.
pub open spec fn prank_after_call(prank: Option<Prank>, ctx: CallContext) -> Option<Prank> {
    match prank {
        Some(p) => if prank_applies(p, ctx) && (ctx.depth == p.depth || p.new_origin.is_some()) {
            Some(Prank { used: true, ..p })
        } else {
            Some(p)
        },
        None => None,
    }
}

/// The prank after a call returns to `depth`: a used single-call prank ends there.
pub open spec fn prank_after_call_end(prank: Option<Prank>, depth: u64) -> Option<Prank> {
    match prank {
        Some(p) => if depth == p.depth && p.single_call && p.used {
            None
        } else {
            Some(p)
        },
        None => None,
    }
}

/// The outcome of arming a prank from `ctx` over the current state.
pub open spec fn arm(
    prank: Option<Prank>,
    broadcast: Option<Broadcast>,
    ctx: CallContext,
    new_caller: Address,
    new_origin: Option<Address>,
    single_call: bool,
    delegate_call: bool,
) -> Result<Prank, CheatError> {
    if prank is Some && !prank->0.used {
        Err(CheatError::PrankNotApplied)
    } else if prank is Some && prank->0.single_call != single_call {
        Err(CheatError::PrankKindMismatch)
    } else if broadcast is Some {
        Err(CheatError::PrankDuringBroadcast)
    } else {
        Ok(
            Prank {
                prank_caller: ctx.caller,
                prank_origin: ctx.origin,
                new_caller,
                new_origin,
                depth: ctx.depth,
                single_call,
                delegate_call,
                used: false,
            },
        )
    }
}

/// Stretches of the trace left out of reports: from where tracing was paused to where
/// it resumed, each a (node, item) position.
#[derive(Clone, Debug)]
pub struct IgnoredTraces {
    pub ignored: Vec<((usize, usize), (usize, usize))>,
    /// Where tracing was last paused, while it is paused.
    pub last_pause_call: Option<(usize, usize)>,
}

impl IgnoredTraces {
    pub fn new() -> (r: IgnoredTraces)
        ensures
            r.ignored@.len() == 0,
            r.last_pause_call is None,
    {
        IgnoredTraces { ignored: Vec::new(), last_pause_call: None }
    }

    /// Pauses tracing at `position`, the end of the current trace; nothing happens without
    /// a trace or while already paused.
    pub fn pause(&mut self, position: Option<(usize, usize)>)
        ensures
            final(self).ignored@ == old(self).ignored@,
            final(self).last_pause_call == (if position is Some && old(self).last_pause_call is None {
                position
            } else {
                old(self).last_pause_call
            }),
    {
        if position.is_some() && self.last_pause_call.is_none() {
            self.last_pause_call = position;
        }
    }

    /// Resumes tracing at `position`, the end of the current trace, leaving out what lies
    /// since the pause; nothing happens without a trace or when not paused.
    pub fn resume(&mut self, position: Option<(usize, usize)>)
        ensures
            match (position, old(self).last_pause_call) {
                (Some(end), Some(start)) => final(self).ignored@ == old(self).ignored@.push((start, end))
                    && final(self).last_pause_call is None,
                _ => final(self).ignored@ == old(self).ignored@ && final(self).last_pause_call == old(
                    self,
                ).last_pause_call,
            },
    {
        if let Some(end) = position {
            if let Some(start) = self.last_pause_call {
                self.ignored.push((start, end));
                self.last_pause_call = None;
            }
        }
    }
}

/// The label of `a` in `labels`: its last entry.
pub open spec fn label_of(labels: Seq<(Address, String)>, a: Address) -> Option<String>
    decreases labels.len(),
{
    if labels.len() == 0 {
        None
    } else if labels.last().0 == a {
        Some(labels.last().1)
    } else {
        label_of(labels.drop_last(), a)
    }
}

/// `min` plus `random` reduced into `[0, max - min]`.
pub open spec fn in_range_value(min: nat, max: nat, random: nat) -> nat {
    if (max - min) as nat == word_max() {
        random
    } else {
        min + random % ((max - min) as nat + 1)
    }
}

/// A number in `[min, max]` made from `random`; refused where the bounds cross.
pub fn uint_in_range(min: &U256, max: &U256, random: &U256) -> (r: Result<U256, CheatError>)
    ensures
        min.value() > max.value() ==> r == Err::<U256, CheatError>(CheatError::InvalidBounds),
        min.value() <= max.value() ==> r is Ok && r->Ok_0.value() == in_range_value(
            min.value(),
            max.value(),
            random.value(),
        ) && min.value() <= r->Ok_0.value() <= max.value(),
{
    if max.lt(min) {
        return Err(CheatError::InvalidBounds);
    }
    proof {
        max.lemma_bounded();
        random.lemma_bounded();
    }
    let span = max.saturating_sub(min);
    if span.lt(&U256::max_value()) {
        let modulus = span.saturating_add(&U256::from_u64(1));
        let offset = random.rem(&modulus);
        Ok(min.saturating_add(&offset))
    } else {
        proof {
            assert(min.value() == 0);
        }
        Ok(*random)
    }
}

/// `val` cut or padded with zeros to `len` bytes.
pub fn fit_bytes(val: Vec<u8>, len: usize) -> (r: Vec<u8>)
    ensures
        r@.len() == len,
        forall|i: int| 0 <= i < len ==> r@[i] == (if i < val@.len() { val@[i] } else { 0u8 }),
{
    let mut r: Vec<u8> = Vec::new();
    let mut i: usize = 0;
    while i < len
        invariant
            i <= len,
            r@.len() == i,
            forall|k: int| 0 <= k < i ==> r@[k] == (if k < val@.len() { val@[k] } else { 0u8 }),
        decreases len - i,
    {
        if i < val.len() {
            r.push(val[i]);
        } else {
            r.push(0);
        }
        i = i + 1;
    }
    r
}

/// Random bytes of a random length, fitted to `len` bytes.
pub fn random_bytes(runner: &mut TestRunner, len: usize) -> (r: Vec<u8>)
    ensures
        r@.len() == len,
{
    let drawn = draw_below(runner, 100) as usize;
    let mut val: Vec<u8> = Vec::new();
    let mut i: usize = 0;
    while i < drawn
        invariant
            i <= drawn,
        decreases drawn - i,
    {
        val.push(draw_below(runner, 256) as u8);
        i = i + 1;
    }
    fit_bytes(val, len)
}

/// The prank and broadcast state of one test.
#[derive(Clone, Debug)]
pub struct Cheatcodes {
    /// The active prank, if any.
    pub prank: Option<Prank>,
    /// The active broadcast, if any.
    pub broadcast: Option<Broadcast>,
    /// Names given to addresses; an address has the name of its last entry.
    pub labels: Vec<(Address, String)>,
    /// Parts of the trace left out of reports.
    pub ignored_traces: IgnoredTraces,
    /// The block that the environment cheats start from, once known.
    pub block: Option<BlockEnv>,
    /// The gas price that the environment cheats start from, once known.
    pub gas_price: Option<U256>,
    /// Accounts whose unset storage reads as random.
    pub arbitrary_storage: Vec<Address>,
    /// Storage copies made, source first.
    pub storage_copies: Vec<(Address, Address)>,
}

impl Cheatcodes {
    /// A state with no prank, no broadcast and no labels.
    pub fn new() -> (r: Cheatcodes)
        ensures
            r.prank is None,
            r.broadcast is None,
            r.labels@.len() == 0,
            r.block is None,
            r.gas_price is None,
    {
        Cheatcodes {
            prank: None,
            broadcast: None,
            labels: Vec::new(),
            ignored_traces: IgnoredTraces::new(),
            block: None,
            gas_price: None,
            arbitrary_storage: Vec::new(),
            storage_copies: Vec::new(),
        }
    }

    /// Arms a prank for calls made by `ctx.caller`; with `single_call` it ends after one
    /// call, else at `stop_prank`.
    pub fn prank(
        &mut self,
        ctx: &CallContext,
        new_caller: Address,
        new_origin: Option<Address>,
        single_call: bool,
        delegate_call: bool,
    ) -> (r: Result<(), CheatError>)
        ensures
            match arm(
                old(self).prank,
                old(self).broadcast,
                *ctx,
                new_caller,
                new_origin,
                single_call,
                delegate_call,
            ) {
                Ok(p) => r is Ok && *final(self) == (Cheatcodes { prank: Some(p), ..*old(self) }),
                Err(e) => r == Err::<(), CheatError>(e) && *final(self) == *old(self),
            },
    {
        if let Some(current) = self.prank {
            if !current.used {
                return Err(CheatError::PrankNotApplied);
            }
            if current.single_call != single_call {
                return Err(CheatError::PrankKindMismatch);
            }
        }
        if self.broadcast.is_some() {
            return Err(CheatError::PrankDuringBroadcast);
        }
        self.prank = Some(
            Prank::new(
                ctx.caller,
                ctx.origin,
                new_caller,
                new_origin,
                ctx.depth,
                single_call,
                delegate_call,
            ),
        );
        Ok(())
    }

    /// Names `a`.
    pub fn label(&mut self, a: Address, name: String)
        ensures
            final(self).labels@ == old(self).labels@.push((a, name)),
            label_of(final(self).labels@, a) == Some(name),
            *final(self) == (Cheatcodes { labels: final(self).labels, ..*old(self) }),
    {
        self.labels.push((a, name));
        proof {
            assert(self.labels@.drop_last() == old(self).labels@);
        }
    }

    /// The name of `a`, if it has one.
    pub fn get_label(&self, a: Address) -> (r: Option<String>)
        ensures
            r == label_of(self.labels@, a),
    {
        let mut i = self.labels.len();
        proof {
            assert(self.labels@.subrange(0, i as int) =~= self.labels@);
        }
        while i > 0
            invariant
                i <= self.labels@.len(),
                label_of(self.labels@, a) == label_of(self.labels@.subrange(0, i as int), a),
            decreases i,
        {
            assert(self.labels@.subrange(0, i as int).drop_last() =~= self.labels@.subrange(
                0,
                i - 1,
            ));
            if self.labels[i - 1].0 == a {
                return Some(self.labels[i - 1].1.clone());
            }
            i = i - 1;
        }
        None
    }

    /// A random number in `[min, max]`, drawn from `runner`; refused where the bounds
    /// cross.
    pub fn random_uint(runner: &mut TestRunner, min: &U256, max: &U256) -> (r: Result<U256, CheatError>)
        ensures
            min.value() > max.value() ==> r == Err::<U256, CheatError>(CheatError::InvalidBounds),
            min.value() <= max.value() ==> r is Ok && min.value() <= r->Ok_0.value() <= max.value(),
    {
        let lower = draw_u128(runner);
        let higher = draw_u128(runner);
        let random = U256 {
            l0: #[verifier::truncate] (lower as u64),
            l1: #[verifier::truncate] ((lower >> 64u128) as u64),
            l2: #[verifier::truncate] (higher as u64),
            l3: #[verifier::truncate] ((higher >> 64u128) as u64),
        };
        uint_in_range(min, max, &random)
    }

    /// Marks the storage of `target` as arbitrary.
    pub fn set_arbitrary_storage(&mut self, target: Address)
        ensures
            final(self).arbitrary_storage@ == old(self).arbitrary_storage@.push(target),
            *final(self) == (Cheatcodes { arbitrary_storage: final(self).arbitrary_storage, ..*old(self) }),
    {
        self.arbitrary_storage.push(target);
    }

    /// Whether the storage of `a` is arbitrary.
    pub fn has_arbitrary_storage(&self, a: Address) -> (r: bool)
        ensures
            r == self.arbitrary_storage@.contains(a),
    {
        let mut i: usize = 0;
        while i < self.arbitrary_storage.len()
            invariant
                i <= self.arbitrary_storage@.len(),
                forall|j: int| 0 <= j < i ==> self.arbitrary_storage@[j] != a,
            decreases self.arbitrary_storage@.len() - i,
        {
            if self.arbitrary_storage[i] == a {
                return true;
            }
            i = i + 1;
        }
        false
    }

    /// Gives `to` the storage of `from`, where both accounts are known; refused where the
    /// storage of `to` is arbitrary.
    pub fn copy_storage(&mut self, state: &mut State, from: Address, to: Address) -> (r: Result<(), CheatError>)
        ensures
            old(self).arbitrary_storage@.contains(to) ==> r == Err::<(), CheatError>(
                CheatError::InvalidTarget,
            ) && final(state)@ == old(state)@ && final(self).storage_copies@ == old(
                self,
            ).storage_copies@,
            !old(self).arbitrary_storage@.contains(to) ==> r is Ok,
            !old(self).arbitrary_storage@.contains(to) && account_of(old(state)@, from) is Some
                && account_of(old(state)@, to) is Some ==> {
                &&& account_of(final(state)@, to) is Some
                &&& account_of(final(state)@, to)->0.storage@ == account_of(old(state)@, from)->0.storage@
                &&& account_of(final(state)@, to)->0.info == account_of(old(state)@, to)->0.info
                &&& account_of(final(state)@, to)->0.status == account_of(old(state)@, to)->0.status
                &&& forall|a: Address| a != to ==> account_of(final(state)@, a) == account_of(old(state)@, a)
                &&& final(self).storage_copies@ == old(self).storage_copies@.push((from, to))
            },
            !(account_of(old(state)@, from) is Some && account_of(old(state)@, to) is Some)
                ==> final(state)@ == old(state)@ && final(self).storage_copies@ == old(
                self,
            ).storage_copies@,
            r is Err ==> *final(self) == *old(self),
            *final(self) == (Cheatcodes { storage_copies: final(self).storage_copies, ..*old(self) }),
    {
        if self.has_arbitrary_storage(to) {
            return Err(CheatError::InvalidTarget);
        }
        let fi = crate::inner::find_account(state, from);
        let ti = crate::inner::find_account(state, to);
        match (fi, ti) {
            (Some(f), Some(t)) => {
                let mut storage: Vec<(U256, U256)> = Vec::new();
                let n = state[f].1.storage.len();
                let mut i: usize = 0;
                while i < n
                    invariant
                        f < state@.len(),
                        n == state@[f as int].1.storage@.len(),
                        i <= n,
                        storage@ == state@[f as int].1.storage@.subrange(0, i as int),
                    decreases n - i,
                {
                    storage.push(state[f].1.storage[i]);
                    i = i + 1;
                }
                proof {
                    assert(storage@ =~= state@[f as int].1.storage@);
                }
                let info = state[t].1.info;
                let status = state[t].1.status;
                let ghost before = state@;
                state.push((to, Account { info, storage, status }));
                proof {
                    assert(state@.drop_last() == before);
                }
                self.storage_copies.push((from, to));
                Ok(())
            },
            _ => Ok(()),
        }
    }

    /// Ends the active prank, if any.
    pub fn stop_prank(&mut self)
        ensures
            *final(self) == (Cheatcodes { prank: None, ..*old(self) }),
    {
        self.prank = None;
    }

    /// Starts broadcasting from `new_origin`; refused while a prank or a broadcast is active.
    pub fn start_broadcast(&mut self, ctx: &CallContext, new_origin: Address, single_call: bool) -> (r:
        Result<(), CheatError>)
        ensures
            old(self).prank is Some ==> r == Err::<(), CheatError>(CheatError::BroadcastDuringPrank),
            old(self).prank is None && old(self).broadcast is Some ==> r == Err::<(), CheatError>(
                CheatError::BroadcastActive,
            ),
            r is Err ==> *final(self) == *old(self),
            *final(self) == (Cheatcodes { broadcast: final(self).broadcast, ..*old(self) }),
            r is Ok <==> old(self).prank is None && old(self).broadcast is None,
            r is Ok ==> final(self).broadcast == Some(
                Broadcast {
                    new_origin,
                    original_caller: ctx.caller,
                    original_origin: ctx.origin,
                    depth: ctx.depth,
                    single_call,
                },
            ),
    {
        if self.prank.is_some() {
            return Err(CheatError::BroadcastDuringPrank);
        }
        if self.broadcast.is_some() {
            return Err(CheatError::BroadcastActive);
        }
        self.broadcast = Some(
            Broadcast {
                new_origin,
                original_caller: ctx.caller,
                original_origin: ctx.origin,
                depth: ctx.depth,
                single_call,
            },
        );
        Ok(())
    }

    /// Ends the active broadcast, if any.
    pub fn stop_broadcast(&mut self)
        ensures
            *final(self) == (Cheatcodes { broadcast: None, ..*old(self) }),
    {
        self.broadcast = None;
    }

    /// Applies the prank to a call made in `ctx` and returns what the call sees.
    pub fn on_call(&mut self, ctx: &CallContext) -> (r: CallContext)
        ensures
            r == observed_context(old(self).prank, *ctx),
            *final(self) == (Cheatcodes { prank: prank_after_call(old(self).prank, *ctx), ..*old(self) }),
    {
        match self.prank {
            Some(p) => {
                if ctx.caller == p.prank_caller && ctx.depth >= p.depth && (!ctx.is_delegatecall
                    || p.delegate_call) {
                    let mut seen = *ctx;
                    let mut applied = false;
                    if ctx.depth == p.depth {
                        seen.caller = p.new_caller;
                        applied = true;
                    }
                    if let Some(o) = p.new_origin {
                        seen.origin = o;
                        applied = true;
                    }
                    if applied {
                        if let Some(q) = p.first_time_applied() {
                            self.prank = Some(q);
                        }
                    }
                    seen
                } else {
                    *ctx
                }
            },
            None => *ctx,
        }
    }

    /// Closes a call that returns to `depth`; returns the `tx.origin` to restore where the
    /// prank was set up at that depth.
    pub fn on_call_end(&mut self, depth: u64) -> (r: Option<Address>)
        ensures
            r == (match old(self).prank {
                Some(p) => if depth == p.depth {
                    Some(p.prank_origin)
                } else {
                    None
                },
                None => None,
            }),
            *final(self) == (Cheatcodes { prank: prank_after_call_end(old(self).prank, depth), ..*old(self) }),
    {
        match self.prank {
            Some(p) => {
                if depth == p.depth {
                    if p.single_call && p.used {
                        self.prank = None;
                    }
                    Some(p.prank_origin)
                } else {
                    None
                }
            },
            None => None,
        }
    }
}

/// A single-call prank is consumed by the first call it acts on: that call sees the new
/// caller, the prank is marked used, and once the call returns the prank is gone, so the
/// next call sees its real caller.
pub proof fn lemma_single_call_prank_consumed(
    p: Prank,
    first: CallContext,
    next: CallContext,
)
    requires
        p.single_call,
        first.caller == p.prank_caller,
        first.depth == p.depth,
        !first.is_delegatecall || p.delegate_call,
    ensures
        observed_context(Some(p), first).caller == p.new_caller,
        prank_after_call(Some(p), first) == Some(Prank { used: true, ..p }),
        prank_after_call_end(prank_after_call(Some(p), first), first.depth) is None,
        observed_context(prank_after_call_end(prank_after_call(Some(p), first), first.depth), next)
            == next,
{
}

/// Whatever call first acts on a single-call prank (at its depth, or deeper where it
/// replaces the origin) marks it used; once a call returns to the prank's depth with the
/// prank used, it is gone.
pub proof fn lemma_single_call_prank_used_by_first_call(p: Prank, first: CallContext, depth: u64)
    requires
        p.single_call,
        prank_applies(p, first),
        first.depth == p.depth || p.new_origin is Some,
    ensures
        prank_after_call(Some(p), first) == Some(Prank { used: true, ..p }),
        depth == p.depth ==> prank_after_call_end(prank_after_call(Some(p), first), depth) is None,
        observed_context(Some(p), first).origin == (match p.new_origin {
            Some(o) => o,
            None => first.origin,
        }),
{
}

/// With no prank armed, every call in any sequence sees its own context, and none arms
/// one.
pub proof fn lemma_no_prank_leaves_calls_alone(calls: Seq<CallContext>, depths: Seq<u64>)
    ensures
        forall|i: int| 0 <= i < calls.len() ==> observed_context(None, #[trigger] calls[i]) == calls[i],
        forall|i: int| 0 <= i < calls.len() ==> prank_after_call(None, #[trigger] calls[i]) is None,
        forall|i: int| 0 <= i < depths.len() ==> prank_after_call_end(None, #[trigger] depths[i]) is None,
{
}

/// Arming a prank while the current one is unused always fails, whatever is asked for.
pub proof fn lemma_unused_prank_blocks_arming(
    p: Prank,
    broadcast: Option<Broadcast>,
    ctx: CallContext,
    new_caller: Address,
    new_origin: Option<Address>,
    single_call: bool,
    delegate_call: bool,
)
    requires
        !p.used,
    ensures
        arm(Some(p), broadcast, ctx, new_caller, new_origin, single_call, delegate_call) == Err::<
            Prank,
            CheatError,
        >(CheatError::PrankNotApplied),
{
}

/// A prank never comes to stand beside an active broadcast.
pub proof fn lemma_no_prank_during_broadcast(
    prank: Option<Prank>,
    b: Broadcast,
    ctx: CallContext,
    new_caller: Address,
    new_origin: Option<Address>,
    single_call: bool,
    delegate_call: bool,
)
    ensures
        arm(prank, Some(b), ctx, new_caller, new_origin, single_call, delegate_call) is Err,
{
}

} // verus!
