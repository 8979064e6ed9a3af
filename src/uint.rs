use vstd::prelude::*;
use vstd::arithmetic::power2::{pow2, lemma_pow2_pos, lemma_pow2_strictly_increases, lemma_pow2_adds, lemma2_to64};
use vstd::bits::{lemma_u64_low_bits_mask_is_mod, lemma_u64_shl_is_mul, lemma_u64_pow2_no_overflow};
use crate::word::{U256, clamp_nat, min_nat, word_max, word_modulus, limb_base};
use crate::draw::{draw_below, draw_u128};
use proptest::test_runner::TestRunner;

verus! {

/// A shrink/grow search over unsigned values up to 256 bits.
///
/// `simplify` moves the current value toward `lo`, `complicate` back toward `hi`; each step
/// puts the current value at the midpoint of the remaining interval.
#[derive(Clone, Copy, Debug)]
pub struct UintValueTree {
    /// Lower end of the interval still searched.
    pub lo: U256,
    /// The value under test.
    pub curr: U256,
    /// Upper end of the interval still searched.
    pub hi: U256,
    /// A fixed tree holds one value and never moves.
    pub fixed: bool,
    /// Smallest value that `current` reports.
    pub min_bound: U256,
    /// Largest value that `current` reports.
    pub max_bound: U256,
}

/// The midpoint that a search step moves to.
pub open spec fn midpoint(lo: nat, hi: nat) -> nat {
    lo + ((hi - lo) as nat) / 2
}

impl UintValueTree {
    /// `lo <= curr <= hi`.
    pub open spec fn wf(&self) -> bool {
        self.lo.value() <= self.curr.value() <= self.hi.value()
    }

    /// What `current` reports.
    pub open spec fn current_value(&self) -> nat {
        clamp_nat(self.curr.value(), self.min_bound.value(), self.max_bound.value())
    }

    /// The state after `simplify` from `old`, with its answer `r`.
    pub open spec fn simplify_post(old: UintValueTree, new: UintValueTree, r: bool) -> bool {
        if old.fixed || old.hi.value() <= old.lo.value() {
            new == old && !r
        } else {
            &&& new.lo == old.lo
            &&& new.hi == old.curr
            &&& new.curr.value() == midpoint(old.lo.value(), old.curr.value())
            &&& new.fixed == old.fixed
            &&& new.min_bound == old.min_bound
            &&& new.max_bound == old.max_bound
            &&& r == (new.curr != old.curr)
        }
    }

    /// The state after `complicate` from `old`, with its answer `r`.
    ///
    /// Nothing moves once the current value has reached `hi`: there is nothing above it
    /// left to try.
    pub open spec fn complicate_post(old: UintValueTree, new: UintValueTree, r: bool) -> bool {
        if old.fixed || old.hi.value() <= old.lo.value() || old.curr.value() >= old.hi.value() {
            new == old && !r
        } else {
            &&& new.lo.value() == old.curr.value() + 1
            &&& new.hi == old.hi
            &&& new.curr.value() == midpoint(old.curr.value() + 1, old.hi.value())
            &&& new.fixed == old.fixed
            &&& new.min_bound == old.min_bound
            &&& new.max_bound == old.max_bound
            &&& r == (new.curr != old.curr)
        }
    }

    /// A tree whose search interval is `[0, start]`, starting at `start`.
    pub fn new(start: U256, fixed: bool, min_bound: U256, max_bound: U256) -> (r: UintValueTree)
        ensures
            r.lo.value() == 0,
            r.curr == start,
            r.hi == start,
            r.fixed == fixed,
            r.min_bound == min_bound,
            r.max_bound == max_bound,
            r.wf(),
    {
        UintValueTree { lo: U256::zero(), curr: start, hi: start, fixed, min_bound, max_bound }
    }

    fn reposition(&mut self) -> (r: bool)
        requires
            old(self).lo.value() <= old(self).hi.value(),
        ensures
            final(self).curr.value() == midpoint(old(self).lo.value(), old(self).hi.value()),
            final(self).lo == old(self).lo,
            final(self).hi == old(self).hi,
            final(self).fixed == old(self).fixed,
            final(self).min_bound == old(self).min_bound,
            final(self).max_bound == old(self).max_bound,
            r == (final(self).curr != old(self).curr),
    {
        let interval = self.hi.saturating_sub(&self.lo);
        let half = interval.div(&U256::from_u64(2));
        proof {
            self.hi.lemma_bounded();
        }
        let new_mid = self.lo.saturating_add(&half);
        if new_mid == self.curr {
            false
        } else {
            self.curr = new_mid;
            true
        }
    }

    /// The current value, pulled into `[min_bound, max_bound]`.
    pub fn current(&self) -> (r: U256)
        ensures
            r.value() == self.current_value(),
    {
        self.curr.clamp(&self.min_bound, &self.max_bound)
    }

    /// Narrows the search to `[lo, curr]` and moves to its midpoint; `false` when nothing
    /// moved.
    pub fn simplify(&mut self) -> (r: bool)
        requires
            old(self).wf(),
        ensures
            UintValueTree::simplify_post(*old(self), *final(self), r),
            final(self).wf(),
    {
        if self.fixed || self.hi.le(&self.lo) {
            return false;
        }
        self.hi = self.curr;
        self.reposition()
    }

    /// Narrows the search to `[curr + 1, hi]` and moves to its midpoint; `false` when
    /// nothing moved.
    pub fn complicate(&mut self) -> (r: bool)
        requires
            old(self).wf(),
        ensures
            UintValueTree::complicate_post(*old(self), *final(self), r),
            final(self).wf(),
    {
        if self.fixed || self.hi.le(&self.lo) || !self.curr.lt(&self.hi) {
            return false;
        }
        proof {
            self.hi.lemma_bounded();
        }
        self.lo = self.curr.saturating_add(&U256::from_u64(1));
        self.reposition()
    }
}

/// A value that a test declares for its parameters, as far as this strategy reads it.
#[derive(Clone, Copy, Debug)]
pub enum Fixture {
    /// An unsigned integer of the given bit width.
    Uint { value: U256, bits: usize },
    /// Any value of another type.
    Other,
}

/// Strategy for unsigned integers up to 256 bits, mixing three ways to pick a start value:
/// near an edge of the bounds, from the declared fixtures, or at random over the bit width.
#[derive(Clone, Debug)]
pub struct UintStrategy {
    /// Bit width of the integer type.
    pub bits: usize,
    /// Values declared by the test.
    pub fixtures: Vec<Fixture>,
    /// Weight of starts near the bounds.
    pub edge_weight: usize,
    /// Weight of starts taken from the fixtures.
    pub fixtures_weight: usize,
    /// Weight of uniformly random starts.
    pub random_weight: usize,
    /// Smallest value generated.
    pub min_bound: U256,
    /// Largest value generated.
    pub max_bound: U256,
    /// Sample large ranges on a logarithmic scale.
    pub use_log_sampling: bool,
}

/// The random numbers that one start value may need.
#[derive(Clone, Copy, Debug)]
pub struct UintDraw {
    /// Picks the kind of start, below the sum of the weights.
    pub bias: u64,
    /// Near the lower bound, else near the upper one.
    pub is_min: bool,
    /// Distance from the bound, below 4.
    pub offset: u64,
    /// Picks a fixture.
    pub fixture_index: u64,
    /// Number of random bits kept, at most the strategy's width.
    pub width: usize,
    /// High 128 random bits.
    pub higher: u128,
    /// Low 128 random bits.
    pub lower: u128,
    /// Exponent of a log-scale sample, at most 256.
    pub exponent: usize,
    /// Mantissa of a log-scale sample.
    pub mantissa: u64,
    /// Spread added when a log-scale sample falls on the lower bound.
    pub extra: u64,
}

/// The largest value of an unsigned type of `bits` bits.
pub open spec fn type_max_of(bits: nat) -> nat {
    if bits < 256 { (pow2(bits) - 1) as nat } else { word_max() }
}

/// The low `n` bits of `x` (none for `n <= 0`, all for `n >= 64`).
pub open spec fn keep_low(x: u64, n: int) -> u64 {
    if n <= 0 { 0 } else if n >= 64 { x } else { (x as nat % pow2(n as nat)) as u64 }
}

/// The word made of the low `width` bits of `higher * 2^128 + lower`.
pub open spec fn uniform_word(width: int, higher: u128, lower: u128) -> U256 {
    U256 {
        l0: keep_low(lower as u64, width),
        l1: keep_low((lower >> 64u128) as u64, width - 64),
        l2: keep_low(higher as u64, width - 128),
        l3: keep_low((higher >> 64u128) as u64, width - 192),
    }
}

pub proof fn lemma_modulus_is_pow2()
    ensures
        word_modulus() == pow2(256),
        limb_base() == pow2(64),
{
    lemma2_to64();
    lemma_pow2_adds(64, 64);
    lemma_pow2_adds(128, 64);
    lemma_pow2_adds(192, 64);
}

fn keep_low_bits(x: u64, n: usize) -> (r: u64)
    ensures
        r == keep_low(x, n as int),
{
    if n == 0 {
        0
    } else if n >= 64 {
        x
    } else {
        proof {
            lemma_u64_pow2_no_overflow(n as nat);
            lemma_u64_shl_is_mul(1, n as u64);
            lemma_u64_low_bits_mask_is_mod(x, n as nat);
        }
        let m: u64 = (1u64 << (n as u64)) - 1;
        x & m
    }
}

impl UintStrategy {
    /// Weights that can be summed and drawn below.
    pub open spec fn wf(&self) -> bool {
        &&& 0 < self.edge_weight + self.fixtures_weight + self.random_weight <= u64::MAX
    }

    /// The largest value of this strategy's type.
    pub open spec fn type_max_value(&self) -> nat {
        type_max_of(self.bits as nat)
    }

    /// Whether the fixture picked by `index` is an integer of this strategy's width.
    pub open spec fn fixture_fits(&self, index: u64) -> bool {
        self.fixtures.len() > 0 && match self.fixtures@[index as int % self.fixtures.len() as int] {
            Fixture::Uint { value, bits } => bits == self.bits,
            Fixture::Other => false,
        }
    }

    /// The start taken from the fixture picked by `index`, where it fits.
    pub open spec fn fixture_start(&self, index: u64) -> nat {
        match self.fixtures@[index as int % self.fixtures.len() as int] {
            Fixture::Uint { value, bits } => clamp_nat(
                value.value(),
                self.min_bound.value(),
                self.max_bound.value(),
            ),
            Fixture::Other => 0,
        }
    }

    /// The start near an edge: `offset` above the lower bound or below the upper one.
    pub open spec fn edge_start(&self, is_min: bool, offset: u64) -> nat {
        if is_min {
            min_nat(self.min_bound.value() + offset as nat, word_max())
        } else if self.max_bound.value() >= offset {
            (self.max_bound.value() - offset) as nat
        } else {
            0
        }
    }

    /// The random start that `d` gives: log-scale or uniform, as configured.
    pub open spec fn random_start(&self, d: UintDraw) -> nat {
        if self.use_log_sampling {
            self.log_value(d.exponent, d.mantissa, d.extra)
        } else {
            self.uniform_start_of(uniform_word(d.width as int, d.higher, d.lower).value())
        }
    }

    /// The log-scale value for `exponent`, `mantissa` and `extra`.
    pub open spec fn log_value(&self, exponent: usize, mantissa: u64, extra: u64) -> nat {
        let lo = self.min_bound.value();
        let hi = self.max_bound.value();
        let candidate = (((mantissa | 1u64) as nat) * pow2(exponent as nat)) % word_modulus();
        let v = clamp_nat(candidate, lo, hi);
        if hi <= lo {
            lo
        } else if v <= lo {
            lo + (extra as nat) % ((hi - lo) as nat)
        } else {
            v
        }
    }

    /// The uniform start for the random word `u`: `u` reduced into `[min_bound, max_bound]`.
    pub open spec fn uniform_start_of(&self, u: nat) -> nat {
        let lo = self.min_bound.value();
        let hi = self.max_bound.value();
        if hi > lo {
            lo + u % ((hi - lo) as nat + 1)
        } else {
            lo
        }
    }

    /// A strategy for `bits`-bit values; the bounds default to the type's range.
    pub fn new(
        bits: usize,
        fixtures: Option<Vec<Fixture>>,
        min_bound: Option<U256>,
        max_bound: Option<U256>,
        use_log_sampling: bool,
    ) -> (r: UintStrategy)
        ensures
            r.bits == bits,
            r.fixtures@ == match fixtures {
                Some(f) => f@,
                None => Seq::<Fixture>::empty(),
            },
            r.edge_weight == 10,
            r.fixtures_weight == 40,
            r.random_weight == 50,
            r.min_bound.value() == match min_bound {
                Some(m) => m.value(),
                None => 0,
            },
            r.max_bound.value() == match max_bound {
                Some(m) => m.value(),
                None => type_max_of(bits as nat),
            },
            r.use_log_sampling == use_log_sampling,
            r.wf(),
    {
        let type_max = type_max_for(bits);
        let min = match min_bound {
            Some(m) => m,
            None => U256::zero(),
        };
        let max = match max_bound {
            Some(m) => m,
            None => type_max,
        };
        let fixtures = match fixtures {
            Some(f) => f,
            None => Vec::new(),
        };
        UintStrategy {
            bits,
            fixtures,
            edge_weight: 10,
            fixtures_weight: 40,
            random_weight: 50,
            min_bound: min,
            max_bound: max,
            use_log_sampling,
        }
    }

    /// The largest value of this strategy's type.
    pub fn type_max(&self) -> (r: U256)
        ensures
            r.value() == self.type_max_value(),
    {
        type_max_for(self.bits)
    }

    /// A tree starting `offset` above the lower bound or below the upper one.
    pub fn generate_edge_tree(&self, is_min: bool, offset: u64) -> (r: UintValueTree)
        ensures
            r.curr.value() == self.edge_start(is_min, offset),
            r.hi == r.curr,
            r.lo.value() == 0,
            !r.fixed,
            r.min_bound == self.min_bound,
            r.max_bound == self.max_bound,
    {
        let off = U256::from_u64(offset);
        let start = if is_min {
            self.min_bound.saturating_add(&off)
        } else {
            self.max_bound.saturating_sub(&off)
        };
        UintValueTree::new(start, false, self.min_bound, self.max_bound)
    }

    /// A tree starting at the fixture picked by `index`, pulled into the bounds; `None`
    /// where there is no fixture or it is not an integer of this width.
    fn fixture_tree(&self, index: u64) -> (r: Option<UintValueTree>)
        ensures
            r.is_some() == self.fixture_fits(index),
            r matches Some(t) ==> {
                &&& t.curr.value() == self.fixture_start(index)
                &&& t.hi == t.curr
                &&& t.lo.value() == 0
                &&& !t.fixed
                &&& t.min_bound == self.min_bound
                &&& t.max_bound == self.max_bound
            },
    {
        let n = self.fixtures.len();
        if n == 0 {
            return None;
        }
        let i = (index % (n as u64)) as usize;
        match self.fixtures[i] {
            Fixture::Uint { value, bits } => {
                if bits == self.bits {
                    let start = value.clamp(&self.min_bound, &self.max_bound);
                    Some(UintValueTree::new(start, false, self.min_bound, self.max_bound))
                } else {
                    None
                }
            },
            Fixture::Other => None,
        }
    }

    /// The low `width` bits of `higher * 2^128 + lower`.
    pub fn generate_random_values_uniformly(width: usize, higher: u128, lower: u128) -> (r: U256)
        ensures
            r == uniform_word(width as int, higher, lower),
    {
        let w: usize = if width > 256 { 256 } else { width };
        let l0 = keep_low_bits(#[verifier::truncate] (lower as u64), w);
        let l1 = keep_low_bits(#[verifier::truncate] ((lower >> 64u128) as u64), if w >= 64 { w - 64 } else { 0 });
        let l2 = keep_low_bits(#[verifier::truncate] (higher as u64), if w >= 128 { w - 128 } else { 0 });
        let l3 = keep_low_bits(#[verifier::truncate] ((higher >> 64u128) as u64), if w >= 192 { w - 192 } else { 0 });
        U256 { l0, l1, l2, l3 }
    }

    /// `u` reduced into `[min_bound, max_bound]`.
    pub fn uniform_start(&self, u: &U256) -> (r: U256)
        ensures
            r.value() == self.uniform_start_of(u.value()),
            self.min_bound.value() <= self.max_bound.value() ==> self.min_bound.value() <= r.value()
                <= self.max_bound.value(),
    {
        proof {
            self.max_bound.lemma_bounded();
            u.lemma_bounded();
        }
        if self.min_bound.lt(&self.max_bound) {
            let diff = self.max_bound.saturating_sub(&self.min_bound);
            if diff.lt(&U256::max_value()) {
                let range = diff.saturating_add(&U256::from_u64(1));
                let offset = u.rem(&range);
                self.min_bound.saturating_add(&offset)
            } else {
                // the bounds span every word, so `u` is already among them
                proof {
                    assert(u.value() % (word_max() + 1) == u.value()) by (nonlinear_arith)
                        requires
                            u.value() <= word_max(),
                    ;
                }
                *u
            }
        } else {
            self.min_bound
        }
    }

    /// A value on a logarithmic scale, `(mantissa | 1) * 2^exponent` reduced to 256 bits
    /// (the mantissa shifted up with the exponent's own bit set), pulled into the bounds;
    /// where it lands on the lower bound, `extra` spreads it over the range.
    pub fn generate_log_uniform(&self, exponent: usize, mantissa: u64, extra: u64) -> (r: U256)
        ensures
            r.value() == self.log_value(exponent, mantissa, extra),
            self.max_bound.value() <= self.min_bound.value() ==> r == self.min_bound,
            self.max_bound.value() > self.min_bound.value() ==> self.min_bound.value() <= r.value()
                <= self.max_bound.value(),
    {
        if self.max_bound.le(&self.min_bound) {
            return self.min_bound;
        }
        let candidate = U256::from_u64(mantissa | 1).shl(exponent);
        let value = candidate.clamp(&self.min_bound, &self.max_bound);
        if value.le(&self.min_bound) {
            let range = self.max_bound.saturating_sub(&self.min_bound);
            let spread = U256::from_u64(extra).rem(&range);
            proof {
                self.max_bound.lemma_bounded();
            }
            self.min_bound.saturating_add(&spread)
        } else {
            value
        }
    }

    /// A tree starting at the fixture that `d` picks, pulled into the bounds; where there
    /// is no fixture or it is not an integer of this width, a tree at a random start.
    pub fn generate_fixtures_tree(&self, d: &UintDraw) -> (r: UintValueTree)
        ensures
            self.fixture_fits(d.fixture_index) ==> r.curr.value() == self.fixture_start(d.fixture_index),
            !self.fixture_fits(d.fixture_index) ==> r.curr.value() == self.random_start(*d),
            self.min_bound.value() <= self.max_bound.value() ==> self.min_bound.value()
                <= r.curr.value() <= self.max_bound.value(),
            r.hi == r.curr,
            r.lo.value() == 0,
            !r.fixed,
            r.min_bound == self.min_bound,
            r.max_bound == self.max_bound,
    {
        match self.fixture_tree(d.fixture_index) {
            Some(t) => t,
            None => self.generate_random_tree(d),
        }
    }

    /// A tree at a random start: log-scale or uniform, as configured.
    pub fn generate_random_tree(&self, d: &UintDraw) -> (r: UintValueTree)
        ensures
            !self.use_log_sampling ==> r.curr.value() == self.uniform_start_of(
                uniform_word(d.width as int, d.higher, d.lower).value(),
            ),
            self.use_log_sampling ==> r.curr.value() == self.log_value(d.exponent, d.mantissa, d.extra),
            self.min_bound.value() <= self.max_bound.value() ==> self.min_bound.value()
                <= r.curr.value() <= self.max_bound.value(),
            r.hi == r.curr,
            r.lo.value() == 0,
            !r.fixed,
            r.min_bound == self.min_bound,
            r.max_bound == self.max_bound,
    {
        let start = if self.use_log_sampling {
            self.generate_log_uniform(d.exponent, d.mantissa, d.extra)
        } else {
            let u = UintStrategy::generate_random_values_uniformly(d.width, d.higher, d.lower);
            self.uniform_start(&u)
        };
        UintValueTree::new(start, false, self.min_bound, self.max_bound)
    }

    /// The tree for one set of random numbers: an edge start where `bias` falls below the
    /// edge weight, a fixture where it falls below the next weight and the fixture fits,
    /// else a random start.
    pub fn tree_for_draw(&self, d: &UintDraw) -> (r: UintValueTree)
        ensures
            (d.bias as nat) < self.edge_weight ==> r.curr.value() == self.edge_start(
                d.is_min,
                d.offset,
            ),
            self.edge_weight <= (d.bias as nat) < self.edge_weight + self.fixtures_weight
                && self.fixture_fits(d.fixture_index) ==> r.curr.value() == self.fixture_start(
                d.fixture_index,
            ),
            ((d.bias as nat) >= self.edge_weight + self.fixtures_weight || ((d.bias as nat)
                >= self.edge_weight && !self.fixture_fits(d.fixture_index)))
                && !self.use_log_sampling ==> r.curr.value() == self.uniform_start_of(
                uniform_word(d.width as int, d.higher, d.lower).value(),
            ),
            ((d.bias as nat) >= self.edge_weight + self.fixtures_weight || ((d.bias as nat)
                >= self.edge_weight && !self.fixture_fits(d.fixture_index)))
                && self.use_log_sampling ==> r.curr.value() == self.log_value(
                d.exponent,
                d.mantissa,
                d.extra,
            ),
            r.hi == r.curr,
            r.lo.value() == 0,
            !r.fixed,
            r.min_bound == self.min_bound,
            r.max_bound == self.max_bound,
            r.wf(),
    {
        let bias = d.bias as u128;
        if bias < self.edge_weight as u128 {
            self.generate_edge_tree(d.is_min, d.offset)
        } else if bias < self.edge_weight as u128 + self.fixtures_weight as u128 {
            self.generate_fixtures_tree(d)
        } else {
            self.generate_random_tree(d)
        }
    }

    /// Draws the random numbers for one start from `runner` and builds its tree.
    pub fn new_tree(&self, runner: &mut TestRunner) -> (r: UintValueTree)
        requires
            self.wf(),
        ensures
            self.min_bound.value() <= self.max_bound.value() ==> self.min_bound.value()
                <= r.current_value() <= self.max_bound.value(),
            r.wf(),
            !r.fixed,
            r.lo.value() == 0,
            r.hi == r.curr,
            r.min_bound == self.min_bound,
            r.max_bound == self.max_bound,
    {
        let total = (self.edge_weight as u128 + self.fixtures_weight as u128 + self.random_weight as u128) as u64;
        let bias = draw_below(runner, total);
        let is_min = draw_below(runner, 2) == 0;
        let offset = draw_below(runner, 4);
        let fixture_index = #[verifier::truncate] (draw_u128(runner) as u64);
        let width = draw_below(runner, (if self.bits > 256 { 256 } else { self.bits }) as u64 + 1) as usize;
        let higher = draw_u128(runner);
        let lower = draw_u128(runner);
        let exponent = draw_below(runner, 257) as usize;
        let mantissa = #[verifier::truncate] (draw_u128(runner) as u64);
        let extra = #[verifier::truncate] (draw_u128(runner) as u64);
        let d = UintDraw {
            bias,
            is_min,
            offset,
            fixture_index,
            width,
            higher,
            lower,
            exponent,
            mantissa,
            extra,
        };
        self.tree_for_draw(&d)
    }
}

/// The largest value of a `bits`-bit unsigned type.
fn type_max_for(bits: usize) -> (r: U256)
    ensures
        r.value() == type_max_of(bits as nat),
{
    if bits < 256 {
        proof {
            lemma_modulus_is_pow2();
            lemma_pow2_strictly_increases(bits as nat, 256);
            lemma_pow2_pos(bits as nat);
            assert(1 * pow2(bits as nat) == pow2(bits as nat));
            assert(pow2(bits as nat) % word_modulus() == pow2(bits as nat)) by (nonlinear_arith)
                requires
                    pow2(bits as nat) < word_modulus(),
            ;
        }
        let p = U256::from_u64(1).shl(bits);
        p.saturating_sub(&U256::from_u64(1))
    } else {
        U256::max_value()
    }
}

/// A simplify step keeps `lo <= curr <= hi` and never raises `hi`.
pub proof fn lemma_simplify_step(t0: UintValueTree, t1: UintValueTree, r: bool)
    requires
        t0.wf(),
        UintValueTree::simplify_post(t0, t1, r),
    ensures
        t1.wf(),
        t1.hi.value() <= t0.hi.value(),
        t0.lo.value() <= t1.lo.value(),
{
}

/// A complicate step keeps `lo <= curr <= hi` and never lowers `lo` or raises `hi`.
pub proof fn lemma_complicate_step(t0: UintValueTree, t1: UintValueTree, r: bool)
    requires
        t0.wf(),
        UintValueTree::complicate_post(t0, t1, r),
    ensures
        t1.wf(),
        t1.hi.value() <= t0.hi.value(),
        t0.lo.value() <= t1.lo.value(),
{
}

/// Starting from a tree with `lo <= curr <= hi`, a simplify followed by a complicate leaves
/// the current value inside the starting `[lo, hi]`, and what the tree reports inside
/// `[min_bound, max_bound]`.
pub proof fn lemma_search_stays_in_bounds(
    t0: UintValueTree,
    t1: UintValueTree,
    t2: UintValueTree,
    r1: bool,
    r2: bool,
)
    requires
        t0.wf(),
        UintValueTree::simplify_post(t0, t1, r1),
        UintValueTree::complicate_post(t1, t2, r2),
    ensures
        t0.lo.value() <= t2.curr.value() <= t0.hi.value(),
        t0.lo.value() <= t1.curr.value() <= t0.hi.value(),
        t2.wf(),
        t2.min_bound == t0.min_bound,
        t2.max_bound == t0.max_bound,
        t0.min_bound.value() <= t0.max_bound.value() ==> t0.min_bound.value()
            <= t2.current_value() <= t0.max_bound.value(),
        t0.min_bound.value() <= t0.max_bound.value() ==> t0.min_bound.value()
            <= t1.current_value() <= t0.max_bound.value(),
{
    lemma_simplify_step(t0, t1, r1);
    lemma_complicate_step(t1, t2, r2);
}

/// Along any run of simplify steps, `hi` never rises.
pub proof fn lemma_repeated_simplify_lowers_hi(trees: Seq<UintValueTree>, answers: Seq<bool>, i: int, j: int)
    requires
        trees.len() == answers.len() + 1,
        trees[0].wf(),
        forall|k: int| 0 <= k < answers.len() ==> UintValueTree::simplify_post(#[trigger] trees[k], trees[k + 1], answers[k]),
        0 <= i <= j < trees.len(),
    ensures
        trees[j].hi.value() <= trees[i].hi.value(),
        trees[j].wf(),
    decreases j,
{
    if j > 0 {
        let i2 = if i < j { i } else { j - 1 };
        lemma_repeated_simplify_lowers_hi(trees, answers, i2, j - 1);
        lemma_simplify_step(trees[j - 1], trees[j], answers[j - 1]);
    }
}

/// Along any run of simplify and complicate steps, a fixed tree stays as it was: it
/// reports the same value throughout, and no step makes progress.
pub proof fn lemma_fixed_tree_runs(trees: Seq<UintValueTree>, simplifies: Seq<bool>, answers: Seq<bool>, i: int)
    requires
        trees.len() == answers.len() + 1,
        simplifies.len() == answers.len(),
        trees[0].fixed,
        forall|k: int| 0 <= k < answers.len() ==> (if simplifies[k] {
            UintValueTree::simplify_post(#[trigger] trees[k], trees[k + 1], answers[k])
        } else {
            UintValueTree::complicate_post(trees[k], trees[k + 1], answers[k])
        }),
        0 <= i < trees.len(),
    ensures
        trees[i] == trees[0],
        trees[i].current_value() == trees[0].current_value(),
        i < answers.len() ==> !answers[i],
    decreases i,
{
    if i > 0 {
        lemma_fixed_tree_runs(trees, simplifies, answers, i - 1);
        assert(trees[(i - 1) + 1] == trees[i]);
    }
    if i < answers.len() {
        if i > 0 {
            lemma_fixed_tree_runs(trees, simplifies, answers, i - 1);
        }
        assert(trees[i].fixed);
    }
}

/// A fixed tree reports the same value before and after simplify and complicate, and both
/// answer that nothing moved.
pub proof fn lemma_fixed_tree_never_moves(
    t: UintValueTree,
    s: UintValueTree,
    rs: bool,
    c: UintValueTree,
    rc: bool,
)
    requires
        t.fixed,
        UintValueTree::simplify_post(t, s, rs),
        UintValueTree::complicate_post(t, c, rc),
    ensures
        !rs,
        !rc,
        s == t,
        c == t,
        s.current_value() == t.current_value(),
        c.current_value() == t.current_value(),
{
}

} // verus!
