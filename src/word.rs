use vstd::prelude::*;

verus! {

/// The radix of one limb.
pub open spec fn limb_base() -> nat {
    0x1_0000_0000_0000_0000
}

/// One more than the largest 256-bit value.
pub open spec fn word_modulus() -> nat {
    limb_base() * limb_base() * limb_base() * limb_base()
}

/// The largest 256-bit value.
pub open spec fn word_max() -> nat {
    (word_modulus() - 1) as nat
}

/// An unsigned 256-bit integer, held as four little-endian 64-bit limbs.
#[derive(Clone, Copy, Debug, PartialEq, Eq, Hash, Structural)]
pub struct U256 {
    pub l0: u64,
    pub l1: u64,
    pub l2: u64,
    pub l3: u64,
}

pub open spec fn min_nat(a: nat, b: nat) -> nat {
    if a <= b { a } else { b }
}

/// `v` pulled into `[lo, hi]`: `lo` below it, `hi` above it.
pub open spec fn clamp_nat(v: nat, lo: nat, hi: nat) -> nat {
    if v < lo { lo } else if v > hi { hi } else { v }
}

impl U256 {
    /// The number this word stands for.
    pub open spec fn value(self) -> nat {
        self.l0 as nat + self.l1 as nat * limb_base() + self.l2 as nat * (limb_base()
            * limb_base()) + self.l3 as nat * (limb_base() * limb_base() * limb_base())
    }

    pub proof fn lemma_bounded(self)
        ensures
            self.value() <= word_max(),
    {
        let b = limb_base();
        assert(self.l1 as nat * b <= (b - 1) * b) by (nonlinear_arith)
            requires
                self.l1 as nat <= b - 1,
        ;
        assert(self.l2 as nat * (b * b) <= (b - 1) * (b * b)) by (nonlinear_arith)
            requires
                self.l2 as nat <= b - 1,
        ;
        assert(self.l3 as nat * (b * b * b) <= (b - 1) * (b * b * b)) by (nonlinear_arith)
            requires
                self.l3 as nat <= b - 1,
        ;
    }

    /// The word zero.
    pub open spec fn zero_spec() -> U256 {
        U256 { l0: 0, l1: 0, l2: 0, l3: 0 }
    }

    /// The largest word.
    pub open spec fn max_spec() -> U256 {
        U256 {
            l0: 0xffff_ffff_ffff_ffff,
            l1: 0xffff_ffff_ffff_ffff,
            l2: 0xffff_ffff_ffff_ffff,
            l3: 0xffff_ffff_ffff_ffff,
        }
    }

    pub fn from_u64(x: u64) -> (r: U256)
        ensures
            r.value() == x as nat,
    {
        U256 { l0: x, l1: 0, l2: 0, l3: 0 }
    }

    pub fn zero() -> (r: U256)
        ensures
            r.value() == 0,
            r == U256::zero_spec(),
    {
        U256 { l0: 0, l1: 0, l2: 0, l3: 0 }
    }

    pub fn max_value() -> (r: U256)
        ensures
            r.value() == word_max(),
            r == U256::max_spec(),
    {
        U256 {
            l0: 0xffff_ffff_ffff_ffff,
            l1: 0xffff_ffff_ffff_ffff,
            l2: 0xffff_ffff_ffff_ffff,
            l3: 0xffff_ffff_ffff_ffff,
        }
    }

    /// Relies on ruint's `PartialOrd` for `Uint`: numeric order.
    #[verifier::external_body]
    pub(crate) fn lt(&self, o: &U256) -> (r: bool)
        ensures
            r == (self.value() < o.value()),
    {
        alloy_primitives::U256::from_limbs([self.l0, self.l1, self.l2, self.l3])
            < alloy_primitives::U256::from_limbs([o.l0, o.l1, o.l2, o.l3])
    }

    pub fn le(&self, o: &U256) -> (r: bool)
        ensures
            r == (self.value() <= o.value()),
    {
        !o.lt(self)
    }

    /// Relies on ruint's `Uint::saturating_add`: the sum, or the largest value on overflow.
    #[verifier::external_body]
    pub(crate) fn saturating_add(&self, o: &U256) -> (r: U256)
        ensures
            r.value() == min_nat(self.value() + o.value(), word_max()),
    {
        let s = alloy_primitives::U256::from_limbs([self.l0, self.l1, self.l2, self.l3])
            .saturating_add(alloy_primitives::U256::from_limbs([o.l0, o.l1, o.l2, o.l3]));
        let l = s.into_limbs();
        U256 { l0: l[0], l1: l[1], l2: l[2], l3: l[3] }
    }

    /// Relies on ruint's `Uint::saturating_sub`: the difference, or zero on underflow.
    #[verifier::external_body]
    pub(crate) fn saturating_sub(&self, o: &U256) -> (r: U256)
        ensures
            r.value() == if self.value() >= o.value() {
                (self.value() - o.value()) as nat
            } else {
                0
            },
    {
        let s = alloy_primitives::U256::from_limbs([self.l0, self.l1, self.l2, self.l3])
            .saturating_sub(alloy_primitives::U256::from_limbs([o.l0, o.l1, o.l2, o.l3]));
        let l = s.into_limbs();
        U256 { l0: l[0], l1: l[1], l2: l[2], l3: l[3] }
    }

    /// Relies on ruint's `Uint::wrapping_div`: the quotient rounded down; it panics on zero.
    #[verifier::external_body]
    pub(crate) fn div(&self, o: &U256) -> (r: U256)
        requires
            o.value() > 0,
        ensures
            r.value() == self.value() / o.value(),
    {
        let s = alloy_primitives::U256::from_limbs([self.l0, self.l1, self.l2, self.l3])
            .wrapping_div(alloy_primitives::U256::from_limbs([o.l0, o.l1, o.l2, o.l3]));
        let l = s.into_limbs();
        U256 { l0: l[0], l1: l[1], l2: l[2], l3: l[3] }
    }

    /// Relies on ruint's `Uint::wrapping_rem`: the remainder; it panics on zero.
    #[verifier::external_body]
    pub(crate) fn rem(&self, o: &U256) -> (r: U256)
        requires
            o.value() > 0,
        ensures
            r.value() == self.value() % o.value(),
    {
        let s = alloy_primitives::U256::from_limbs([self.l0, self.l1, self.l2, self.l3])
            .wrapping_rem(alloy_primitives::U256::from_limbs([o.l0, o.l1, o.l2, o.l3]));
        let l = s.into_limbs();
        U256 { l0: l[0], l1: l[1], l2: l[2], l3: l[3] }
    }

    /// Relies on ruint's `Uint::wrapping_shl`: `value * 2^n` reduced modulo `2^256`.
    #[verifier::external_body]
    pub(crate) fn shl(&self, n: usize) -> (r: U256)
        ensures
            r.value() == (self.value() * vstd::arithmetic::power2::pow2(n as nat)) % word_modulus(),
    {
        let s = alloy_primitives::U256::from_limbs([self.l0, self.l1, self.l2, self.l3])
            .wrapping_shl(n);
        let l = s.into_limbs();
        U256 { l0: l[0], l1: l[1], l2: l[2], l3: l[3] }
    }

    /// This value pulled into `[lo, hi]`; `lo` wins where the bounds cross.
    pub fn clamp(&self, lo: &U256, hi: &U256) -> (r: U256)
        ensures
            r.value() == clamp_nat(self.value(), lo.value(), hi.value()),
    {
        if self.lt(lo) {
            *lo
        } else if hi.lt(self) {
            *hi
        } else {
            *self
        }
    }
}

} // verus!
