use vstd::prelude::*;

verus! {

/// A 160-bit account address: the top 32 bits and the low 128 bits.
#[derive(Clone, Copy, Debug, PartialEq, Eq, Hash, Structural)]
pub struct Address {
    pub hi: u32,
    pub lo: u128,
}

impl Address {
    /// The address whose top 32 bits are `hi` and low 128 bits are `lo`.
    pub fn new(hi: u32, lo: u128) -> (r: Address)
        ensures
            r.hi == hi,
            r.lo == lo,
    {
        Address { hi, lo }
    }

    /// The address with value `lo`.
    pub fn from_low(lo: u128) -> (r: Address)
        ensures
            r.hi == 0,
            r.lo == lo,
    {
        Address { hi: 0, lo }
    }

    /// The zero address.
    pub fn zero() -> (r: Address)
        ensures
            r.hi == 0,
            r.lo == 0,
    {
        Address { hi: 0, lo: 0 }
    }
}

/// The reserved address that cheat calls are sent to.
pub open spec fn cheatcode_address_spec() -> Address {
    Address { hi: 0x7109709e, lo: 0xcfa91a80626ff3989d68f67f5b1dd12d }
}

/// The pseudo-address that console logging calls are sent to.
pub open spec fn console_address_spec() -> Address {
    Address { hi: 0, lo: 0x636f6e736f6c652e6c6f67 }
}

/// The reserved address that cheat calls are sent to.
pub fn cheatcode_address() -> (r: Address)
    ensures
        r == cheatcode_address_spec(),
{
    Address { hi: 0x7109709e, lo: 0xcfa91a80626ff3989d68f67f5b1dd12d }
}

/// The pseudo-address that console logging calls are sent to.
pub fn console_address() -> (r: Address)
    ensures
        r == console_address_spec(),
{
    Address { hi: 0, lo: 0x636f6e736f6c652e6c6f67 }
}

} // verus!
