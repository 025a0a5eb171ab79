use vstd::prelude::*;

verus! {

/// A 256-bit identity: the name of a plot, an owner, a mint or a treasury.
///
/// Two addresses are the same identity exactly when both halves agree.
#[derive(Clone, Copy, Debug, PartialEq, Eq, Hash, Structural)]
pub struct Address {
    pub hi: u128,
    pub lo: u128,
}

impl Address {
    /// The address whose bits are all zero; it stands for "nobody".
    pub open spec fn zero() -> Address {
        Address { hi: 0, lo: 0 }
    }

    pub fn new(hi: u128, lo: u128) -> (a: Address)
        ensures
            a == (Address { hi, lo }),
    {
        Address { hi, lo }
    }
}

impl Default for Address {
    fn default() -> (a: Address)
        ensures
            a == Address::zero(),
    {
        Address { hi: 0, lo: 0 }
    }
}

} // verus!
