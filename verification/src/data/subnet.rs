//! Wire-nets and the values they carry.

use vstd::prelude::*;

verus! {

/// The electrical value of a wire-net.
#[derive(Debug, Clone, Copy, PartialEq, Eq, Structural)]
pub enum SubnetState {
    /// Nothing drives the net.
    Floating,
    /// Logic low.
    Off,
    /// Logic high.
    On,
    /// The net is driven inconsistently.
    Error,
}

impl SubnetState {
    /// Coercion to a boolean: only `On` counts as true.
    pub open spec fn spec_truthy(self) -> bool {
        self == SubnetState::On
    }

    /// The complement of [`Self::spec_truthy`].
    pub open spec fn spec_falsy(self) -> bool {
        !self.spec_truthy()
    }

    /// The value that stands for a retained bit.
    pub open spec fn of(bit: bool) -> SubnetState {
        if bit {
            SubnetState::On
        } else {
            SubnetState::Off
        }
    }

    /// Whether the value counts as true.
    #[verifier::when_used_as_spec(spec_truthy)]
    pub fn truthy(self) -> (b: bool)
        ensures
            b == self.spec_truthy(),
    {
        self == SubnetState::On
    }

    /// Whether the value counts as false.
    #[verifier::when_used_as_spec(spec_falsy)]
    pub fn falsy(self) -> (b: bool)
        ensures
            b == self.spec_falsy(),
    {
        !self.truthy()
    }

    /// `On` for a set bit, `Off` for a cleared one.
    pub fn from_bit(bit: bool) -> (s: SubnetState)
        ensures
            s == SubnetState::of(bit),
    {
        if bit {
            SubnetState::On
        } else {
            SubnetState::Off
        }
    }
}

/// A wire-net: it aggregates what drives it into one value.
#[derive(Debug, Clone, Copy, PartialEq, Eq, Structural)]
pub struct Subnet {
    val: SubnetState,
}

impl View for Subnet {
    type V = SubnetState;

    closed spec fn view(&self) -> SubnetState {
        self.val
    }
}

impl Subnet {
    /// A net that nothing drives yet.
    pub fn new() -> (s: Subnet)
        ensures
            s@ == SubnetState::Floating,
    {
        Subnet { val: SubnetState::Floating }
    }

    /// The value the net carries.
    pub fn val(&self) -> (v: SubnetState)
        ensures
            v == self@,
    {
        self.val
    }

    /// Sets the value of the net and says whether it changed.
    pub fn update(&mut self, val: SubnetState) -> (changed: bool)
        ensures
            final(self)@ == val,
            changed == (old(self)@ != val),
    {
        let changed = self.val != val;
        self.val = val;
        changed
    }
}

} // verus!
