//! Access policy of a device type: how many slots one kernel device
//! yields.

use vstd::prelude::*;

verus! {

/// Rules for how many consumers can claim a single device at a time.
#[derive(Clone, Copy, Debug, PartialEq, Eq, Structural)]
pub enum DeviceAccess {
    /// Exclusive access: one slot per device.
    Exclusive,
    /// Shared access with an upper bound of consumers per device.
    AtMost(u8),
}

impl DeviceAccess {
    /// A bounded policy always carries a positive bound.
    pub open spec fn wf(self) -> bool {
        match self {
            DeviceAccess::Exclusive => true,
            DeviceAccess::AtMost(n) => 1 <= n,
        }
    }

    /// The number of slots one matching device yields.
    pub open spec fn spec_count(self) -> nat {
        match self {
            DeviceAccess::Exclusive => 1,
            DeviceAccess::AtMost(n) => n as nat,
        }
    }

    /// The number of slots one matching device yields.
    pub fn count(&self) -> (r: u8)
        requires
            self.wf(),
        ensures
            r as nat == self.spec_count(),
            r >= 1,
    {
        match self {
            DeviceAccess::Exclusive => 1,
            DeviceAccess::AtMost(n) => *n,
        }
    }
}

impl Default for DeviceAccess {
    /// The default policy is exclusive access.
    fn default() -> (r: Self)
        ensures
            r == DeviceAccess::Exclusive,
    {
        DeviceAccess::Exclusive
    }
}

} // verus!
