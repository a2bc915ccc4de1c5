//! The errors of the copying interface.
//!
//! "Nothing to transfer right now" is no error: it is a transfer of zero bytes.
//! An error reports that the ring was seen in a state no correct use produces.
use vstd::prelude::*;

verus! {

/// A system-call style error code.
#[derive(Clone, Copy, Debug, PartialEq, Eq, Structural)]
pub enum SysErr {
    /// Invalid argument.
    EINVAL,
}

impl SysErr {
    /// The POSIX number of the code.
    pub open spec fn number(self) -> int {
        match self {
            SysErr::EINVAL => 22,
        }
    }

    /// The POSIX number of the code.
    pub fn code(&self) -> (n: i32)
        ensures
            n == self.number(),
    {
        match self {
            SysErr::EINVAL => 22,
        }
    }
}

/// Why a copying transfer failed.
#[derive(Clone, Copy, Debug, PartialEq, Eq, Structural)]
pub enum Error {
    /// A failure reported in the shape of a system error code.
    SysError(SysErr),
}

} // verus!
