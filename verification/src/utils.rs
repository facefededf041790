//! Descriptor handles as the engine accounts for them.

use vstd::prelude::*;

verus! {

/// A descriptor received from, or staged for, the transport. The engine
/// only moves it between queues and messages; it never looks inside.
#[derive(Debug, PartialEq, Eq)]
pub struct RawFdContainer {
    pub fd: i32,
}

impl RawFdContainer {
    /// Takes charge of the descriptor numbered `fd`.
    pub fn new(fd: i32) -> (r: Self)
        ensures
            r.fd == fd,
    {
        RawFdContainer { fd }
    }

    /// Gives the descriptor's number back to the caller.
    pub fn into_raw_fd(self) -> (r: i32)
        ensures
            r == self.fd,
    {
        self.fd
    }
}

/// The descriptor numbers of a queue of descriptors, in order.
pub open spec fn fd_numbers(fds: Seq<RawFdContainer>) -> Seq<i32> {
    Seq::new(fds.len(), |i: int| fds[i].fd)
}

} // verus!
