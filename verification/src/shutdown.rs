use vstd::prelude::*;

verus! {

/// Whether the signal to shut down has been seen. Whoever waits for the signal
/// asks `is_shutdown` first, and calls `notified` once the signal has come.
#[derive(Debug, Clone, Copy, PartialEq, Eq, Structural)]
pub struct Shutdown {
    is_shutdown: bool,
}

impl Shutdown {
    pub closed spec fn seen(&self) -> bool {
        self.is_shutdown
    }

    pub fn new() -> (s: Self)
        ensures
            !s.seen(),
    {
        Self { is_shutdown: false }
    }

    pub fn is_shutdown(&self) -> (b: bool)
        ensures
            b == self.seen(),
    {
        self.is_shutdown
    }

    /// Records that the signal has come; it stays recorded.
    pub fn notified(&mut self)
        ensures
            final(self).seen(),
    {
        self.is_shutdown = true;
    }
}

} // verus!
