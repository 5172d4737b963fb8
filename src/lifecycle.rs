use vstd::prelude::*;

verus! {

/// Refusal to start what is already running.
#[derive(Debug, Clone, Copy, PartialEq, Eq, Structural)]
pub struct AlreadyRunning;

/// Whether a background runtime is running: starting twice is an error,
/// stopping twice is not.
#[derive(Debug, Clone, Copy, PartialEq, Eq, Structural)]
pub struct Lifecycle {
    pub running: bool,
}

impl Lifecycle {
    /// Not running.
    pub fn new() -> (r: Lifecycle)
        ensures
            !r.running,
    {
        Lifecycle { running: false }
    }

    /// Marks the runtime as started; fails, changing nothing, when it runs
    /// already.
    pub fn start(&mut self) -> (r: Result<(), AlreadyRunning>)
        ensures
            r is Ok <==> !old(self).running,
            final(self).running,
    {
        if self.running {
            Err(AlreadyRunning)
        } else {
            self.running = true;
            Ok(())
        }
    }

    /// Marks the runtime as stopped, whether or not it ran.
    pub fn stop(&mut self)
        ensures
            !final(self).running,
    {
        self.running = false;
    }
}

} // verus!
