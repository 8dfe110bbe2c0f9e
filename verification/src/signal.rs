//! Signals that can be delivered to a process group.

use vstd::prelude::*;

verus! {

/// A signal that asks a process group to stop.
#[derive(Clone, Copy, Debug, PartialEq, Eq, Hash, Structural)]
pub enum Signal {
    SIGHUP,
    SIGINT,
    SIGQUIT,
    SIGKILL,
    SIGTERM,
    SIGUSR1,
    SIGUSR2,
}

impl Signal {
    /// The signal that is delivered when a project names none.
    pub open spec fn fallback() -> Signal {
        Signal::SIGINT
    }

    /// The signal to deliver for an optional override.
    pub open spec fn resolve(choice: Option<Signal>) -> Signal {
        match choice {
            Some(s) => s,
            None => Signal::fallback(),
        }
    }

    /// Picks the override when there is one, the interrupt signal otherwise.
    pub fn or_default(choice: Option<Signal>) -> (s: Signal)
        ensures
            s == Signal::resolve(choice),
    {
        match choice {
            Some(s) => s,
            None => Signal::SIGINT,
        }
    }
}

} // verus!
