//! The FSM data model: a runtime priority and the per-FSM state the batch
//! system itself reads — everything else an FSM does is the handler's
//! concern and stays opaque to this crate.

use vstd::prelude::*;

verus! {

/// Runtime priority of an FSM, and of the worker pool a handler is bound to.
/// An FSM whose priority no longer matches its current pool is re-scheduled
/// so that it migrates to the other pool.
#[derive(Clone, Copy, PartialEq, Eq, Structural, Debug)]
pub enum Priority {
    Normal,
    Low,
}

/// One message-driven unit of work.
///
/// The batch system reads four things of an FSM: the address of its mailbox,
/// whether it has been stopped, its runtime priority, and how many of its
/// mailbox messages it has acknowledged so far (`progress`). A handler may
/// flip `stopped`, change `priority` and advance `progress`; the address is
/// fixed for the FSM's lifetime.
#[derive(Clone, Copy, PartialEq, Eq, Structural, Debug)]
pub struct Fsm {
    /// Index of this FSM's mailbox in the router's registry.
    pub addr: usize,
    /// Set once the FSM has finished its work; a stopped FSM is removed.
    pub stopped: bool,
    /// Runtime priority; decides which scheduler queue the FSM goes to.
    pub priority: Priority,
    /// How many messages of the mailbox log this FSM has acknowledged.
    pub progress: usize,
}

impl Fsm {
    /// A fresh FSM bound to mailbox `addr`: running, nothing acknowledged.
    pub fn new(addr: usize, priority: Priority) -> (r: Fsm)
        ensures
            r == (Fsm { addr, stopped: false, priority, progress: 0 }),
    {
        Fsm { addr, stopped: false, priority, progress: 0 }
    }

    /// Whether the FSM has been stopped.
    pub fn is_stopped(&self) -> (r: bool)
        ensures
            r == self.stopped,
    {
        self.stopped
    }

    /// The FSM's current runtime priority.
    pub fn get_priority(&self) -> (r: Priority)
        ensures
            r == self.priority,
    {
        self.priority
    }
}

} // verus!
