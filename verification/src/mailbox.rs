//! The mailbox: the handover point between message producers and the pool.
//!
//! A mailbox pairs the log of messages delivered to one FSM with a slot that
//! owns the FSM while it is idle. `len` counts delivered messages; an FSM's
//! `progress` field records how many of them it has acknowledged, so
//! `len() == progress` means the FSM has seen everything and may go idle.
//! Taking the FSM out of the slot and releasing it back are the
//! synchronization points of the ownership protocol.

use vstd::prelude::*;

use crate::fsm::Fsm;

verus! {

/// A mailbox for one FSM: its message log and, when the FSM is idle, the
/// FSM itself.
pub struct BasicMailbox {
    /// Every message delivered to this FSM, in delivery order.
    pub msgs: Vec<u64>,
    /// The FSM, present exactly while no queue or batch owns it.
    pub fsm: Option<Fsm>,
}

impl BasicMailbox {
    /// A new mailbox holding `fsm`, with no messages yet.
    pub fn new(fsm: Fsm) -> (r: BasicMailbox)
        ensures
            r.msgs@ == Seq::<u64>::empty(),
            r.fsm == Some(fsm),
    {
        BasicMailbox { msgs: Vec::new(), fsm: Some(fsm) }
    }

    /// Number of messages delivered so far.
    pub fn len(&self) -> (r: usize)
        ensures
            r == self.msgs@.len(),
    {
        self.msgs.len()
    }

    /// Whether no message has ever been delivered.
    pub fn is_empty(&self) -> (r: bool)
        ensures
            r == (self.msgs@.len() == 0),
    {
        self.msgs.is_empty()
    }

    /// Appends one message to the log. The FSM slot is untouched.
    pub fn push(&mut self, msg: u64)
        ensures
            final(self).msgs@ == old(self).msgs@.push(msg),
            final(self).fsm == old(self).fsm,
    {
        self.msgs.push(msg);
    }

    /// Stores `fsm` back into the slot, returning exclusive ownership of the
    /// FSM to the mailbox. The slot must be empty: the caller is the owner.
    pub fn release(&mut self, fsm: Fsm)
        requires
            old(self).fsm.is_none(),
        ensures
            final(self).msgs@ == old(self).msgs@,
            final(self).fsm == Some(fsm),
    {
        self.fsm = Some(fsm);
    }

    /// Takes the FSM out of the slot, if it is present: the caller becomes
    /// the owner.
    pub fn take_fsm(&mut self) -> (r: Option<Fsm>)
        ensures
            final(self).msgs@ == old(self).msgs@,
            final(self).fsm.is_none(),
            r == old(self).fsm,
    {
        let r = self.fsm;
        self.fsm = None;
        r
    }
}

/// The stretches of the log `msgs` a handler has observed over the first
/// `k` rounds, given the progress cursor it held at the end of each round:
/// round `j` observes the messages between cursor `j - 1` and cursor `j`.
pub open spec fn observed_upto(msgs: Seq<u64>, cursors: Seq<int>, k: int) -> Seq<u64>
    decreases k,
{
    if k <= 0 {
        Seq::empty()
    } else {
        observed_upto(msgs, cursors, k - 1) + msgs.subrange(cursors[k - 1], cursors[k])
    }
}

/// Ordering law: a handler that observes, each round, the stretch of the
/// mailbox log beyond its progress cursor and then advances the cursor
/// sees every delivered message exactly once and in delivery order — over
/// any number of rounds, what it has observed is exactly the log up to
/// its final cursor.
pub proof fn lemma_observed_in_order(msgs: Seq<u64>, cursors: Seq<int>, k: int)
    requires
        0 <= k < cursors.len(),
        cursors[0] == 0,
        forall|j: int| 0 <= j < cursors.len() - 1 ==> #[trigger] cursors[j] <= cursors[j + 1],
        forall|j: int| 0 <= j < cursors.len() ==> 0 <= #[trigger] cursors[j] <= msgs.len(),
    ensures
        observed_upto(msgs, cursors, k) == msgs.subrange(0, cursors[k]),
    decreases k,
{
    if k == 0 {
        assert(observed_upto(msgs, cursors, 0) =~= msgs.subrange(0, 0));
    } else {
        lemma_observed_in_order(msgs, cursors, k - 1);
        assert(cursors[k - 1] <= cursors[k]);
        assert(msgs.subrange(0, cursors[k - 1]) + msgs.subrange(cursors[k - 1], cursors[k])
            =~= msgs.subrange(0, cursors[k]));
    }
}

} // verus!
