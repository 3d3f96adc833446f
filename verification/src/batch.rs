//! The batch: the in-flight working set of one poller, and the handover
//! algorithms that return an FSM to its mailbox (`release`), keep a stopped
//! FSM that still has pending messages (`remove`), or put it back on a
//! scheduler queue (`schedule`).
//!
//! The heart of the protocol is `release`: the poller stores the FSM back
//! into its mailbox and then compares the mailbox length against the
//! progress the handler reported. Equality means no producer delivered a
//! message in the meantime, so ownership stays with the mailbox; otherwise
//! the poller takes the FSM straight back for another round.

use vstd::prelude::*;

use crate::fsm::Fsm;
use crate::mailbox::BasicMailbox;
use crate::router::{FsmTypes, Router};

verus! {

/// The disposition chosen for a batched FSM at the end of a round.
#[derive(Clone, Copy, PartialEq, Eq, Structural, Debug)]
pub enum ReschedulePolicy {
    /// Return the FSM to its mailbox; the payload is the progress the
    /// handler reported.
    Release(usize),
    /// The FSM is stopped: store it away if its mailbox is drained,
    /// otherwise keep polling it.
    Remove,
    /// Send the FSM back through a scheduler queue.
    Schedule,
}

/// What `handle_normal` tells the poller about one FSM.
#[derive(Clone, Copy, PartialEq, Eq, Structural, Debug)]
pub enum HandleResult {
    /// The FSM still needs to be handled in the next round.
    KeepProcessing,
    /// The FSM should stop at the given progress.
    StopAt {
        /// The number of mailbox messages the handler has acknowledged.
        /// The FSM is released unless new messages arrive.
        progress: usize,
        /// Whether the FSM should be disposed of before the `end` hook.
        skip_end: bool,
    },
}

impl HandleResult {
    /// Builds the stop-at result.
    #[inline]
    pub fn stop_at(progress: usize, skip_end: bool) -> (r: HandleResult)
        ensures
            r == (HandleResult::StopAt { progress, skip_end }),
    {
        HandleResult::StopAt { progress, skip_end }
    }
}

/// A normal FSM while a batch owns it: the FSM plus the round metrics and
/// the end-of-round disposition.
#[derive(Clone, Copy, PartialEq, Eq, Structural, Debug)]
pub struct NormalFsm {
    /// The owned FSM.
    pub fsm: Fsm,
    /// Timestamp of the moment the FSM entered the batch; a long-held FSM
    /// counts as hot and takes part in re-balancing.
    pub timer: u64,
    /// How many rounds the FSM has been continuously held.
    pub round: usize,
    /// The disposition chosen this round, if any.
    pub policy: Option<ReschedulePolicy>,
}

impl NormalFsm {
    /// Wraps an FSM that enters a batch at time `now`.
    #[inline]
    pub fn new(fsm: Fsm, now: u64) -> (r: NormalFsm)
        ensures
            r == (NormalFsm { fsm, timer: now, round: 0, policy: None }),
    {
        NormalFsm { fsm, timer: now, round: 0, policy: None }
    }
}

/// `f` with its disposition cleared, as a slot is restored when a
/// disposition did not go through.
pub open spec fn cleared(f: NormalFsm) -> NormalFsm {
    NormalFsm { policy: None, ..f }
}

/// `f` after one more round: the round counter grows until it sticks at its
/// maximum.
pub open spec fn ticked(f: NormalFsm) -> NormalFsm {
    NormalFsm { round: if f.round < usize::MAX { (f.round + 1) as usize } else { f.round }, ..f }
}

/// The working set of one poller for one round: an optional control FSM and
/// a vector of slots, each either empty or owning one normal FSM.
pub struct Batch {
    /// Slots for normal FSMs, in insertion order.
    pub normals: Vec<Option<NormalFsm>>,
    /// The singleton control FSM, when this poller holds it.
    pub control: Option<Fsm>,
}

impl Batch {
    /// Every occupied slot of the batch names a mailbox of the router whose
    /// FSM slot is empty — the batch, not the mailbox, owns that FSM.
    pub open spec fn slots_ok(self, router: Router) -> bool {
        forall|i: int|
            0 <= i < self.normals@.len() ==> match #[trigger] self.normals@[i] {
                Some(f) => f.fsm.addr < router.mailboxes@.len()
                    && router.mailboxes@[f.fsm.addr as int].fsm.is_none(),
                None => true,
            }
    }

    /// No two occupied slots hold FSMs of the same address: the batch owns
    /// each of its FSMs exclusively.
    pub open spec fn distinct_addrs(self) -> bool {
        forall|i: int, j: int|
            0 <= i < self.normals@.len() && 0 <= j < self.normals@.len() && i != j
                && self.normals@[i].is_some() && self.normals@[j].is_some() ==> (
            #[trigger] self.normals@[i])->Some_0.fsm.addr != (
            #[trigger] self.normals@[j])->Some_0.fsm.addr
    }

    /// Creates a batch with the given capacity hint.
    pub fn with_capacity(cap: usize) -> (r: Batch)
        ensures
            r.normals@ == Seq::<Option<NormalFsm>>::empty(),
            r.control.is_none(),
    {
        Batch { normals: Vec::with_capacity(cap), control: None }
    }

    /// Accepts one queue item: appends a normal FSM as a fresh slot, stores
    /// the control FSM in the control slot, and rejects the shutdown
    /// sentinel by returning false.
    pub fn push(&mut self, item: FsmTypes, now: u64) -> (live: bool)
        requires
            item matches FsmTypes::Control(_, _) ==> old(self).control.is_none(),
        ensures
            match item {
                FsmTypes::Normal(f, _) => {
                    &&& live
                    &&& final(self).normals@ == old(self).normals@.push(
                        Some(NormalFsm { fsm: f, timer: now, round: 0, policy: None }),
                    )
                    &&& final(self).control == old(self).control
                },
                FsmTypes::Control(c, _) => {
                    &&& live
                    &&& final(self).normals@ == old(self).normals@
                    &&& final(self).control == Some(c)
                },
                FsmTypes::Empty => {
                    &&& !live
                    &&& final(self).normals@ == old(self).normals@
                    &&& final(self).control == old(self).control
                },
            },
    {
        match item {
            FsmTypes::Normal(f, _schedule_time) => {
                self.normals.push(Some(NormalFsm::new(f, now)));
                true
            }
            FsmTypes::Control(c, _schedule_time) => {
                self.control = Some(c);
                true
            }
            FsmTypes::Empty => false,
        }
    }

    /// Whether the batch holds no FSM at all.
    pub fn is_empty(&self) -> (r: bool)
        ensures
            r == (self.normals@.len() == 0 && self.control.is_none()),
    {
        self.normals.is_empty() && self.control.is_none()
    }

    /// Drops every slot and the control FSM.
    pub fn clear(&mut self)
        ensures
            final(self).normals@ == Seq::<Option<NormalFsm>>::empty(),
            final(self).control.is_none(),
    {
        self.normals.clear();
        self.control = None;
    }

    /// Ends a round for metrics: every live FSM has been held one round
    /// longer.
    pub fn tick_round(&mut self)
        ensures
            final(self).normals@.len() == old(self).normals@.len(),
            forall|i: int|
                0 <= i < old(self).normals@.len() ==> final(self).normals@[i] == match old(
                    self,
                ).normals@[i] {
                    Some(f) => Some(ticked(f)),
                    None => None::<NormalFsm>,
                },
            final(self).control == old(self).control,
    {
        let n = self.normals.len();
        let mut i: usize = 0;
        while i < n
            invariant
                n == self.normals@.len(),
                i <= n,
                self.control == old(self).control,
                old(self).normals@.len() == n,
                forall|j: int|
                    0 <= j < i ==> self.normals@[j] == match old(self).normals@[j] {
                        Some(f) => Some(ticked(f)),
                        None => None::<NormalFsm>,
                    },
                forall|j: int| i <= j < n ==> self.normals@[j] == old(self).normals@[j],
            decreases n - i,
        {
            let slot = &mut self.normals[i];
            match slot {
                Some(f) => {
                    if f.round < usize::MAX {
                        f.round = f.round + 1;
                    }
                }
                None => {}
            }
            i += 1;
        }
    }

    /// Releases the ownership of `fsm` to its mailbox so that it can be
    /// scheduled from there again.
    ///
    /// `expected_len` is the progress the handler reported. If the mailbox
    /// length still equals it, no message arrived while the handler ran:
    /// the mailbox keeps the FSM and the poller is done with it. Otherwise
    /// a producer delivered something, so the FSM is taken straight back
    /// and returned for another round.
    pub fn release(fsm: NormalFsm, expected_len: usize, mailbox: &mut BasicMailbox) -> (r: Option<
        NormalFsm,
    >)
        requires
            old(mailbox).fsm.is_none(),
        ensures
            final(mailbox).msgs@ == old(mailbox).msgs@,
            old(mailbox).msgs@.len() == expected_len ==> {
                &&& r.is_none()
                &&& final(mailbox).fsm == Some(fsm.fsm)
            },
            old(mailbox).msgs@.len() != expected_len ==> {
                &&& r == Some(fsm)
                &&& final(mailbox).fsm.is_none()
            },
    {
        let mut f = fsm;
        mailbox.release(f.fsm);
        if mailbox.len() == expected_len {
            None
        } else {
            match mailbox.take_fsm() {
                // Another scheduler took it first.
                None => None,
                Some(s) => {
                    f.fsm = s;
                    Some(f)
                }
            }
        }
    }

    /// Disposes of a stopped FSM. A stopped FSM whose mailbox is drained —
    /// the FSM has acknowledged every delivered message — is stored away
    /// for good: nothing will schedule it again. One with pending messages
    /// is handed back so the poller keeps driving it until the handler
    /// drains them.
    pub fn remove(fsm: NormalFsm, mailbox: &mut BasicMailbox) -> (r: Option<NormalFsm>)
        requires
            old(mailbox).fsm.is_none(),
        ensures
            final(mailbox).msgs@ == old(mailbox).msgs@,
            fsm.fsm.progress >= old(mailbox).msgs@.len() ==> {
                &&& r.is_none()
                &&& final(mailbox).fsm == Some(fsm.fsm)
            },
            fsm.fsm.progress < old(mailbox).msgs@.len() ==> {
                &&& r == Some(fsm)
                &&& final(mailbox).fsm.is_none()
            },
    {
        if fsm.fsm.progress >= mailbox.len() {
            // It is only removed once it is closed, so no new message can
            // arrive and re-scheduling need not be considered.
            mailbox.release(fsm.fsm);
            None
        } else {
            Some(fsm)
        }
    }

    /// Disposes of the normal FSM at `index` according to its policy:
    /// release to its mailbox, remove as stopped, or send through the
    /// router. When the disposition hands the FSM back — a producer raced
    /// the release, or a stopped FSM still has messages — the slot is
    /// restored with the policy cleared so the FSM stays another round.
    pub fn schedule(&mut self, router: &mut Router, index: usize, now: u64)
        requires
            index < old(self).normals@.len(),
            old(self).slots_ok(*old(router)),
            old(self).distinct_addrs(),
            old(router).wf(),
        ensures
            final(router).wf(),
            final(self).slots_ok(*final(router)),
            final(self).distinct_addrs(),
            crate::ownership::unique_owners(*old(router), *old(self))
                ==> crate::ownership::unique_owners(*final(router), *final(self)),
            final(self).normals@.len() == old(self).normals@.len(),
            final(self).control == old(self).control,
            forall|i: int|
                0 <= i < old(self).normals@.len() && i != index ==> final(self).normals@[i]
                    == old(self).normals@[i],
            final(router).mailboxes@.len() == old(router).mailboxes@.len(),
            final(router).control_box == old(router).control_box,
            match old(self).normals@[index as int] {
                None => {
                    &&& final(self).normals@ == old(self).normals@
                    &&& *final(router) == *old(router)
                },
                Some(f) => match f.policy {
                    None => {
                        &&& final(self).normals@ == old(self).normals@
                        &&& *final(router) == *old(router)
                    },
                    Some(ReschedulePolicy::Schedule) => {
                        &&& final(self).normals@ == old(self).normals@.update(
                            index as int,
                            None,
                        )
                        &&& final(router).mailboxes@ == old(router).mailboxes@
                        &&& f.fsm.priority == crate::fsm::Priority::Normal ==> {
                            &&& final(router).normal_queue@ == old(
                                router,
                            ).normal_queue@.push(FsmTypes::Normal(f.fsm, now))
                            &&& final(router).low_queue@ == old(router).low_queue@
                        }
                        &&& f.fsm.priority == crate::fsm::Priority::Low ==> {
                            &&& final(router).low_queue@ == old(router).low_queue@.push(
                                FsmTypes::Normal(f.fsm, now),
                            )
                            &&& final(router).normal_queue@ == old(router).normal_queue@
                        }
                    },
                    Some(ReschedulePolicy::Release(l)) => {
                        &&& final(router).normal_queue@ == old(router).normal_queue@
                        &&& final(router).low_queue@ == old(router).low_queue@
                        &&& forall|a: int|
                            0 <= a < old(router).mailboxes@.len() && a != f.fsm.addr
                                ==> final(router).mailboxes@[a] == old(router).mailboxes@[a]
                        &&& final(router).mailboxes@[f.fsm.addr as int].msgs@ == old(
                            router,
                        ).mailboxes@[f.fsm.addr as int].msgs@
                        &&& if old(router).mailboxes@[f.fsm.addr as int].msgs@.len() == l {
                            &&& final(self).normals@ == old(self).normals@.update(
                                index as int,
                                None,
                            )
                            &&& final(router).mailboxes@[f.fsm.addr as int].fsm == Some(
                                f.fsm,
                            )
                        } else {
                            &&& final(self).normals@ == old(self).normals@.update(
                                index as int,
                                Some(cleared(f)),
                            )
                            &&& final(router).mailboxes@[f.fsm.addr as int].fsm.is_none()
                        }
                    },
                    Some(ReschedulePolicy::Remove) => {
                        &&& final(router).normal_queue@ == old(router).normal_queue@
                        &&& final(router).low_queue@ == old(router).low_queue@
                        &&& forall|a: int|
                            0 <= a < old(router).mailboxes@.len() && a != f.fsm.addr
                                ==> final(router).mailboxes@[a] == old(router).mailboxes@[a]
                        &&& final(router).mailboxes@[f.fsm.addr as int].msgs@ == old(
                            router,
                        ).mailboxes@[f.fsm.addr as int].msgs@
                        &&& if f.fsm.progress >= old(router).mailboxes@[f.fsm.addr
                            as int].msgs@.len() {
                            &&& final(self).normals@ == old(self).normals@.update(
                                index as int,
                                None,
                            )
                            &&& final(router).mailboxes@[f.fsm.addr as int].fsm == Some(
                                f.fsm,
                            )
                        } else {
                            &&& final(self).normals@ == old(self).normals@.update(
                                index as int,
                                Some(cleared(f)),
                            )
                            &&& final(router).mailboxes@[f.fsm.addr as int].fsm.is_none()
                        }
                    },
                },
            },
    {
        let slot = &mut self.normals[index];
        let cur: Option<NormalFsm> = *slot;
        *slot = None;
        let to_schedule = match cur {
            Some(f) => f,
            None => {
                proof {
                    assert(self.normals@ =~= old(self).normals@);
                    if crate::ownership::unique_owners(*old(router), *old(self)) {
                        crate::ownership::lemma_owners_pointwise(
                            *old(router),
                            *router,
                            *old(self),
                            *self,
                        );
                        assert forall|a: nat|
                            a < router.mailboxes@.len() implies #[trigger] crate::ownership::owners(
                            *router,
                            *self,
                            a,
                        ) == 1 by {
                            assert(crate::ownership::owners(*old(router), *old(self), a) == 1);
                        }
                    }
                }
                return ;
            }
        };
        let mut res: Option<NormalFsm> = match to_schedule.policy {
            Some(ReschedulePolicy::Release(l)) => {
                let addr = to_schedule.fsm.addr;
                let mailbox = &mut router.mailboxes[addr];
                Batch::release(to_schedule, l, mailbox)
            }
            Some(ReschedulePolicy::Remove) => {
                let addr = to_schedule.fsm.addr;
                let mailbox = &mut router.mailboxes[addr];
                Batch::remove(to_schedule, mailbox)
            }
            Some(ReschedulePolicy::Schedule) => {
                router.schedule_normal(to_schedule.fsm, now);
                None
            }
            None => Some(to_schedule),
        };
        match &mut res {
            Some(f) => {
                // The disposition handed the FSM back: keep it in the batch
                // for another round, with the policy cleared.
                f.policy = None;
                self.normals[index] = res;
            }
            None => {}
        }
        proof {
            let r0 = *old(router);
            let b0 = *old(self);
            if crate::ownership::unique_owners(r0, b0) {
                let fidx = index as int;
                let f = b0.normals@[fidx]->Some_0;
                let ad = f.fsm.addr as nat;
                match f.policy {
                    None => {
                        assert(self.normals@ =~= b0.normals@);
                        crate::ownership::lemma_owners_pointwise(r0, *router, b0, *self);
                        assert forall|a: nat|
                            a < router.mailboxes@.len() implies #[trigger] crate::ownership::owners(
                            *router,
                            *self,
                            a,
                        ) == 1 by {
                            assert(crate::ownership::owners(r0, b0, a) == 1);
                        }
                    }
                    Some(ReschedulePolicy::Schedule) => {
                        assert forall|a: nat|
                            a < router.mailboxes@.len() implies #[trigger] crate::ownership::owners(
                            *router,
                            *self,
                            a,
                        ) == 1 by {
                            crate::ownership::lemma_count_update(
                                b0.normals@,
                                fidx,
                                None,
                                crate::ownership::slot_contrib(a),
                            );
                            if f.fsm.priority == crate::fsm::Priority::Normal {
                                crate::ownership::lemma_count_push(
                                    r0.normal_queue@,
                                    FsmTypes::Normal(f.fsm, now),
                                    crate::ownership::item_contrib(a),
                                );
                            } else {
                                crate::ownership::lemma_count_push(
                                    r0.low_queue@,
                                    FsmTypes::Normal(f.fsm, now),
                                    crate::ownership::item_contrib(a),
                                );
                            }
                            assert(crate::ownership::owners(r0, b0, a) == 1);
                        }
                        if f.fsm.priority == crate::fsm::Priority::Normal {
                            crate::ownership::lemma_count_push(
                                r0.normal_queue@,
                                FsmTypes::Normal(f.fsm, now),
                                crate::ownership::control_contrib(),
                            );
                        } else {
                            crate::ownership::lemma_count_push(
                                r0.low_queue@,
                                FsmTypes::Normal(f.fsm, now),
                                crate::ownership::control_contrib(),
                            );
                        }
                        assert(crate::ownership::control_owners(*router, *self) == 1);
                    }
                    Some(ReschedulePolicy::Release(_)) | Some(ReschedulePolicy::Remove) => {
                        assert(self.normals@ =~= b0.normals@.update(fidx, self.normals@[fidx]));
                        assert forall|a: nat|
                            a < router.mailboxes@.len() implies #[trigger] crate::ownership::owners(
                            *router,
                            *self,
                            a,
                        ) == 1 by {
                            crate::ownership::lemma_count_update(
                                b0.normals@,
                                fidx,
                                self.normals@[fidx],
                                crate::ownership::slot_contrib(a),
                            );
                            assert(crate::ownership::owners(r0, b0, a) == 1);
                        }
                        assert(crate::ownership::control_owners(*router, *self) == 1);
                    }
                }
                assert(crate::ownership::unique_owners(*router, *self));
            }
        }
    }

    /// Reclaims the slot storage if no FSM is at `index`, by swapping in
    /// the tail slot. Callers walk indices in descending order so that the
    /// move never touches an index still to be processed.
    #[inline]
    pub fn swap_reclaim(&mut self, index: usize)
        requires
            index < old(self).normals@.len(),
        ensures
            final(self).control == old(self).control,
            old(self).normals@[index as int].is_some() ==> final(self).normals@ == old(
                self,
            ).normals@,
            old(self).normals@[index as int].is_none() ==> final(self).normals@ == old(
                self,
            ).normals@.update(index as int, old(self).normals@.last()).drop_last(),
    {
        if self.normals[index].is_none() {
            self.normals.swap_remove(index);
        }
    }

    /// Same as `release`, but for the control FSM. Returns whether the
    /// control mailbox kept the FSM.
    pub fn release_control(&mut self, control_box: &mut BasicMailbox, checked_len: usize) -> (r:
        bool)
        requires
            old(self).control.is_some(),
            old(control_box).fsm.is_none(),
        ensures
            final(self).normals@ == old(self).normals@,
            final(control_box).msgs@ == old(control_box).msgs@,
            old(control_box).msgs@.len() == checked_len ==> {
                &&& r
                &&& final(self).control.is_none()
                &&& final(control_box).fsm == old(self).control
            },
            old(control_box).msgs@.len() != checked_len ==> {
                &&& !r
                &&& final(self).control == old(self).control
                &&& final(control_box).fsm.is_none()
            },
    {
        let s = self.control.unwrap();
        self.control = None;
        control_box.release(s);
        if control_box.len() == checked_len {
            true
        } else {
            match control_box.take_fsm() {
                None => true,
                Some(s2) => {
                    self.control = Some(s2);
                    false
                }
            }
        }
    }

    /// Same as `remove`, but for the control FSM: it leaves the batch only
    /// once its mailbox is drained — every delivered control message
    /// acknowledged.
    pub fn remove_control(&mut self, control_box: &mut BasicMailbox)
        requires
            old(self).control.is_some(),
            old(control_box).fsm.is_none(),
        ensures
            final(self).normals@ == old(self).normals@,
            final(control_box).msgs@ == old(control_box).msgs@,
            old(self).control->Some_0.progress >= old(control_box).msgs@.len() ==> {
                &&& final(self).control.is_none()
                &&& final(control_box).fsm == old(self).control
            },
            old(self).control->Some_0.progress < old(control_box).msgs@.len() ==> {
                &&& final(self).control == old(self).control
                &&& final(control_box).fsm == old(control_box).fsm
            },
    {
        let c = self.control.unwrap();
        if c.progress >= control_box.len() {
            self.control = None;
            control_box.release(c);
        }
    }
}

} // verus!
