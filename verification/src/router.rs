//! The router: the mailbox registry, the control-FSM mailbox, and the two
//! scheduler queues (normal and low priority) that feed the worker pools.
//!
//! Sending a message delivers it to the target mailbox and, when the FSM is
//! idle in its slot, takes the FSM out and enqueues it — the transition a
//! concurrent system performs atomically. `broadcast_shutdown` enqueues one
//! shutdown sentinel per worker.

use vstd::prelude::*;

use crate::fsm::{Fsm, Priority};
use crate::mailbox::BasicMailbox;
use crate::ownership::{
    control_contrib, item_contrib, lemma_count_all_zero, lemma_count_push, router_control_owners,
    router_owners, router_unique,
};

verus! {

/// One item of a scheduler queue: a normal FSM, the control FSM, or the
/// shutdown sentinel. The second field of the FSM variants is the timestamp
/// of the moment of sending, so a poller can observe scheduling wait time.
#[derive(Clone, Copy, PartialEq, Eq, Structural, Debug)]
pub enum FsmTypes {
    Normal(Fsm, u64),
    Control(Fsm, u64),
    /// Tells the poller that receives it to shut down.
    Empty,
}

/// Addresses mailboxes and carries the scheduler queues.
pub struct Router {
    /// Mailbox of the normal FSM with address `i` at index `i`.
    pub mailboxes: Vec<BasicMailbox>,
    /// Mailbox of the singleton control FSM.
    pub control_box: BasicMailbox,
    /// Queue read by normal-priority workers.
    pub normal_queue: Vec<FsmTypes>,
    /// Queue read by low-priority workers.
    pub low_queue: Vec<FsmTypes>,
}

impl Router {
    /// A queue item is addressable: a normal FSM in transit names a mailbox
    /// of the registry.
    pub open spec fn item_ok(self, it: FsmTypes) -> bool {
        match it {
            FsmTypes::Normal(f, _) => f.addr < self.mailboxes@.len(),
            FsmTypes::Control(_, _) => true,
            FsmTypes::Empty => true,
        }
    }

    /// Every idle FSM sits in the mailbox of its own address, and every FSM
    /// in transit on a queue is addressable.
    pub open spec fn wf(self) -> bool {
        &&& forall|i: int|
            0 <= i < self.mailboxes@.len() ==> match #[trigger] self.mailboxes@[i].fsm {
                Some(f) => f.addr == i,
                None => true,
            }
        &&& forall|i: int|
            0 <= i < self.normal_queue@.len() ==> self.item_ok(#[trigger] self.normal_queue@[i])
        &&& forall|i: int|
            0 <= i < self.low_queue@.len() ==> self.item_ok(#[trigger] self.low_queue@[i])
    }

    /// The registry of `r2` holds exactly the message logs of `r1`: no
    /// mailbox was added or removed, and no delivered message was dropped,
    /// reordered or altered.
    pub open spec fn msgs_preserved(r1: Router, r2: Router) -> bool {
        &&& r1.mailboxes@.len() == r2.mailboxes@.len()
        &&& forall|i: int|
            0 <= i < r1.mailboxes@.len() ==> (#[trigger] r2.mailboxes@[i]).msgs@
                == r1.mailboxes@[i].msgs@
        &&& r2.control_box.msgs@ == r1.control_box.msgs@
    }

    /// A router with the given control FSM idle in its mailbox, no normal
    /// mailboxes and empty queues.
    pub fn new(control: Fsm) -> (r: Router)
        ensures
            r.mailboxes@.len() == 0,
            r.control_box.msgs@.len() == 0,
            r.control_box.fsm == Some(control),
            r.normal_queue@ == Seq::<FsmTypes>::empty(),
            r.low_queue@ == Seq::<FsmTypes>::empty(),
            r.wf(),
    {
        Router {
            mailboxes: Vec::new(),
            control_box: BasicMailbox::new(control),
            normal_queue: Vec::new(),
            low_queue: Vec::new(),
        }
    }

    /// Registers a new FSM: creates its mailbox, with the FSM idle inside,
    /// and returns its address.
    pub fn register(&mut self, priority: Priority) -> (addr: usize)
        requires
            old(self).wf(),
            old(self).mailboxes@.len() < usize::MAX,
        ensures
            final(self).wf(),
            addr == old(self).mailboxes@.len(),
            final(self).mailboxes@.len() == old(self).mailboxes@.len() + 1,
            forall|i: int|
                0 <= i < old(self).mailboxes@.len() ==> final(self).mailboxes@[i]
                    == old(self).mailboxes@[i],
            final(self).mailboxes@[addr as int].msgs@ == Seq::<u64>::empty(),
            final(self).mailboxes@[addr as int].fsm == Some(
                Fsm { addr, stopped: false, priority, progress: 0 },
            ),
            final(self).control_box == old(self).control_box,
            final(self).normal_queue@ == old(self).normal_queue@,
            final(self).low_queue@ == old(self).low_queue@,
            router_unique(*old(self)) ==> router_unique(*final(self)),
    {
        let addr = self.mailboxes.len();
        let fsm = Fsm::new(addr, priority);
        self.mailboxes.push(BasicMailbox::new(fsm));
        proof {
            if router_unique(*old(self)) {
                assert forall|a: nat|
                    a < self.mailboxes@.len() implies #[trigger] router_owners(*self, a)
                    == 1 by {
                    if a < old(self).mailboxes@.len() {
                        assert(router_owners(*old(self), a) == 1);
                    } else {
                        // The new address: its FSM sits in its fresh
                        // mailbox, and no queue item can name it — every
                        // queued FSM addresses an older mailbox.
                        assert forall|i: int|
                            0 <= i < self.normal_queue@.len() implies item_contrib(a)(
                            #[trigger] self.normal_queue@[i]) == 0 by {
                            assert(old(self).item_ok(old(self).normal_queue@[i]));
                        }
                        assert forall|i: int|
                            0 <= i < self.low_queue@.len() implies item_contrib(a)(
                            #[trigger] self.low_queue@[i]) == 0 by {
                            assert(old(self).item_ok(old(self).low_queue@[i]));
                        }
                        lemma_count_all_zero(self.normal_queue@, item_contrib(a));
                        lemma_count_all_zero(self.low_queue@, item_contrib(a));
                    }
                }
                assert(router_control_owners(*self) == router_control_owners(*old(self)));
            }
        }
        addr
    }

    /// Enqueues an owned normal FSM on the queue its runtime priority names,
    /// stamped with the send time `now`.
    pub fn schedule_normal(&mut self, fsm: Fsm, now: u64)
        requires
            old(self).wf(),
            fsm.addr < old(self).mailboxes@.len(),
        ensures
            final(self).wf(),
            final(self).mailboxes@ == old(self).mailboxes@,
            final(self).control_box == old(self).control_box,
            fsm.priority == Priority::Normal ==> {
                &&& final(self).normal_queue@ == old(self).normal_queue@.push(
                    FsmTypes::Normal(fsm, now),
                )
                &&& final(self).low_queue@ == old(self).low_queue@
            },
            fsm.priority == Priority::Low ==> {
                &&& final(self).low_queue@ == old(self).low_queue@.push(
                    FsmTypes::Normal(fsm, now),
                )
                &&& final(self).normal_queue@ == old(self).normal_queue@
            },
    {
        match fsm.priority {
            Priority::Normal => self.normal_queue.push(FsmTypes::Normal(fsm, now)),
            Priority::Low => self.low_queue.push(FsmTypes::Normal(fsm, now)),
        }
    }

    /// Enqueues the owned control FSM; the control FSM always goes to the
    /// normal queue.
    pub fn schedule_control(&mut self, fsm: Fsm, now: u64)
        requires
            old(self).wf(),
        ensures
            final(self).wf(),
            final(self).mailboxes@ == old(self).mailboxes@,
            final(self).control_box == old(self).control_box,
            final(self).normal_queue@ == old(self).normal_queue@.push(
                FsmTypes::Control(fsm, now),
            ),
            final(self).low_queue@ == old(self).low_queue@,
    {
        self.normal_queue.push(FsmTypes::Control(fsm, now));
    }

    /// Delivers one message to the mailbox at `addr` and, if the FSM is idle
    /// there, takes it out and schedules it. Returns whether the FSM was
    /// scheduled by this call.
    pub fn send(&mut self, addr: usize, msg: u64, now: u64) -> (scheduled: bool)
        requires
            old(self).wf(),
            addr < old(self).mailboxes@.len(),
        ensures
            final(self).wf(),
            final(self).mailboxes@.len() == old(self).mailboxes@.len(),
            forall|i: int|
                0 <= i < old(self).mailboxes@.len() && i != addr
                    ==> final(self).mailboxes@[i] == old(self).mailboxes@[i],
            final(self).mailboxes@[addr as int].msgs@ == old(self).mailboxes@[addr
                as int].msgs@.push(msg),
            final(self).mailboxes@[addr as int].fsm.is_none(),
            final(self).control_box == old(self).control_box,
            scheduled == old(self).mailboxes@[addr as int].fsm.is_some(),
            scheduled ==> {
                let f = old(self).mailboxes@[addr as int].fsm->Some_0;
                &&& f.priority == Priority::Normal ==> {
                    &&& final(self).normal_queue@ == old(self).normal_queue@.push(
                        FsmTypes::Normal(f, now),
                    )
                    &&& final(self).low_queue@ == old(self).low_queue@
                }
                &&& f.priority == Priority::Low ==> {
                    &&& final(self).low_queue@ == old(self).low_queue@.push(
                        FsmTypes::Normal(f, now),
                    )
                    &&& final(self).normal_queue@ == old(self).normal_queue@
                }
            },
            !scheduled ==> {
                &&& final(self).normal_queue@ == old(self).normal_queue@
                &&& final(self).low_queue@ == old(self).low_queue@
                &&& old(self).mailboxes@[addr as int].fsm.is_none()
            },
            router_unique(*old(self)) ==> router_unique(*final(self)),
    {
        let mb = &mut self.mailboxes[addr];
        mb.push(msg);
        let taken = mb.take_fsm();
        let scheduled = match taken {
            Some(f) => {
                self.schedule_normal(f, now);
                true
            }
            None => false,
        };
        proof {
            if router_unique(*old(self)) {
                assert forall|a: nat|
                    a < self.mailboxes@.len() implies #[trigger] router_owners(*self, a)
                    == 1 by {
                    match taken {
                        Some(f) => {
                            if f.priority == Priority::Normal {
                                lemma_count_push(
                                    old(self).normal_queue@,
                                    FsmTypes::Normal(f, now),
                                    item_contrib(a),
                                );
                            } else {
                                lemma_count_push(
                                    old(self).low_queue@,
                                    FsmTypes::Normal(f, now),
                                    item_contrib(a),
                                );
                            }
                        }
                        None => {}
                    }
                    assert(router_owners(*old(self), a) == 1);
                }
                match taken {
                    Some(f) => {
                        if f.priority == Priority::Normal {
                            lemma_count_push(
                                old(self).normal_queue@,
                                FsmTypes::Normal(f, now),
                                control_contrib(),
                            );
                        } else {
                            lemma_count_push(
                                old(self).low_queue@,
                                FsmTypes::Normal(f, now),
                                control_contrib(),
                            );
                        }
                    }
                    None => {}
                }
                assert(router_control_owners(*self) == router_control_owners(*old(self)));
            }
        }
        scheduled
    }

    /// Delivers one message to the control mailbox and, if the control FSM
    /// is idle there, takes it out and schedules it.
    pub fn send_control(&mut self, msg: u64, now: u64) -> (scheduled: bool)
        requires
            old(self).wf(),
        ensures
            final(self).wf(),
            final(self).mailboxes@ == old(self).mailboxes@,
            final(self).control_box.msgs@ == old(self).control_box.msgs@.push(msg),
            final(self).control_box.fsm.is_none(),
            final(self).low_queue@ == old(self).low_queue@,
            scheduled == old(self).control_box.fsm.is_some(),
            scheduled ==> final(self).normal_queue@ == old(self).normal_queue@.push(
                FsmTypes::Control(old(self).control_box.fsm->Some_0, now),
            ),
            !scheduled ==> final(self).normal_queue@ == old(self).normal_queue@,
            router_unique(*old(self)) ==> router_unique(*final(self)),
    {
        self.control_box.push(msg);
        let taken = self.control_box.take_fsm();
        let scheduled = match taken {
            Some(f) => {
                self.schedule_control(f, now);
                true
            }
            None => false,
        };
        proof {
            if router_unique(*old(self)) {
                assert forall|a: nat|
                    a < self.mailboxes@.len() implies #[trigger] router_owners(*self, a)
                    == 1 by {
                    match taken {
                        Some(f) => {
                            lemma_count_push(
                                old(self).normal_queue@,
                                FsmTypes::Control(f, now),
                                item_contrib(a),
                            );
                        }
                        None => {}
                    }
                    assert(router_owners(*old(self), a) == 1);
                }
                match taken {
                    Some(f) => {
                        lemma_count_push(
                            old(self).normal_queue@,
                            FsmTypes::Control(f, now),
                            control_contrib(),
                        );
                    }
                    None => {}
                }
                assert(router_control_owners(*self) == router_control_owners(*old(self)) || router_control_owners(*self) == 1);
                assert(router_control_owners(*self) == 1);
            }
        }
        scheduled
    }

    /// Pops the next item off the queue a worker of `priority` reads.
    /// `None` means the queue is empty: a worker would block here.
    pub fn try_recv(&mut self, priority: Priority) -> (r: Option<FsmTypes>)
        requires
            old(self).wf(),
        ensures
            final(self).wf(),
            final(self).mailboxes@ == old(self).mailboxes@,
            final(self).control_box == old(self).control_box,
            priority == Priority::Normal ==> {
                &&& final(self).low_queue@ == old(self).low_queue@
                &&& if old(self).normal_queue@.len() == 0 {
                    r.is_none() && final(self).normal_queue@ == old(self).normal_queue@
                } else {
                    r == Some(old(self).normal_queue@[0]) && final(self).normal_queue@
                        == old(self).normal_queue@.drop_first()
                }
            },
            priority == Priority::Low ==> {
                &&& final(self).normal_queue@ == old(self).normal_queue@
                &&& if old(self).low_queue@.len() == 0 {
                    r.is_none() && final(self).low_queue@ == old(self).low_queue@
                } else {
                    r == Some(old(self).low_queue@[0]) && final(self).low_queue@ == old(
                        self,
                    ).low_queue@.drop_first()
                }
            },
            r.is_some() ==> old(self).item_ok(r->Some_0),
    {
        let q: &mut Vec<FsmTypes> = match priority {
            Priority::Normal => &mut self.normal_queue,
            Priority::Low => &mut self.low_queue,
        };
        if q.len() == 0 {
            None
        } else {
            let it = q.remove(0);
            proof {
                assert(old(self).item_ok(it));
            }
            Some(it)
        }
    }

    /// Enqueues shutdown sentinels: one per normal worker on the normal
    /// queue and one per low-priority worker on the low queue.
    pub fn broadcast_shutdown(&mut self, normal_workers: usize, low_workers: usize)
        requires
            old(self).wf(),
            old(self).normal_queue@.len() + normal_workers <= usize::MAX,
            old(self).low_queue@.len() + low_workers <= usize::MAX,
        ensures
            final(self).wf(),
            final(self).mailboxes@ == old(self).mailboxes@,
            final(self).control_box == old(self).control_box,
            final(self).normal_queue@.len() == old(self).normal_queue@.len() + normal_workers,
            final(self).low_queue@.len() == old(self).low_queue@.len() + low_workers,
            forall|i: int|
                0 <= i < old(self).normal_queue@.len() ==> final(self).normal_queue@[i]
                    == old(self).normal_queue@[i],
            forall|i: int|
                0 <= i < old(self).low_queue@.len() ==> final(self).low_queue@[i] == old(
                    self,
                ).low_queue@[i],
            forall|i: int|
                old(self).normal_queue@.len() <= i < final(self).normal_queue@.len()
                    ==> final(self).normal_queue@[i] == FsmTypes::Empty,
            forall|i: int|
                old(self).low_queue@.len() <= i < final(self).low_queue@.len()
                    ==> final(self).low_queue@[i] == FsmTypes::Empty,
    {
        let mut k: usize = 0;
        while k < normal_workers
            invariant
                k <= normal_workers,
                self.mailboxes@ == old(self).mailboxes@,
                self.control_box == old(self).control_box,
                self.low_queue@ == old(self).low_queue@,
                self.normal_queue@.len() == old(self).normal_queue@.len() + k,
                old(self).normal_queue@.len() + normal_workers <= usize::MAX,
                forall|i: int|
                    0 <= i < old(self).normal_queue@.len() ==> self.normal_queue@[i]
                        == old(self).normal_queue@[i],
                forall|i: int|
                    old(self).normal_queue@.len() <= i < self.normal_queue@.len()
                        ==> self.normal_queue@[i] == FsmTypes::Empty,
                self.wf(),
            decreases normal_workers - k,
        {
            self.normal_queue.push(FsmTypes::Empty);
            k += 1;
        }
        let mut k: usize = 0;
        while k < low_workers
            invariant
                k <= low_workers,
                self.mailboxes@ == old(self).mailboxes@,
                self.control_box == old(self).control_box,
                self.low_queue@.len() == old(self).low_queue@.len() + k,
                old(self).low_queue@.len() + low_workers <= usize::MAX,
                self.normal_queue@.len() == old(self).normal_queue@.len() + normal_workers,
                forall|i: int|
                    0 <= i < old(self).normal_queue@.len() ==> self.normal_queue@[i]
                        == old(self).normal_queue@[i],
                forall|i: int|
                    old(self).normal_queue@.len() <= i < self.normal_queue@.len()
                        ==> self.normal_queue@[i] == FsmTypes::Empty,
                forall|i: int|
                    0 <= i < old(self).low_queue@.len() ==> self.low_queue@[i] == old(
                        self,
                    ).low_queue@[i],
                forall|i: int|
                    old(self).low_queue@.len() <= i < self.low_queue@.len()
                        ==> self.low_queue@[i] == FsmTypes::Empty,
                self.wf(),
            decreases low_workers - k,
        {
            self.low_queue.push(FsmTypes::Empty);
            k += 1;
        }
    }
}

} // verus!
