//! The poller: the main loop of one worker. Each round it fetches ready
//! FSMs from its scheduler queue into a batch, drives them through the
//! handler hooks, classifies every normal FSM — stopped, migrated to the
//! other pool, hot, or stopped-at-progress — and finally disposes of the
//! classified ones and compacts the batch.
//!
//! This is a sequential model of a worker: the queue stands in for the
//! channel, the caller passes the clock, and a run is capped at a given
//! number of rounds, where the real worker would loop until shutdown.

use vstd::prelude::*;

use crate::batch::{cleared, Batch, HandleResult, NormalFsm, ReschedulePolicy};
use crate::fsm::{Fsm, Priority};
use crate::mailbox::BasicMailbox;
use crate::ownership::{
    control_contrib, control_owners, item_contrib, lemma_batch_control_exclusive,
    lemma_control_head_exclusive, lemma_count_first, lemma_count_push, lemma_count_swap_remove,
    lemma_count_update, lemma_empty_batch_owners, lemma_queue_head_exclusive, lemma_unique_same,
    owners, router_unique, slot_contrib, unique_owners,
};
use crate::router::{FsmTypes, Router};

verus! {

/// Time elapsed between `timer` and `now`, zero when the clock stands
/// before the timer.
pub open spec fn elapsed(timer: u64, now: u64) -> nat {
    if now >= timer {
        (now - timer) as nat
    } else {
        0nat
    }
}

/// A batched FSM is hot when it has been held at least `dur` long: it is a
/// candidate for re-balancing onto another worker.
pub open spec fn is_hot_at(f: NormalFsm, now: u64, dur: u64) -> bool {
    elapsed(f.timer, now) >= dur
}

/// How many of the slots before `i` count as hot for re-balancing: held
/// FSMs that are running, bound to this pool, and over the threshold.
pub open spec fn hot_count(
    s: Seq<Option<NormalFsm>>,
    hpri: Priority,
    now: u64,
    dur: u64,
    i: int,
) -> int
    decreases i,
{
    if i <= 0 {
        0
    } else {
        hot_count(s, hpri, now, dur, i - 1) + (match s[i - 1] {
            Some(f) => if !f.fsm.stopped && f.fsm.priority == hpri && is_hot_at(f, now, dur) {
                1int
            } else {
                0int
            },
            None => 0int,
        })
    }
}

/// The classification a full round gives slot `i`, stated over the
/// post-handler state of the batch:
/// a stopped FSM is removed; one bound to the other pool is re-scheduled;
/// a hot one is re-scheduled exactly when it is an even-numbered hot FSM —
/// only every second hot FSM moves, so the next poll cannot re-collect the
/// whole hot set as one cohort; otherwise the slot holds a release at some
/// progress, or no disposition at all.
pub open spec fn classified(
    s: Seq<Option<NormalFsm>>,
    hpri: Priority,
    now: u64,
    dur: u64,
    i: int,
) -> bool {
    match s[i] {
        None => true,
        Some(f) => {
            if f.fsm.stopped {
                f.policy == Some(ReschedulePolicy::Remove)
            } else if f.fsm.priority != hpri {
                f.policy == Some(ReschedulePolicy::Schedule)
            } else if is_hot_at(f, now, dur) && hot_count(s, hpri, now, dur, i + 1) % 2 == 0 {
                f.policy == Some(ReschedulePolicy::Schedule)
            } else {
                f.policy is None || f.policy matches Some(ReschedulePolicy::Release(_))
            }
        },
    }
}

/// How many of the slots before `i` are marked for re-scheduling.
pub open spec fn schedule_count(s: Seq<Option<NormalFsm>>, i: int) -> int
    decreases i,
{
    if i <= 0 {
        0
    } else {
        schedule_count(s, i - 1) + (match s[i - 1] {
            Some(f) => if f.policy == Some(ReschedulePolicy::Schedule) {
                1int
            } else {
                0int
            },
            None => 0int,
        })
    }
}

/// Hot re-balancing: in a round whose batch holds only hot FSMs — all
/// running, all bound to this pool, all held at least the re-scheduling
/// threshold — the classification marks exactly half of them, rounded
/// down, for re-scheduling. Enough move to spread the load; enough stay
/// that the next poll cannot fetch the whole hot set as one cohort again.
pub proof fn lemma_hot_rebalancing(
    s: Seq<Option<NormalFsm>>,
    hpri: Priority,
    now: u64,
    dur: u64,
    i: int,
)
    requires
        forall|j: int|
            0 <= j < s.len() ==> match #[trigger] s[j] {
                Some(f) => !f.fsm.stopped && f.fsm.priority == hpri && is_hot_at(f, now, dur),
                None => false,
            },
        forall|j: int| 0 <= j < s.len() ==> classified(s, hpri, now, dur, j),
        0 <= i <= s.len(),
    ensures
        hot_count(s, hpri, now, dur, i) == i,
        schedule_count(s, i) == i / 2,
    decreases i,
{
    if i > 0 {
        lemma_hot_rebalancing(s, hpri, now, dur, i - 1);
        assert(classified(s, hpri, now, dur, i - 1));
        assert(hot_count(s, hpri, now, dur, i) == i);
        let f = s[i - 1]->Some_0;
        if i % 2 == 0 {
            assert(f.policy == Some(ReschedulePolicy::Schedule));
        } else {
            assert(f.policy is None || f.policy matches Some(ReschedulePolicy::Release(_)));
        }
    }
}

/// The classification given to an FSM admitted in the middle of a round:
/// it has just arrived, so the hot and priority checks do not apply.
pub open spec fn intake_ok(s: Seq<Option<NormalFsm>>, i: int) -> bool {
    match s[i] {
        None => true,
        Some(f) => {
            if f.fsm.stopped {
                f.policy == Some(ReschedulePolicy::Remove)
            } else {
                f.policy is None || f.policy matches Some(ReschedulePolicy::Release(_))
            }
        },
    }
}

/// Every slot is occupied.
pub open spec fn dense(s: Seq<Option<NormalFsm>>) -> bool {
    forall|i: int| 0 <= i < s.len() ==> (#[trigger] s[i]).is_some()
}

/// No slot carries a disposition.
pub open spec fn no_policies(s: Seq<Option<NormalFsm>>) -> bool {
    forall|i: int|
        0 <= i < s.len() ==> match #[trigger] s[i] {
            Some(f) => f.policy.is_none(),
            None => true,
        }
}

/// Index `i` stands somewhere in the list `r`.
pub open spec fn listed(r: Seq<usize>, i: int) -> bool {
    exists|k: int| 0 <= k < r.len() && r[k] == i
}

/// Index `i` stands among the first `k` entries of the list `r`.
pub open spec fn listed_take(r: Seq<usize>, k: int, i: int) -> bool {
    exists|kk: int| 0 <= kk < k && kk < r.len() && r[kk] == i
}

/// The list is strictly increasing.
pub open spec fn strictly_inc(r: Seq<usize>) -> bool {
    forall|k: int, l: int| 0 <= k < l < r.len() ==> #[trigger] r[k] < #[trigger] r[l]
}

/// Every index of the list names a slot of the batch.
pub open spec fn indices_below(r: Seq<usize>, len: int) -> bool {
    forall|k: int| 0 <= k < r.len() ==> (#[trigger] r[k]) < len
}

/// Every slot that carries a disposition is listed for the end-of-round
/// sweep: nothing classified is forgotten.
pub open spec fn policies_listed(s: Seq<Option<NormalFsm>>, r: Seq<usize>) -> bool {
    forall|i: int|
        0 <= i < s.len() ==> match #[trigger] s[i] {
            Some(f) => f.policy.is_some() ==> listed(r, i),
            None => true,
        }
}

/// What a handler hook that sees the whole batch may do to it: advance the
/// FSMs, but neither move, drop nor re-classify them. Occupancy, address,
/// entry time, round count and disposition stay; the FSM state itself may
/// change.
pub open spec fn same_shape(s1: Seq<Option<NormalFsm>>, s2: Seq<Option<NormalFsm>>) -> bool {
    &&& s1.len() == s2.len()
    &&& forall|i: int|
        0 <= i < s1.len() ==> match (s1[i], #[trigger] s2[i]) {
            (Some(x), Some(y)) => x.fsm.addr == y.fsm.addr && x.timer == y.timer && x.round
                == y.round && x.policy == y.policy,
            (None, None) => true,
            _ => false,
        }
}

/// What one `handle_normal` sweep may do to the batch: advance and
/// re-classify the FSMs, but neither move nor drop them. Occupancy,
/// address, entry time and round count stay; FSM state and disposition may
/// change.
pub open spec fn same_core(s1: Seq<Option<NormalFsm>>, s2: Seq<Option<NormalFsm>>) -> bool {
    &&& s1.len() == s2.len()
    &&& forall|i: int|
        0 <= i < s1.len() ==> match (s1[i], #[trigger] s2[i]) {
            (Some(x), Some(y)) => x.fsm.addr == y.fsm.addr && x.timer == y.timer && x.round
                == y.round,
            (None, None) => true,
            _ => false,
        }
}

/// `hot_count` reads only the slots before `i`: sequences that agree there
/// agree on it.
pub proof fn lemma_hot_count_prefix(
    s1: Seq<Option<NormalFsm>>,
    s2: Seq<Option<NormalFsm>>,
    hpri: Priority,
    now: u64,
    dur: u64,
    i: int,
)
    requires
        0 <= i <= s1.len(),
        i <= s2.len(),
        forall|j: int| 0 <= j < i ==> s1[j] == s2[j],
    ensures
        hot_count(s1, hpri, now, dur, i) == hot_count(s2, hpri, now, dur, i),
    decreases i,
{
    if i > 0 {
        lemma_hot_count_prefix(s1, s2, hpri, now, dur, i - 1);
    }
}

/// One step of `hot_count`: the count up to `i + 1` adds slot `i`'s
/// contribution.
pub proof fn lemma_hot_count_unfold(
    s: Seq<Option<NormalFsm>>,
    hpri: Priority,
    now: u64,
    dur: u64,
    i: int,
)
    requires
        i >= 0,
    ensures
        hot_count(s, hpri, now, dur, i + 1) == hot_count(s, hpri, now, dur, i) + (match s[i] {
            Some(f) => if !f.fsm.stopped && f.fsm.priority == hpri && is_hot_at(f, now, dur) {
                1int
            } else {
                0int
            },
            None => 0int,
        }),
{
}

/// The weaker shape relation the disposal bookkeeping needs: occupancy,
/// address and disposition agree slot by slot. Both a handler hook that
/// keeps `same_shape` and the round-counter tick satisfy it.
pub open spec fn same_policy_map(s1: Seq<Option<NormalFsm>>, s2: Seq<Option<NormalFsm>>) -> bool {
    &&& s1.len() == s2.len()
    &&& forall|i: int|
        0 <= i < s1.len() ==> match (s1[i], #[trigger] s2[i]) {
            (Some(x), Some(y)) => x.fsm.addr == y.fsm.addr && x.policy == y.policy,
            (None, None) => true,
            _ => false,
        }
}

/// The disposition `Batch::schedule` fixes for a slot that holds a
/// release policy at progress `l`, seen on the slot and the FSM's mailbox:
/// with the mailbox length still `l` the mailbox keeps the FSM and the
/// slot empties; a longer log means a producer delivered more, so the FSM
/// is taken straight back and the slot is restored with its policy
/// cleared.
pub open spec fn released_slot(
    x: NormalFsm,
    l: usize,
    mb0: BasicMailbox,
    slot1: Option<NormalFsm>,
    mb1: BasicMailbox,
) -> bool {
    &&& mb1.msgs@ == mb0.msgs@
    &&& if mb0.msgs@.len() == l {
        slot1 is None && mb1.fsm == Some(x.fsm)
    } else {
        slot1 == Some(cleared(x)) && mb1.fsm.is_none()
    }
}

/// What one fetch does when the batch holds no control FSM, seen on the
/// queue the worker of `pri` reads: an empty queue changes nothing, and
/// the worker has work only if the batch already does; otherwise the
/// queue head is consumed and lands in the batch per its kind, with the
/// shutdown sentinel reporting no more work.
pub open spec fn fetched_from(
    r0: Router,
    r1: Router,
    b0: Batch,
    b1: Batch,
    pri: Priority,
    now: u64,
    found: bool,
) -> bool {
    let q0 = if pri == Priority::Low {
        r0.low_queue@
    } else {
        r0.normal_queue@
    };
    let q1 = if pri == Priority::Low {
        r1.low_queue@
    } else {
        r1.normal_queue@
    };
    let other0 = if pri == Priority::Low {
        r0.normal_queue@
    } else {
        r0.low_queue@
    };
    let other1 = if pri == Priority::Low {
        r1.normal_queue@
    } else {
        r1.low_queue@
    };
    &&& other1 == other0
    &&& if q0.len() == 0 {
        &&& q1 == q0
        &&& b1.normals@ == b0.normals@
        &&& b1.control == b0.control
        &&& found == (b0.normals@.len() > 0)
    } else {
        &&& q1 == q0.drop_first()
        &&& match q0[0] {
            FsmTypes::Normal(f, _) => {
                &&& found
                &&& b1.normals@ == b0.normals@.push(
                    Some(NormalFsm { fsm: f, timer: now, round: 0, policy: None }),
                )
                &&& b1.control == b0.control
            },
            FsmTypes::Control(c, _) => {
                &&& found
                &&& b1.normals@ == b0.normals@
                &&& b1.control == Some(c)
            },
            FsmTypes::Empty => {
                &&& !found
                &&& b1.normals@ == b0.normals@
                &&& b1.control == b0.control
            },
        }
    }
}

/// Applies the handler's verdict to a batched FSM standing at slot
/// `index`: `KeepProcessing` leaves the slot undecided, so the FSM stays
/// in the batch; `StopAt { progress, skip_end }` marks the slot for
/// release at that progress and records the index for the end-of-round
/// sweep — and, when `skip_end` asks, for disposal before the `end` hook.
pub fn apply_handle_result(
    p: &mut NormalFsm,
    res: HandleResult,
    index: usize,
    reschedule: &mut Vec<usize>,
    to_skip_end: &mut Vec<usize>,
)
    ensures
        match res {
            HandleResult::KeepProcessing => {
                &&& *final(p) == *old(p)
                &&& final(reschedule)@ == old(reschedule)@
                &&& final(to_skip_end)@ == old(to_skip_end)@
            },
            HandleResult::StopAt { progress, skip_end } => {
                &&& *final(p) == (NormalFsm {
                    policy: Some(ReschedulePolicy::Release(progress)),
                    ..*old(p)
                })
                &&& final(reschedule)@ == old(reschedule)@.push(index)
                &&& if skip_end {
                    final(to_skip_end)@ == old(to_skip_end)@.push(index)
                } else {
                    final(to_skip_end)@ == old(to_skip_end)@
                }
            },
        },
{
    match res {
        HandleResult::StopAt { progress, skip_end } => {
            p.policy = Some(ReschedulePolicy::Release(progress));
            reschedule.push(index);
            if skip_end {
                to_skip_end.push(index);
            }
        }
        HandleResult::KeepProcessing => {}
    }
}

/// The invariant a poller keeps between steps: the router is well formed,
/// the batch slots name empty mailboxes, no two slots share an address,
/// and every FSM has exactly one owner.
pub open spec fn inv(r: Router, b: Batch) -> bool {
    &&& r.wf()
    &&& b.slots_ok(r)
    &&& b.distinct_addrs()
    &&& unique_owners(r, b)
}

/// The hooks a handler offers the poller, called in a fixed order each
/// round: `begin`, `handle_control` when the control FSM is present,
/// `handle_normal` per batched FSM, `light_end`, `end`, and `pause` before
/// the worker would block. Users of the library implement this trait; the
/// clauses on the hooks say what the poller relies on — a handler advances
/// the FSMs it is given but does not re-address or re-classify them. An
/// implementation that is not itself verified is not held to these
/// clauses; what the poller proves holds of handlers that honor them.
pub trait PollHandler: Sized {
    /// First call of a round, with the size the batch may grow to. A
    /// handler that reads a live configuration returns the refreshed
    /// maximum batch size, latched by the poller for this round on.
    fn begin(&mut self, batch_size_hint: usize) -> (cfg_max: Option<usize>);

    /// Called when the control FSM is present. `Some(len)` asks to release
    /// the control FSM at that progress; `None` keeps it batched for the
    /// next round, unless it is stopped.
    fn handle_control(&mut self, control: &mut Fsm) -> (r: Option<usize>);

    /// Called once per batched normal FSM, in batch order, with the FSM's
    /// message log. The result says whether to keep processing it or to
    /// stop at some progress.
    fn handle_normal(&mut self, normal: &mut Fsm, msgs: &Vec<u64>) -> (r: HandleResult)
        ensures
            final(normal).addr == old(normal).addr,
    ;

    /// Called after all `handle_normal` calls and before `end`; meant for
    /// lightweight work.
    fn light_end(&mut self, batch: &mut Vec<Option<NormalFsm>>)
        ensures
            same_shape(old(batch)@, final(batch)@),
    {
    }

    /// Called at the end of every round, before the classified FSMs are
    /// disposed of; meant for the expensive commit.
    fn end(&mut self, batch: &mut Vec<Option<NormalFsm>>)
        ensures
            same_shape(old(batch)@, final(batch)@),
    ;

    /// Called when the worker is about to block on an empty queue.
    fn pause(&mut self) {
    }

    /// The priority this handler is bound to; an FSM whose priority
    /// differs is re-scheduled towards the right pool.
    fn get_priority(&self) -> (r: Priority) {
        Priority::Normal
    }
}

/// Builds one handler per worker; `build` is called once per worker with
/// the priority of the pool the worker belongs to.
pub trait HandlerBuilder {
    type Handler: PollHandler;

    fn build(&mut self, priority: Priority) -> Self::Handler;
}

/// One worker of the pool: its handler and the knobs of the rescheduling
/// policy.
pub struct Poller<H: PollHandler> {
    /// The handler driven by this worker.
    pub handler: H,
    /// Upper bound on fresh intake per round; refreshed by `begin`.
    pub max_batch_size: usize,
    /// How long an FSM may be held before it counts as hot.
    pub reschedule_duration: u64,
    /// Which scheduler queue this worker reads.
    pub priority: Priority,
    /// Whether this worker registers itself as joinable when it exits;
    /// only normal-priority workers do.
    pub joinable: bool,
}

impl<H: PollHandler> Poller<H> {
    /// Ensures the batch has work: keeps a held control FSM, otherwise
    /// takes the next queue item. On an empty queue the handler is told to
    /// `pause`; the model treats a queue that stays empty as a closed
    /// channel. Returns false when the worker should stop — it received
    /// the shutdown sentinel, or it has nothing and never will.
    pub fn fetch_fsm(&mut self, batch: &mut Batch, router: &mut Router, now: u64) -> (found: bool)
        requires
            inv(*old(router), *old(batch)),
        ensures
            inv(*final(router), *final(batch)),
            final(self).max_batch_size == old(self).max_batch_size,
            final(self).reschedule_duration == old(self).reschedule_duration,
            final(self).priority == old(self).priority,
            final(self).joinable == old(self).joinable,
            final(router).mailboxes@.len() == old(router).mailboxes@.len(),
            final(router).mailboxes@ == old(router).mailboxes@,
            final(router).control_box == old(router).control_box,
            final(batch).normals@.len() >= old(batch).normals@.len(),
            final(batch).normals@.len() <= old(batch).normals@.len() + 1,
            forall|i: int|
                0 <= i < old(batch).normals@.len() ==> final(batch).normals@[i] == old(
                    batch,
                ).normals@[i],
            forall|i: int|
                old(batch).normals@.len() <= i < final(batch).normals@.len()
                    ==> match #[trigger] final(batch).normals@[i] {
                    Some(f) => f.policy.is_none() && f.round == 0 && f.timer == now,
                    None => false,
                },
            final(batch).control == old(batch).control || old(batch).control.is_none(),
            found ==> final(batch).control.is_some() || final(batch).normals@.len() > 0,
            old(batch).control.is_some() ==> {
                &&& found
                &&& final(batch).normals@ == old(batch).normals@
                &&& final(batch).control == old(batch).control
                &&& final(router).normal_queue@ == old(router).normal_queue@
                &&& final(router).low_queue@ == old(router).low_queue@
            },
            old(batch).control.is_none() ==> fetched_from(
                *old(router),
                *final(router),
                *old(batch),
                *final(batch),
                old(self).priority,
                now,
                found,
            ),
    {
        if batch.control.is_some() {
            return true;
        }
        let item_opt = router.try_recv(self.priority);
        match item_opt {
            Some(item) => {
                let ghost r0 = *old(router);
                let ghost b0 = *old(batch);
                let ghost r1 = *router;
                proof {
                    match item {
                        FsmTypes::Normal(f, t) => {
                            if self.priority is Low {
                                assert(r0.low_queue@[0] == FsmTypes::Normal(f, t));
                            } else {
                                assert(r0.normal_queue@[0] == FsmTypes::Normal(f, t));
                            }
                            lemma_queue_head_exclusive(r0, b0, f, self.priority is Low);
                        }
                        FsmTypes::Control(_, _) => {
                            lemma_control_head_exclusive(r0, b0, self.priority is Low);
                        }
                        FsmTypes::Empty => {}
                    }
                }
                let live = batch.push(item, now);
                proof {
                    let from_low = self.priority is Low;
                    let q0 = if from_low {
                        r0.low_queue@
                    } else {
                        r0.normal_queue@
                    };
                    match item {
                        FsmTypes::Normal(f, _) => {
                            let nf = NormalFsm { fsm: f, timer: now, round: 0, policy: None };
                            assert forall|a: nat|
                                a < router.mailboxes@.len() implies #[trigger] owners(
                                *router,
                                *batch,
                                a,
                            ) == 1 by {
                                lemma_count_first(q0, item_contrib(a));
                                lemma_count_push(b0.normals@, Some(nf), slot_contrib(a));
                                assert(owners(r0, b0, a) == 1);
                            }
                            lemma_count_first(q0, control_contrib());
                            assert(control_owners(*router, *batch) == 1);
                            assert(batch.slots_ok(*router));
                            assert(batch.distinct_addrs());
                            assert(inv(*router, *batch));
                        }
                        FsmTypes::Control(_, _) => {
                            assert forall|a: nat|
                                a < router.mailboxes@.len() implies #[trigger] owners(
                                *router,
                                *batch,
                                a,
                            ) == 1 by {
                                lemma_count_first(q0, item_contrib(a));
                                assert(owners(r0, b0, a) == 1);
                            }
                            lemma_count_first(q0, control_contrib());
                            assert(control_owners(*router, *batch) == 1);
                            assert(batch.slots_ok(*router));
                            assert(batch.distinct_addrs());
                            assert(inv(*router, *batch));
                        }
                        FsmTypes::Empty => {
                            assert forall|a: nat|
                                a < router.mailboxes@.len() implies #[trigger] owners(
                                *router,
                                *batch,
                                a,
                            ) == 1 by {
                                lemma_count_first(q0, item_contrib(a));
                                assert(owners(r0, b0, a) == 1);
                            }
                            lemma_count_first(q0, control_contrib());
                            assert(control_owners(*router, *batch) == 1);
                            assert(batch.slots_ok(*router));
                            assert(batch.distinct_addrs());
                            assert(inv(*router, *batch));
                        }
                    }
                }
                live
            }
            None => {
                proof {
                    lemma_unique_same(*old(router), *router, *old(batch), *batch);
                }
                if batch.is_empty() {
                    self.handler.pause();
                    // A blocking receive would stand here; in this model no
                    // producer can act while the worker waits, so an empty
                    // queue means the worker is done.
                }
                !batch.is_empty()
            }
        }
    }

    /// Runs `handle_normal` over every batched FSM, in batch order, and
    /// classifies each one: stopped FSMs are marked for removal, FSMs
    /// bound to the other pool and every second hot FSM are marked for
    /// re-scheduling, and FSMs the handler stopped at some progress are
    /// marked for release. The classified indices are collected, in
    /// increasing order, for the end-of-round sweep; those that should not
    /// see the `end` hook are collected separately.
    pub fn run_normals(
        &mut self,
        batch: &mut Batch,
        router: &Router,
        reschedule: &mut Vec<usize>,
        to_skip_end: &mut Vec<usize>,
        hpri: Priority,
        now: u64,
    )
        requires
            router.wf(),
            old(batch).slots_ok(*router),
            old(batch).distinct_addrs(),
            dense(old(batch).normals@),
            no_policies(old(batch).normals@),
            old(reschedule)@.len() == 0,
            old(to_skip_end)@.len() == 0,
        ensures
            final(self).max_batch_size == old(self).max_batch_size,
            final(self).reschedule_duration == old(self).reschedule_duration,
            final(self).priority == old(self).priority,
            final(self).joinable == old(self).joinable,
            final(batch).control == old(batch).control,
            same_core(old(batch).normals@, final(batch).normals@),
            dense(final(batch).normals@),
            final(batch).slots_ok(*router),
            final(batch).distinct_addrs(),
            forall|i: int|
                0 <= i < final(batch).normals@.len() ==> classified(
                    final(batch).normals@,
                    hpri,
                    now,
                    old(self).reschedule_duration,
                    i,
                ),
            strictly_inc(final(reschedule)@),
            indices_below(final(reschedule)@, final(batch).normals@.len() as int),
            policies_listed(final(batch).normals@, final(reschedule)@),
            indices_below(final(to_skip_end)@, final(batch).normals@.len() as int),
            forall|kk: int|
                0 <= kk < final(to_skip_end)@.len() ==> listed(
                    final(reschedule)@,
                    final(to_skip_end)@[kk] as int,
                ),
            forall|kk: int|
                0 <= kk < final(to_skip_end)@.len() ==> match final(batch).normals@[(
                #[trigger] final(to_skip_end)@[kk]) as int] {
                    Some(f) => f.policy matches Some(ReschedulePolicy::Release(_)),
                    None => false,
                },
    {
        let n = batch.normals.len();
        let dur = self.reschedule_duration;
        let mut i: usize = 0;
        let mut hot_fsm_count: usize = 0;
        while i < n
            invariant
                i <= n,
                n == batch.normals@.len(),
                router.wf(),
                batch.control == old(batch).control,
                old(batch).normals@.len() == n,
                dur == old(self).reschedule_duration,
                self.max_batch_size == old(self).max_batch_size,
                self.reschedule_duration == old(self).reschedule_duration,
                self.priority == old(self).priority,
                self.joinable == old(self).joinable,
                same_core(old(batch).normals@, batch.normals@),
                dense(batch.normals@),
                batch.slots_ok(*router),
                batch.distinct_addrs(),
                forall|j: int| i <= j < n ==> batch.normals@[j] == old(batch).normals@[j],
                forall|j: int|
                    i <= j < n ==> match #[trigger] batch.normals@[j] {
                        Some(f) => f.policy.is_none(),
                        None => true,
                    },
                forall|j: int| 0 <= j < i ==> classified(batch.normals@, hpri, now, dur, j),
                hot_fsm_count == hot_count(batch.normals@, hpri, now, dur, i as int),
                hot_fsm_count <= i,
                strictly_inc(reschedule@),
                forall|k: int| 0 <= k < reschedule@.len() ==> (#[trigger] reschedule@[k]) < i,
                policies_listed(batch.normals@, reschedule@),
                forall|k: int| 0 <= k < to_skip_end@.len() ==> (#[trigger] to_skip_end@[k]) < i,
                forall|kk: int|
                    0 <= kk < to_skip_end@.len() ==> listed(
                        reschedule@,
                        to_skip_end@[kk] as int,
                    ),
                forall|kk: int|
                    0 <= kk < to_skip_end@.len() ==> match batch.normals@[(
                    #[trigger] to_skip_end@[kk]) as int] {
                        Some(f) => f.policy matches Some(ReschedulePolicy::Release(_)),
                        None => false,
                    },
            decreases n - i,
        {
            let ghost pre_seq = batch.normals@;
            let ghost pre_resched = reschedule@;
            let ghost pre_skip = to_skip_end@;
            let slot: Option<NormalFsm> = batch.normals[i];
            let mut p = slot.unwrap();
            let addr = p.fsm.addr;
            proof {
                assert(addr < router.mailboxes@.len());
            }
            let msgs = &router.mailboxes[addr].msgs;
            let res = self.handler.handle_normal(&mut p.fsm, msgs);
            if p.fsm.is_stopped() {
                p.policy = Some(ReschedulePolicy::Remove);
                batch.normals[i] = Some(p);
                reschedule.push(i);
            } else if p.fsm.get_priority() != hpri {
                p.policy = Some(ReschedulePolicy::Schedule);
                batch.normals[i] = Some(p);
                reschedule.push(i);
            } else {
                let el = if now >= p.timer {
                    now - p.timer
                } else {
                    0
                };
                let mut rescheduled_hot = false;
                if el >= dur {
                    hot_fsm_count += 1;
                    // Only every second hot FSM moves: re-scheduling all of
                    // them could let the next poll fetch the same hot set
                    // as one cohort again.
                    if hot_fsm_count % 2 == 0 {
                        p.policy = Some(ReschedulePolicy::Schedule);
                        batch.normals[i] = Some(p);
                        reschedule.push(i);
                        rescheduled_hot = true;
                    }
                }
                if !rescheduled_hot {
                    apply_handle_result(&mut p, res, i, reschedule, to_skip_end);
                    batch.normals[i] = Some(p);
                }
            }
            proof {
                let cur = batch.normals@;
                lemma_hot_count_prefix(pre_seq, cur, hpri, now, dur, i as int);
                lemma_hot_count_unfold(cur, hpri, now, dur, i as int);
                assert(hot_fsm_count == hot_count(cur, hpri, now, dur, i as int + 1));
                assert(classified(cur, hpri, now, dur, i as int));
                assert forall|j: int| 0 <= j < i implies classified(cur, hpri, now, dur, j) by {
                    lemma_hot_count_prefix(pre_seq, cur, hpri, now, dur, j + 1);
                    assert(classified(pre_seq, hpri, now, dur, j));
                }
                assert forall|j: int|
                    0 <= j < batch.normals@.len() implies match #[trigger] batch.normals@[j] {
                    Some(f) => f.policy.is_some() ==> listed(reschedule@, j),
                    None => true,
                } by {
                    match batch.normals@[j] {
                        Some(f) => {
                            if f.policy.is_some() {
                                if j == i && reschedule@.len() > 0 && reschedule@[reschedule@.len()
                                    - 1] == i {
                                    assert(listed(reschedule@, j));
                                } else {
                                    assert(listed(pre_resched, j));
                                    let k = choose|k: int|
                                        0 <= k < pre_resched.len() && pre_resched[k] == j;
                                    assert(reschedule@[k] == j);
                                }
                            }
                        }
                        None => {}
                    }
                }
                assert forall|kk: int|
                    0 <= kk < to_skip_end@.len() implies listed(
                    reschedule@,
                    to_skip_end@[kk] as int,
                ) by {
                    if kk < pre_skip.len() {
                        assert(listed(pre_resched, pre_skip[kk] as int));
                        let w = choose|w: int|
                            0 <= w < pre_resched.len() && pre_resched[w] == pre_skip[kk];
                        assert(reschedule@[w] == to_skip_end@[kk]);
                    } else {
                        assert(to_skip_end@[kk] == i);
                        assert(reschedule@[reschedule@.len() - 1] == i);
                    }
                }
            }
            i += 1;
        }
    }

    /// Admits freshly arrived FSMs until the batch reaches `max_batch_size`,
    /// running `handle_normal` on each at once. A fresh FSM has just
    /// arrived, so only the stopped and stop-at classifications apply.
    /// Stops early on an empty queue, on the shutdown sentinel (returning
    /// false), or when the control FSM arrives — the control FSM changes
    /// handler state and is dealt with at the top of the next round.
    #[verifier::rlimit(60)]
    pub fn fill_batch(
        &mut self,
        batch: &mut Batch,
        router: &mut Router,
        reschedule: &mut Vec<usize>,
        to_skip_end: &mut Vec<usize>,
        max_batch_size: usize,
        now: u64,
    ) -> (run: bool)
        requires
            inv(*old(router), *old(batch)),
            dense(old(batch).normals@),
            strictly_inc(old(reschedule)@),
            indices_below(old(reschedule)@, old(batch).normals@.len() as int),
            policies_listed(old(batch).normals@, old(reschedule)@),
            indices_below(old(to_skip_end)@, old(batch).normals@.len() as int),
            forall|kk: int|
                0 <= kk < old(to_skip_end)@.len() ==> listed(
                    old(reschedule)@,
                    old(to_skip_end)@[kk] as int,
                ),
            forall|kk: int|
                0 <= kk < old(to_skip_end)@.len() ==> match old(batch).normals@[(
                #[trigger] old(to_skip_end)@[kk]) as int] {
                    Some(f) => f.policy matches Some(ReschedulePolicy::Release(_)),
                    None => false,
                },
        ensures
            inv(*final(router), *final(batch)),
            final(self).max_batch_size == old(self).max_batch_size,
            final(self).reschedule_duration == old(self).reschedule_duration,
            final(self).priority == old(self).priority,
            final(self).joinable == old(self).joinable,
            final(router).mailboxes@ == old(router).mailboxes@,
            final(router).control_box == old(router).control_box,
            dense(final(batch).normals@),
            final(batch).normals@.len() >= old(batch).normals@.len(),
            final(batch).normals@.len() <= (if old(batch).normals@.len() > max_batch_size {
                old(batch).normals@.len()
            } else {
                max_batch_size as nat
            }),
            forall|i: int|
                0 <= i < old(batch).normals@.len() ==> final(batch).normals@[i] == old(
                    batch,
                ).normals@[i],
            forall|i: int|
                old(batch).normals@.len() <= i < final(batch).normals@.len() ==> intake_ok(
                    final(batch).normals@,
                    i,
                ),
            strictly_inc(final(reschedule)@),
            indices_below(final(reschedule)@, final(batch).normals@.len() as int),
            policies_listed(final(batch).normals@, final(reschedule)@),
            indices_below(final(to_skip_end)@, final(batch).normals@.len() as int),
            final(batch).control == old(batch).control || old(batch).control.is_none(),
            forall|kk: int|
                0 <= kk < final(to_skip_end)@.len() ==> listed(
                    final(reschedule)@,
                    final(to_skip_end)@[kk] as int,
                ),
            forall|kk: int|
                0 <= kk < final(to_skip_end)@.len() ==> match final(batch).normals@[(
                #[trigger] final(to_skip_end)@[kk]) as int] {
                    Some(f) => f.policy matches Some(ReschedulePolicy::Release(_)),
                    None => false,
                },
    {
        let ghost n0 = old(batch).normals@.len();
        let mut run = true;
        let mut fsm_cnt = batch.normals.len();
        while batch.normals.len() < max_batch_size
            invariant
                fsm_cnt == batch.normals@.len(),
                inv(*router, *batch),
                dense(batch.normals@),
                self.max_batch_size == old(self).max_batch_size,
                self.reschedule_duration == old(self).reschedule_duration,
                self.priority == old(self).priority,
                self.joinable == old(self).joinable,
                router.mailboxes@ == old(router).mailboxes@,
                router.control_box == old(router).control_box,
                batch.normals@.len() >= n0,
                batch.normals@.len() <= (if n0 > max_batch_size {
                    n0
                } else {
                    max_batch_size as nat
                }),
                forall|i: int|
                    0 <= i < n0 ==> batch.normals@[i] == old(batch).normals@[i],
                forall|i: int| n0 <= i < batch.normals@.len() ==> intake_ok(batch.normals@, i),
                strictly_inc(reschedule@),
                indices_below(reschedule@, batch.normals@.len() as int),
                policies_listed(batch.normals@, reschedule@),
                indices_below(to_skip_end@, batch.normals@.len() as int),
                batch.control == old(batch).control || old(batch).control.is_none(),
                forall|kk: int|
                    0 <= kk < to_skip_end@.len() ==> listed(
                        reschedule@,
                        to_skip_end@[kk] as int,
                    ),
                forall|kk: int|
                    0 <= kk < to_skip_end@.len() ==> match batch.normals@[(
                    #[trigger] to_skip_end@[kk]) as int] {
                        Some(f) => f.policy matches Some(ReschedulePolicy::Release(_)),
                        None => false,
                    },
            decreases max_batch_size - batch.normals@.len(),
        {
            let ghost r_pre = *router;
            let ghost b_pre = *batch;
            let item_opt = router.try_recv(self.priority);
            let item = match item_opt {
                Some(item) => item,
                None => {
                    proof {
                        lemma_unique_same(r_pre, *router, b_pre, *batch);
                    }
                    break ;
                }
            };
            proof {
                match item {
                    FsmTypes::Normal(f, t) => {
                        if self.priority is Low {
                            assert(r_pre.low_queue@[0] == FsmTypes::Normal(f, t));
                        } else {
                            assert(r_pre.normal_queue@[0] == FsmTypes::Normal(f, t));
                        }
                        lemma_queue_head_exclusive(r_pre, b_pre, f, self.priority is Low);
                    }
                    FsmTypes::Control(_, _) => {
                        lemma_control_head_exclusive(r_pre, b_pre, self.priority is Low);
                    }
                    FsmTypes::Empty => {}
                }
            }
            run = batch.push(item, now);
            proof {
                let from_low = self.priority is Low;
                let q0 = if from_low {
                    r_pre.low_queue@
                } else {
                    r_pre.normal_queue@
                };
                match item {
                    FsmTypes::Normal(f, _) => {
                        let nf = NormalFsm { fsm: f, timer: now, round: 0, policy: None };
                        assert forall|a: nat|
                            a < router.mailboxes@.len() implies #[trigger] owners(
                            *router,
                            *batch,
                            a,
                        ) == 1 by {
                            lemma_count_first(q0, item_contrib(a));
                            lemma_count_push(b_pre.normals@, Some(nf), slot_contrib(a));
                            assert(owners(r_pre, b_pre, a) == 1);
                        }
                        lemma_count_first(q0, control_contrib());
                        assert(control_owners(*router, *batch) == 1);
                        assert(batch.slots_ok(*router));
                        assert(batch.distinct_addrs());
                    }
                    FsmTypes::Control(_, _) => {
                        assert forall|a: nat|
                            a < router.mailboxes@.len() implies #[trigger] owners(
                            *router,
                            *batch,
                            a,
                        ) == 1 by {
                            lemma_count_first(q0, item_contrib(a));
                            assert(owners(r_pre, b_pre, a) == 1);
                        }
                        lemma_count_first(q0, control_contrib());
                        assert(control_owners(*router, *batch) == 1);
                    }
                    FsmTypes::Empty => {
                        assert forall|a: nat|
                            a < router.mailboxes@.len() implies #[trigger] owners(
                            *router,
                            *batch,
                            a,
                        ) == 1 by {
                            lemma_count_first(q0, item_contrib(a));
                            assert(owners(r_pre, b_pre, a) == 1);
                        }
                        lemma_count_first(q0, control_contrib());
                        assert(control_owners(*router, *batch) == 1);
                    }
                }
            }
            if !run || fsm_cnt >= batch.normals.len() {
                // The sentinel arrived, or the item was the control FSM;
                // either way this round takes no more intake.
                break ;
            }
            let ghost b_mid = *batch;
            let ghost pre_seq = batch.normals@;
            let ghost pre_resched = reschedule@;
            let ghost pre_skip = to_skip_end@;
            let slot: Option<NormalFsm> = batch.normals[fsm_cnt];
            let mut p = slot.unwrap();
            let addr = p.fsm.addr;
            proof {
                assert(addr < router.mailboxes@.len());
            }
            let msgs = &router.mailboxes[addr].msgs;
            let res = self.handler.handle_normal(&mut p.fsm, msgs);
            if p.fsm.is_stopped() {
                p.policy = Some(ReschedulePolicy::Remove);
                batch.normals[fsm_cnt] = Some(p);
                reschedule.push(fsm_cnt);
            } else {
                apply_handle_result(&mut p, res, fsm_cnt, reschedule, to_skip_end);
                batch.normals[fsm_cnt] = Some(p);
            }
            proof {
                assert forall|i: int|
                    n0 <= i < batch.normals@.len() implies intake_ok(batch.normals@, i) by {
                    if i < fsm_cnt {
                        assert(intake_ok(b_pre.normals@, i));
                        assert(batch.normals@[i] == b_pre.normals@[i]);
                    }
                }
                assert forall|j: int|
                    0 <= j < batch.normals@.len() implies match #[trigger] batch.normals@[j] {
                    Some(f) => f.policy.is_some() ==> listed(reschedule@, j),
                    None => true,
                } by {
                    match batch.normals@[j] {
                        Some(f) => {
                            if f.policy.is_some() {
                                if j == fsm_cnt && reschedule@.len() > 0
                                    && reschedule@[reschedule@.len() - 1] == fsm_cnt {
                                    assert(listed(reschedule@, j));
                                } else {
                                    assert(listed(pre_resched, j));
                                    let k = choose|k: int|
                                        0 <= k < pre_resched.len() && pre_resched[k] == j;
                                    assert(reschedule@[k] == j);
                                }
                            }
                        }
                        None => {}
                    }
                }
                assert forall|kk: int|
                    0 <= kk < to_skip_end@.len() implies listed(
                    reschedule@,
                    to_skip_end@[kk] as int,
                ) by {
                    if kk < pre_skip.len() {
                        assert(listed(pre_resched, pre_skip[kk] as int));
                        let w = choose|w: int|
                            0 <= w < pre_resched.len() && pre_resched[w] == pre_skip[kk];
                        assert(reschedule@[w] == to_skip_end@[kk]);
                    } else {
                        assert(to_skip_end@[kk] == fsm_cnt);
                        assert(reschedule@[reschedule@.len() - 1] == fsm_cnt);
                    }
                }
                assert(batch.slots_ok(*router));
                assert(batch.distinct_addrs());
                lemma_unique_same(*router, *router, b_mid, *batch);
            }
            fsm_cnt += 1;
        }
        run
    }

    /// Polls for ready FSMs and drives them through the handler, round by
    /// round, until the shutdown sentinel arrives, the queue is exhausted,
    /// or `rounds` rounds have run — the cap that makes a run of this
    /// sequential model finite where the real worker would wait for more
    /// work. On exit every FSM still at hand is handed back: the control
    /// FSM and the remaining batched FSMs are re-scheduled, so nothing is
    /// lost — ownership of every registered FSM rests in the router again.
    #[verifier::rlimit(60)]
    pub fn poll(&mut self, router: &mut Router, now: u64, rounds: usize)
        requires
            old(router).wf(),
            router_unique(*old(router)),
        ensures
            final(router).wf(),
            router_unique(*final(router)),
            final(router).mailboxes@.len() == old(router).mailboxes@.len(),
            Router::msgs_preserved(*old(router), *final(router)),
            final(self).priority == old(self).priority,
            final(self).reschedule_duration == old(self).reschedule_duration,
            final(self).joinable == old(self).joinable,
    {
        let mut batch = Batch::with_capacity(self.max_batch_size);
        let mut reschedule_fsms: Vec<usize> = Vec::new();
        let mut to_skip_end: Vec<usize> = Vec::new();
        proof {
            lemma_empty_batch_owners(*router, batch);
        }
        let mut rounds_left = rounds;
        let mut run = true;
        while run && rounds_left > 0
            invariant
                inv(*router, batch),
                dense(batch.normals@),
                no_policies(batch.normals@),
                reschedule_fsms@.len() == 0,
                to_skip_end@.len() == 0,
                router.mailboxes@.len() == old(router).mailboxes@.len(),
                Router::msgs_preserved(*old(router), *router),
                self.priority == old(self).priority,
                self.reschedule_duration == old(self).reschedule_duration,
                self.joinable == old(self).joinable,
            decreases rounds_left,
        {
            if !self.fetch_fsm(&mut batch, router, now) {
                break ;
            }
            // An oversized batch inherited from a hot round is honored
            // rather than truncated.
            let mut max_batch_size = if self.max_batch_size > batch.normals.len() {
                self.max_batch_size
            } else {
                batch.normals.len()
            };
            match self.handler.begin(max_batch_size) {
                Some(refreshed) => {
                    self.max_batch_size = refreshed;
                }
                None => {}
            }
            max_batch_size = if self.max_batch_size > batch.normals.len() {
                self.max_batch_size
            } else {
                batch.normals.len()
            };
            self.run_control(&mut batch, router);
            let hpri = self.handler.get_priority();
            let ghost b_rn = batch;
            let ghost r_rn = *router;
            self.run_normals(
                &mut batch,
                router,
                &mut reschedule_fsms,
                &mut to_skip_end,
                hpri,
                now,
            );
            proof {
                lemma_unique_same(r_rn, *router, b_rn, batch);
            }
            run = self.fill_batch(
                &mut batch,
                router,
                &mut reschedule_fsms,
                &mut to_skip_end,
                max_batch_size,
                now,
            );
            let ghost b_le = batch;
            self.handler.light_end(&mut batch.normals);
            proof {
                assert(same_policy_map(b_le.normals@, batch.normals@));
                Self::lemma_shape_bridge(*router, b_le, batch, reschedule_fsms@, to_skip_end@);
                assert forall|i: int|
                    0 <= i < batch.normals@.len() implies (#[trigger] batch.normals@[i]).is_some()
                    by {
                    assert(b_le.normals@[i].is_some());
                }
            }
            let ghost b_ds = batch;
            proof {
                assert forall|i: int|
                    0 <= i < batch.normals@.len() && listed(to_skip_end@, i) implies match
                    batch.normals@[i] {
                    Some(x) => x.policy is None || x.policy matches Some(
                        ReschedulePolicy::Release(_),
                    ),
                    None => true,
                } by {
                    let kk = choose|kk: int|
                        0 <= kk < to_skip_end@.len() && to_skip_end@[kk] == i;
                    assert(match b_le.normals@[to_skip_end@[kk] as int] {
                        Some(f) => f.policy matches Some(ReschedulePolicy::Release(_)),
                        None => false,
                    });
                }
            }
            dispose_skip_end(&mut batch, router, &to_skip_end, now);
            proof {
                assert forall|i: int|
                    0 <= i < batch.normals@.len() implies match #[trigger] batch.normals@[i] {
                    Some(f) => f.policy.is_some() ==> listed(reschedule_fsms@, i),
                    None => listed(reschedule_fsms@, i),
                } by {
                    match b_ds.normals@[i] {
                        Some(x) => {
                            match batch.normals@[i] {
                                Some(y) => {
                                    if y.policy.is_some() {
                                        assert(y == x);
                                    }
                                }
                                None => {
                                    assert(listed(to_skip_end@, i));
                                    let w = choose|w: int|
                                        0 <= w < to_skip_end@.len() && to_skip_end@[w] == i;
                                    assert(listed(
                                        reschedule_fsms@,
                                        to_skip_end@[w] as int,
                                    ));
                                }
                            }
                        }
                        None => {}
                    }
                }
            }
            to_skip_end.clear();
            let ghost b_en = batch;
            self.handler.end(&mut batch.normals);
            proof {
                assert(same_policy_map(b_en.normals@, batch.normals@));
                Self::lemma_shape_bridge(*router, b_en, batch, reschedule_fsms@, to_skip_end@);
                Self::lemma_none_bridge(b_en, batch, reschedule_fsms@);
            }
            let ghost b_tk = batch;
            batch.tick_round();
            proof {
                assert(same_policy_map(b_tk.normals@, batch.normals@));
                Self::lemma_shape_bridge(*router, b_tk, batch, reschedule_fsms@, to_skip_end@);
                Self::lemma_none_bridge(b_tk, batch, reschedule_fsms@);
            }
            dispose_reclaim(&mut batch, router, &reschedule_fsms, now);
            reschedule_fsms.clear();
            rounds_left -= 1;
        }
        // Hand everything still held back to the router before exiting.
        if batch.control.is_some() {
            let ghost b_ctl = batch;
            let c = batch.control.unwrap();
            batch.control = None;
            let ghost r_pc = *router;
            router.schedule_control(c, now);
            proof {
                assert forall|a: nat|
                    a < router.mailboxes@.len() implies #[trigger] owners(*router, batch, a)
                    == 1 by {
                    lemma_count_push(r_pc.normal_queue@, FsmTypes::Control(c, now), item_contrib(a));
                    assert(owners(r_pc, b_ctl, a) == 1);
                }
                lemma_count_push(r_pc.normal_queue@, FsmTypes::Control(c, now), control_contrib());
                assert(control_owners(r_pc, b_ctl) == 1);
                assert(control_owners(*router, batch) == 1);
                assert(batch.slots_ok(*router));
                assert(batch.distinct_addrs());
            }
        }
        let n = batch.normals.len();
        let mut i: usize = 0;
        while i < n
            invariant
                i <= n,
                n == batch.normals@.len(),
                inv(*router, batch),
                batch.control.is_none(),
                forall|j: int| 0 <= j < i ==> (#[trigger] batch.normals@[j]).is_none(),
                forall|j: int| i <= j < n ==> (#[trigger] batch.normals@[j]).is_some(),
                router.mailboxes@.len() == old(router).mailboxes@.len(),
                Router::msgs_preserved(*old(router), *router),
                self.priority == old(self).priority,
                self.reschedule_duration == old(self).reschedule_duration,
                self.joinable == old(self).joinable,
            decreases n - i,
        {
            let slotv = batch.normals[i].unwrap();
            let ghost b_pre = batch;
            let ghost r_pre = *router;
            batch.normals[i] = None;
            let ghost b_mid = batch;
            proof {
                assert(slotv.fsm.addr < router.mailboxes@.len());
            }
            router.schedule_normal(slotv.fsm, now);
            proof {
                assert forall|a: nat|
                    a < router.mailboxes@.len() implies #[trigger] owners(*router, batch, a)
                    == 1 by {
                    lemma_count_update(b_pre.normals@, i as int, None, slot_contrib(a));
                    if slotv.fsm.priority == Priority::Normal {
                        lemma_count_push(
                            r_pre.normal_queue@,
                            FsmTypes::Normal(slotv.fsm, now),
                            item_contrib(a),
                        );
                    } else {
                        lemma_count_push(
                            r_pre.low_queue@,
                            FsmTypes::Normal(slotv.fsm, now),
                            item_contrib(a),
                        );
                    }
                    assert(owners(r_pre, b_pre, a) == 1);
                }
                if slotv.fsm.priority == Priority::Normal {
                    lemma_count_push(
                        r_pre.normal_queue@,
                        FsmTypes::Normal(slotv.fsm, now),
                        control_contrib(),
                    );
                } else {
                    lemma_count_push(
                        r_pre.low_queue@,
                        FsmTypes::Normal(slotv.fsm, now),
                        control_contrib(),
                    );
                }
                assert(control_owners(*router, batch) == 1);
                assert(batch.slots_ok(*router));
                assert(batch.distinct_addrs());
            }
            i += 1;
        }
        let ghost b_fin = batch;
        batch.clear();
        proof {
            assert forall|a: nat|
                a < router.mailboxes@.len() implies #[trigger] owners(*router, batch, a) == 1 by {
                crate::ownership::lemma_count_all_zero(b_fin.normals@, slot_contrib(a));
                assert(crate::ownership::count_seq(batch.normals@, slot_contrib(a)) == 0);
                assert(owners(*router, b_fin, a) == 1);
            }
            assert(control_owners(*router, batch) == 1);
            lemma_empty_batch_owners(*router, batch);
        }
    }

    /// Transfers the poller's batch facts across a handler hook that kept
    /// the batch's shape.
    proof fn lemma_shape_bridge(
        r: Router,
        b1: Batch,
        b2: Batch,
        resched: Seq<usize>,
        skip: Seq<usize>,
    )
        requires
            inv(r, b1),
            same_policy_map(b1.normals@, b2.normals@),
            b1.control == b2.control,
            policies_listed(b1.normals@, resched),
            indices_below(resched, b1.normals@.len() as int),
            indices_below(skip, b1.normals@.len() as int),
        ensures
            inv(r, b2),
            policies_listed(b2.normals@, resched),
            indices_below(resched, b2.normals@.len() as int),
            indices_below(skip, b2.normals@.len() as int),
    {
        lemma_unique_same(r, r, b1, b2);
        assert(b2.slots_ok(r));
        assert(b2.distinct_addrs());
        assert forall|i: int|
            0 <= i < b2.normals@.len() implies match #[trigger] b2.normals@[i] {
            Some(f) => f.policy.is_some() ==> listed(resched, i),
            None => true,
        } by {
            match b1.normals@[i] {
                Some(_) => {}
                None => {}
            }
        }
    }

    /// Transfers the record of emptied slots across a hook that kept the
    /// batch's shape.
    proof fn lemma_none_bridge(b1: Batch, b2: Batch, resched: Seq<usize>)
        requires
            same_policy_map(b1.normals@, b2.normals@),
            forall|i: int|
                0 <= i < b1.normals@.len() ==> ((#[trigger] b1.normals@[i]).is_none() ==> listed(
                    resched,
                    i,
                )),
        ensures
            forall|i: int|
                0 <= i < b2.normals@.len() ==> ((#[trigger] b2.normals@[i]).is_none() ==> listed(
                    resched,
                    i,
                )),
    {
    }

    /// Drives the control FSM for one round, when the batch holds it:
    /// calls `handle_control` exactly once and ties the outcome to its
    /// answer. A stopped control FSM is removed — stored away once its
    /// mailbox is drained; an answer of `Some(len)` releases it at that
    /// progress, so it is not driven again until the control mailbox grows
    /// past `len`; otherwise it stays batched for the next round. Returns
    /// the control FSM as the handler left it, with the handler's answer.
    pub fn run_control(&mut self, batch: &mut Batch, router: &mut Router) -> (r: Option<
        (Fsm, Option<usize>),
    >)
        requires
            inv(*old(router), *old(batch)),
        ensures
            inv(*final(router), *final(batch)),
            final(self).max_batch_size == old(self).max_batch_size,
            final(self).reschedule_duration == old(self).reschedule_duration,
            final(self).priority == old(self).priority,
            final(self).joinable == old(self).joinable,
            final(router).mailboxes@ == old(router).mailboxes@,
            final(router).normal_queue@ == old(router).normal_queue@,
            final(router).low_queue@ == old(router).low_queue@,
            final(router).control_box.msgs@ == old(router).control_box.msgs@,
            final(batch).normals@ == old(batch).normals@,
            old(batch).control.is_none() ==> {
                &&& r.is_none()
                &&& final(batch).control == old(batch).control
                &&& final(router).control_box == old(router).control_box
            },
            old(batch).control.is_some() ==> match r {
                None => false,
                Some((c, ans)) => if c.stopped {
                    if c.progress >= old(router).control_box.msgs@.len() {
                        final(batch).control.is_none() && final(router).control_box.fsm
                            == Some(c)
                    } else {
                        final(batch).control == Some(c) && final(router).control_box.fsm
                            == old(router).control_box.fsm
                    }
                } else {
                    match ans {
                        Some(l) => if old(router).control_box.msgs@.len() == l {
                            final(batch).control.is_none()
                                && final(router).control_box.fsm == Some(c)
                        } else {
                            final(batch).control == Some(c)
                                && final(router).control_box.fsm.is_none()
                        },
                        None => final(batch).control == Some(c)
                            && final(router).control_box.fsm == old(router).control_box.fsm,
                    }
                },
            },
    {
        if batch.control.is_none() {
            return None;
        }
        let mut c = batch.control.unwrap();
        let len_opt = self.handler.handle_control(&mut c);
        batch.control = Some(c);
        let ghost b_mid = *batch;
        proof {
            lemma_unique_same(*old(router), *router, *old(batch), b_mid);
            lemma_batch_control_exclusive(*router, b_mid);
        }
        if c.is_stopped() {
            batch.remove_control(&mut router.control_box);
        } else {
            match len_opt {
                Some(l) => {
                    let released = batch.release_control(&mut router.control_box, l);
                    if !released {
                        // New control messages arrived while the handler
                        // ran: the control FSM is back in the batch.
                    }
                }
                None => {}
            }
        }
        proof {
            assert forall|a: nat|
                a < router.mailboxes@.len() implies #[trigger] owners(*router, *batch, a)
                == 1 by {
                assert(owners(*old(router), b_mid, a) == 1);
            }
            assert(control_owners(*router, *batch) == 1);
            assert(batch.slots_ok(*router));
            assert(batch.distinct_addrs());
        }
        Some((c, len_opt))
    }
}

/// What the end-of-round sweep settles on the mailboxes for one listed
/// slot, seen on the state `r1` the sweep produced against the state `r0`
/// it started from: a release parks the FSM in its mailbox exactly when
/// the log still stands at the reported progress; a removal stores a
/// drained stopped FSM away and otherwise keeps it. An undecided slot is
/// simply kept, and a re-scheduled FSM travels on through a queue — where
/// the unique-ownership invariant accounts for it.
#[verifier::opaque]
pub open spec fn disposed_entry(x: NormalFsm, r0: Router, r1: Router, now: u64) -> bool {
    match x.policy {
        None => true,
        Some(ReschedulePolicy::Release(l)) => if r0.mailboxes@[x.fsm.addr
            as int].msgs@.len() == l {
            r1.mailboxes@[x.fsm.addr as int].fsm == Some(x.fsm)
        } else {
            r1.mailboxes@[x.fsm.addr as int].fsm.is_none()
        },
        Some(ReschedulePolicy::Remove) => if x.fsm.progress >= r0.mailboxes@[x.fsm.addr
            as int].msgs@.len() {
            r1.mailboxes@[x.fsm.addr as int].fsm == Some(x.fsm)
        } else {
            r1.mailboxes@[x.fsm.addr as int].fsm.is_none()
        },
        Some(ReschedulePolicy::Schedule) => true,
    }
}

/// Disposes, in list order, of the batched FSMs that should not take part
/// in the `end` hook: each listed slot that carries a release policy is
/// disposed of exactly as `Batch::schedule` fixes, before `end` runs. The
/// batch keeps its length: a released slot is emptied, and one whose FSM
/// was taken straight back keeps it with the policy cleared. Every other
/// slot, mailbox and queue is untouched.
#[verifier::rlimit(60)]
pub fn dispose_skip_end(batch: &mut Batch, router: &mut Router, list: &Vec<usize>, now: u64)
    requires
        inv(*old(router), *old(batch)),
        dense(old(batch).normals@),
        indices_below(list@, old(batch).normals@.len() as int),
        forall|i: int|
            0 <= i < old(batch).normals@.len() && listed(list@, i) ==> match #[trigger] old(
                batch,
            ).normals@[i] {
                Some(x) => x.policy is None || x.policy matches Some(
                    ReschedulePolicy::Release(_),
                ),
                None => true,
            },
    ensures
        inv(*final(router), *final(batch)),
        final(batch).normals@.len() == old(batch).normals@.len(),
        final(batch).control == old(batch).control,
        final(router).mailboxes@.len() == old(router).mailboxes@.len(),
        final(router).control_box == old(router).control_box,
        final(router).normal_queue@ == old(router).normal_queue@,
        final(router).low_queue@ == old(router).low_queue@,
        Router::msgs_preserved(*old(router), *final(router)),
        forall|i: int|
            0 <= i < old(batch).normals@.len() ==> match (
                old(batch).normals@[i],
                #[trigger] final(batch).normals@[i],
            ) {
                (Some(x), Some(y)) => y == x || y == crate::batch::cleared(x),
                (Some(x), None) => listed(list@, i),
                (None, _) => false,
            },
        forall|i: int|
            0 <= i < old(batch).normals@.len() ==> match #[trigger] old(batch).normals@[i] {
                Some(x) => match x.policy {
                    Some(ReschedulePolicy::Release(l)) => if listed(list@, i) {
                        released_slot(
                            x,
                            l,
                            old(router).mailboxes@[x.fsm.addr as int],
                            final(batch).normals@[i],
                            final(router).mailboxes@[x.fsm.addr as int],
                        )
                    } else {
                        final(batch).normals@[i] == old(batch).normals@[i]
                    },
                    _ => final(batch).normals@[i] == old(batch).normals@[i],
                },
                None => true,
            },
        forall|a: int|
            0 <= a < old(router).mailboxes@.len() ==> #[trigger] final(router).mailboxes@[a]
                == old(router).mailboxes@[a] || (exists|i: int|
                0 <= i < old(batch).normals@.len() && listed(list@, i) && (
                #[trigger] old(batch).normals@[i])->Some_0.fsm.addr == a),
    {
        let m = list.len();
        let mut j: usize = 0;
        while j < m
            invariant
                j <= m,
                m == list@.len(),
                inv(*router, *batch),
                dense(old(batch).normals@),
                old(batch).distinct_addrs(),
                old(batch).slots_ok(*old(router)),
                batch.normals@.len() == old(batch).normals@.len(),
                batch.control == old(batch).control,
                router.mailboxes@.len() == old(router).mailboxes@.len(),
                router.control_box == old(router).control_box,
                router.normal_queue@ == old(router).normal_queue@,
                router.low_queue@ == old(router).low_queue@,
                Router::msgs_preserved(*old(router), *router),
                indices_below(list@, batch.normals@.len() as int),
                forall|i: int|
                    0 <= i < old(batch).normals@.len() && listed(list@, i)
                        ==> match #[trigger] old(batch).normals@[i] {
                        Some(x) => x.policy is None || x.policy matches Some(
                            ReschedulePolicy::Release(_),
                        ),
                        None => true,
                    },
                forall|i: int|
                    0 <= i < old(batch).normals@.len() ==> match #[trigger] old(
                        batch,
                    ).normals@[i] {
                        Some(x) => if listed_take(list@, j as int, i) {
                            match x.policy {
                                Some(ReschedulePolicy::Release(l)) => released_slot(
                                    x,
                                    l,
                                    old(router).mailboxes@[x.fsm.addr as int],
                                    batch.normals@[i],
                                    router.mailboxes@[x.fsm.addr as int],
                                ),
                                _ => batch.normals@[i] == old(batch).normals@[i],
                            }
                        } else {
                            batch.normals@[i] == old(batch).normals@[i]
                        },
                        None => true,
                    },
                forall|a: int|
                    0 <= a < old(router).mailboxes@.len() ==> #[trigger] router.mailboxes@[a]
                        == old(router).mailboxes@[a] || (exists|i: int|
                        0 <= i < old(batch).normals@.len() && listed_take(list@, j as int, i)
                            && (#[trigger] old(batch).normals@[i])->Some_0.fsm.addr == a),
            decreases m - j,
        {
            let idx = list[j];
            let ghost b_pre = *batch;
            let ghost r_pre = *router;
            proof {
                assert(listed(list@, idx as int));
            }
            batch.schedule(router, idx, now);
            proof {
                let x = old(batch).normals@[idx as int]->Some_0;
                let ad = x.fsm.addr as int;
                if !listed_take(list@, j as int, idx as int) {
                    // First disposal of this slot: its mailbox is still as
                    // the caller handed it — no other slot shares the
                    // address.
                    assert(b_pre.normals@[idx as int] == old(batch).normals@[idx as int]);
                    if r_pre.mailboxes@[ad] != old(router).mailboxes@[ad] {
                        let i2 = choose|i2: int|
                            0 <= i2 < old(batch).normals@.len() && listed_take(
                                list@,
                                j as int,
                                i2,
                            ) && old(batch).normals@[i2]->Some_0.fsm.addr == x.fsm.addr;
                        assert(old(batch).normals@[i2].is_some());
                        assert(old(batch).normals@[idx as int].is_some());
                        assert(i2 != idx);
                        assert(false);
                    }
                }
                assert forall|t: int|
                    0 <= t < old(router).mailboxes@.len() implies (
                #[trigger] router.mailboxes@[t]).msgs@ == old(router).mailboxes@[t].msgs@ by {
                    assert(r_pre.mailboxes@[t].msgs@ == old(router).mailboxes@[t].msgs@);
                }
                assert forall|i: int|
                    0 <= i < old(batch).normals@.len() implies match #[trigger] old(
                    batch,
                ).normals@[i] {
                    Some(x2) => if listed_take(list@, j as int + 1, i) {
                        match x2.policy {
                            Some(ReschedulePolicy::Release(l)) => released_slot(
                                x2,
                                l,
                                old(router).mailboxes@[x2.fsm.addr as int],
                                batch.normals@[i],
                                router.mailboxes@[x2.fsm.addr as int],
                            ),
                            _ => batch.normals@[i] == old(batch).normals@[i],
                        }
                    } else {
                        batch.normals@[i] == old(batch).normals@[i]
                    },
                    None => true,
                } by {
                    let x2 = old(batch).normals@[i]->Some_0;
                    if i != idx {
                        assert(batch.normals@[i] == b_pre.normals@[i]);
                        if x2.fsm.addr != x.fsm.addr {
                            assert(router.mailboxes@[x2.fsm.addr as int]
                                == r_pre.mailboxes@[x2.fsm.addr as int]);
                        } else {
                            if old(batch).normals@[i].is_some() && old(batch).normals@[idx
                                as int].is_some() && i != idx {
                                assert(x2.fsm.addr != x.fsm.addr);
                            }
                        }
                    }
                }
                assert forall|a: int|
                    0 <= a < old(router).mailboxes@.len() implies #[trigger] router.mailboxes@[a]
                    == old(router).mailboxes@[a] || (exists|i: int|
                    0 <= i < old(batch).normals@.len() && listed_take(list@, j as int + 1, i)
                        && (#[trigger] old(batch).normals@[i])->Some_0.fsm.addr == a) by {
                    if router.mailboxes@[a] != old(router).mailboxes@[a] {
                        if r_pre.mailboxes@[a] != old(router).mailboxes@[a] {
                            let i2 = choose|i2: int|
                                0 <= i2 < old(batch).normals@.len() && listed_take(
                                    list@,
                                    j as int,
                                    i2,
                                ) && old(batch).normals@[i2]->Some_0.fsm.addr == a;
                            assert(listed_take(list@, j as int + 1, i2));
                        } else {
                            assert(a == ad);
                            assert(listed_take(list@, j as int + 1, idx as int));
                        }
                    }
                }
            }
            j += 1;
        }
        proof {
            assert forall|i: int|
                0 <= i < old(batch).normals@.len() && listed(list@, i) implies listed_take(
                list@,
                m as int,
                i,
            ) by {
                let kk = choose|kk: int| 0 <= kk < list@.len() && list@[kk] == i;
                assert(0 <= kk < m as int && list@[kk] == i);
            }
        }
    }

/// Disposes of every listed FSM according to its policy and compacts the
/// batch, walking the list in reverse so that a reclaimed slot never moves
/// an index still to be processed. Afterwards the batch is dense again and
/// carries no dispositions: ready for the next round.
#[verifier::rlimit(100)]
pub fn dispose_reclaim(batch: &mut Batch, router: &mut Router, list: &Vec<usize>, now: u64)
    requires
        inv(*old(router), *old(batch)),
        strictly_inc(list@),
        indices_below(list@, old(batch).normals@.len() as int),
        policies_listed(old(batch).normals@, list@),
        forall|i: int|
            0 <= i < old(batch).normals@.len() ==> ((#[trigger] old(batch).normals@[i]).is_none()
                ==> listed(list@, i)),
    ensures
        inv(*final(router), *final(batch)),
        dense(final(batch).normals@),
        no_policies(final(batch).normals@),
        final(batch).control == old(batch).control,
        final(router).mailboxes@.len() == old(router).mailboxes@.len(),
        final(router).control_box == old(router).control_box,
        Router::msgs_preserved(*old(router), *final(router)),
        final(router).normal_queue@.len() >= old(router).normal_queue@.len(),
        final(router).low_queue@.len() >= old(router).low_queue@.len(),
        forall|q: int|
            0 <= q < old(router).normal_queue@.len()
                ==> #[trigger] final(router).normal_queue@[q] == old(router).normal_queue@[q],
        forall|q: int|
            0 <= q < old(router).low_queue@.len() ==> #[trigger] final(router).low_queue@[q]
                == old(router).low_queue@[q],
        forall|k2: int|
            0 <= k2 < list@.len() ==> match old(batch).normals@[(#[trigger] list@[k2]) as int] {
                Some(x) => disposed_entry(x, *old(router), *final(router), now),
                None => true,
            },
    {
        let mut k = list.len();
        proof {
            assert forall|i: int|
                0 <= i < batch.normals@.len() implies match #[trigger] batch.normals@[i] {
                Some(f) => f.policy.is_some() ==> listed_take(list@, k as int, i),
                None => listed_take(list@, k as int, i),
            } by {
                match batch.normals@[i] {
                    Some(f) => {
                        if f.policy.is_some() {
                            let kk = choose|kk: int| 0 <= kk < list@.len() && list@[kk] == i;
                            assert(listed_take(list@, k as int, i));
                        }
                    }
                    None => {
                        let kk = choose|kk: int| 0 <= kk < list@.len() && list@[kk] == i;
                        assert(listed_take(list@, k as int, i));
                    }
                }
            }
        }
        while k > 0
            invariant
                k <= list@.len(),
                inv(*router, *batch),
                strictly_inc(list@),
                batch.control == old(batch).control,
                router.mailboxes@.len() == old(router).mailboxes@.len(),
                router.control_box == old(router).control_box,
                Router::msgs_preserved(*old(router), *router),
                old(batch).distinct_addrs(),
                old(batch).slots_ok(*old(router)),
                indices_below(list@, old(batch).normals@.len() as int),
                router.normal_queue@.len() >= old(router).normal_queue@.len(),
                router.low_queue@.len() >= old(router).low_queue@.len(),
                forall|q: int|
                    0 <= q < old(router).normal_queue@.len() ==> #[trigger] router.normal_queue@[q]
                        == old(router).normal_queue@[q],
                forall|q: int|
                    0 <= q < old(router).low_queue@.len() ==> #[trigger] router.low_queue@[q]
                        == old(router).low_queue@[q],
                forall|k2: int|
                    0 <= k2 < k ==> batch.normals@[(#[trigger] list@[k2]) as int] == old(
                        batch,
                    ).normals@[list@[k2] as int],
                forall|k2: int|
                    k <= k2 < list@.len() ==> match old(batch).normals@[(
                    #[trigger] list@[k2]) as int] {
                        Some(x) => disposed_entry(x, *old(router), *router, now),
                        None => true,
                    },
                forall|a: int|
                    0 <= a < old(router).mailboxes@.len() ==> #[trigger] router.mailboxes@[a]
                        == old(router).mailboxes@[a] || (exists|k2: int|
                        k <= k2 < list@.len() && old(batch).normals@[(
                        #[trigger] list@[k2]) as int].is_some() && old(batch).normals@[list@[k2]
                            as int]->Some_0.fsm.addr == a),
                k > 0 ==> (list@[k - 1] as int) < batch.normals@.len(),
                forall|i: int|
                    0 <= i < batch.normals@.len() ==> match #[trigger] batch.normals@[i] {
                        Some(f) => f.policy.is_some() ==> listed_take(list@, k as int, i),
                        None => listed_take(list@, k as int, i),
                    },
            decreases k,
        {
            k -= 1;
            let idx = list[k];
            let ghost b_pre = *batch;
            let ghost r_pre = *router;
            batch.schedule(router, idx, now);
            let ghost b_mid = *batch;
            let ghost pre_len = b_pre.normals@.len();
            batch.swap_reclaim(idx);
            proof {
                assert forall|t: int|
                    0 <= t < old(router).mailboxes@.len() implies (
                #[trigger] router.mailboxes@[t]).msgs@ == old(router).mailboxes@[t].msgs@ by {
                    assert(r_pre.mailboxes@[t].msgs@ == old(router).mailboxes@[t].msgs@);
                }
                if b_mid.normals@[idx as int].is_none() {
                    // The slot was disposed of: the tail slot moved in and
                    // the batch shrank by one.
                    assert forall|a: nat|
                        a < router.mailboxes@.len() implies #[trigger] owners(*router, *batch, a)
                        == 1 by {
                        lemma_count_swap_remove(b_mid.normals@, idx as int, slot_contrib(a));
                        assert(owners(*router, b_mid, a) == 1);
                    }
                    assert(control_owners(*router, *batch) == 1);
                    assert forall|i: int|
                        0 <= i < batch.normals@.len() implies match #[trigger] batch.normals@[i] {
                        Some(f) => f.fsm.addr < router.mailboxes@.len()
                            && router.mailboxes@[f.fsm.addr as int].fsm.is_none(),
                        None => true,
                    } by {
                        if i != idx {
                            assert(batch.normals@[i] == b_mid.normals@[i]);
                        } else {
                            assert(batch.normals@[i] == b_mid.normals@[pre_len - 1]);
                        }
                    }
                    assert(batch.slots_ok(*router));
                    assert forall|i: int, j: int|
                        0 <= i < batch.normals@.len() && 0 <= j < batch.normals@.len() && i != j
                            && batch.normals@[i].is_some() && batch.normals@[j].is_some() implies (
                    #[trigger] batch.normals@[i])->Some_0.fsm.addr != (
                    #[trigger] batch.normals@[j])->Some_0.fsm.addr by {
                        let pi: int = if i == idx {
                            pre_len - 1
                        } else {
                            i
                        };
                        let pj: int = if j == idx {
                            pre_len - 1
                        } else {
                            j
                        };
                        assert(batch.normals@[i] == b_mid.normals@[pi]);
                        assert(batch.normals@[j] == b_mid.normals@[pj]);
                    }
                    assert(batch.distinct_addrs());
                } else {
                    assert(batch.normals@ == b_mid.normals@);
                    lemma_unique_same(*router, *router, b_mid, *batch);
                    assert(batch.slots_ok(*router));
                    assert(batch.distinct_addrs());
                }
                // Every slot still to be disposed of stays listed among the
                // first k entries.
                assert forall|i: int|
                    0 <= i < batch.normals@.len() implies match #[trigger] batch.normals@[i] {
                    Some(f) => f.policy.is_some() ==> listed_take(list@, k as int, i),
                    None => listed_take(list@, k as int, i),
                } by {
                    let v = batch.normals@[i];
                    let needs: bool = match v {
                        Some(f) => f.policy.is_some(),
                        None => true,
                    };
                    if needs {
                        if b_mid.normals@[idx as int].is_none() && i == idx {
                            // The moved-in tail slot cannot need disposal:
                            // a listed tail index would have to stand after
                            // `idx` in the strictly increasing list.
                            assert(v == b_pre.normals@[pre_len - 1]);
                            assert(idx < pre_len - 1);
                            let kk = choose|kk: int|
                                0 <= kk < k + 1 && kk < list@.len() && list@[kk] == pre_len - 1;
                            assert(list@[k as int] == idx);
                            assert(kk < k ==> list@[kk] < idx);
                            assert(false);
                        } else {
                            assert(v == b_pre.normals@[i] || (i == idx && v
                                == b_mid.normals@[idx as int]));
                            if i == idx {
                                // The disposition handed the FSM back with
                                // its policy cleared; nothing to list.
                                assert(!needs);
                                assert(false);
                            } else {
                                assert(v == b_pre.normals@[i]);
                                let kk = choose|kk: int|
                                    0 <= kk < k + 1 && kk < list@.len() && list@[kk] == i;
                                assert(list@[k as int] == idx);
                                assert(kk != k);
                                assert(listed_take(list@, k as int, i));
                            }
                        }
                    }
                }
                // The next listed index still names a slot.
                if k > 0 {
                    assert(list@[k - 1] < list@[k as int]);
                }
                // Queue prefixes survive: this step appended at most one
                // item.
                assert forall|q: int|
                    0 <= q < old(router).normal_queue@.len() implies (
                #[trigger] router.normal_queue@[q]) == old(router).normal_queue@[q] by {
                    assert(r_pre.normal_queue@[q] == old(router).normal_queue@[q]);
                }
                assert forall|q: int|
                    0 <= q < old(router).low_queue@.len() implies (
                #[trigger] router.low_queue@[q]) == old(router).low_queue@[q] by {
                    assert(r_pre.low_queue@[q] == old(router).low_queue@[q]);
                }
                // Slots still to be disposed of stand before `idx` and are
                // untouched.
                assert forall|k2: int|
                    0 <= k2 < k implies batch.normals@[(#[trigger] list@[k2]) as int] == old(
                    batch,
                ).normals@[list@[k2] as int] by {
                    assert(list@[k2] < list@[k as int]);
                    assert(b_pre.normals@[list@[k2] as int] == old(batch).normals@[list@[k2]
                        as int]);
                    assert(b_mid.normals@[list@[k2] as int] == b_pre.normals@[list@[k2]
                        as int]);
                }
                // The freshly disposed entry meets its outcome.
                let old_slot = old(batch).normals@[idx as int];
                assert(b_pre.normals@[idx as int] == old_slot);
                match old_slot {
                    None => {}
                    Some(x) => {
                        reveal(disposed_entry);
                        let ad = x.fsm.addr as int;
                        if r_pre.mailboxes@[ad] != old(router).mailboxes@[ad] {
                            // Every address touched so far belongs to a
                            // slot disposed after this one in the list —
                            // a different slot, so a different address.
                            let k3 = choose|k3: int|
                                k + 1 <= k3 < list@.len() && old(batch).normals@[(
                                #[trigger] list@[k3]) as int].is_some() && old(
                                    batch,
                                ).normals@[list@[k3] as int]->Some_0.fsm.addr == x.fsm.addr;
                            assert(old(batch).normals@[list@[k3] as int].is_some());
                            assert(old(batch).normals@[idx as int].is_some());
                            assert(list@[k3] != list@[k as int]);
                            assert(false);
                        }
                        assert(r_pre.mailboxes@[ad] == old(router).mailboxes@[ad]);
                        match x.policy {
                            Some(ReschedulePolicy::Schedule) => {}
                            Some(ReschedulePolicy::Release(l)) => {
                                assert(r_pre.mailboxes@[ad].msgs@ == old(
                                    router,
                                ).mailboxes@[ad].msgs@);
                                if r_pre.mailboxes@[ad].msgs@.len() == l {
                                    assert(router.mailboxes@[ad].fsm == Some(x.fsm));
                                } else {
                                    assert(router.mailboxes@[ad].fsm.is_none());
                                }
                            }
                            Some(ReschedulePolicy::Remove) => {
                                if x.fsm.progress >= r_pre.mailboxes@[ad].msgs@.len() {
                                    assert(router.mailboxes@[ad].fsm == Some(x.fsm));
                                } else {
                                    assert(router.mailboxes@[ad].fsm.is_none());
                                }
                            }
                            None => {}
                        }
                        assert(disposed_entry(x, *old(router), *router, now));
                    }
                }
                // Outcomes of entries disposed in earlier steps persist:
                // their mailboxes are other addresses, and queue positions
                // only grow.
                assert forall|k2: int|
                    k + 1 <= k2 < list@.len() implies match old(batch).normals@[(
                #[trigger] list@[k2]) as int] {
                    Some(x2) => disposed_entry(x2, *old(router), *router, now),
                    None => true,
                } by {
                    reveal(disposed_entry);
                    match old(batch).normals@[list@[k2] as int] {
                        Some(x2) => {
                            assert(disposed_entry(x2, *old(router), r_pre, now));
                            match x2.policy {
                                Some(ReschedulePolicy::Release(_))
                                | Some(ReschedulePolicy::Remove) => {
                                    assert(x2.fsm.addr < r_pre.mailboxes@.len());
                                    if router.mailboxes@[x2.fsm.addr as int]
                                        != r_pre.mailboxes@[x2.fsm.addr as int] {
                                        match old(batch).normals@[idx as int] {
                                            Some(x) => {
                                                assert(b_pre.normals@[idx as int] == Some(x));
                                                if x2.fsm.addr != x.fsm.addr {
                                                    assert(router.mailboxes@[x2.fsm.addr
                                                        as int] == r_pre.mailboxes@[x2.fsm.addr
                                                        as int]);
                                                }
                                                assert(x2.fsm.addr == x.fsm.addr);
                                                assert(list@[k2] != list@[k as int]);
                                                assert(old(batch).normals@[list@[k2]
                                                    as int].is_some());
                                                assert(old(batch).normals@[idx
                                                    as int].is_some());
                                                assert(false);
                                            }
                                            None => {
                                                assert(b_pre.normals@[idx as int]
                                                    is None);
                                                assert(false);
                                            }
                                        }
                                    }
                                }
                                Some(ReschedulePolicy::Schedule) => {}
                                None => {}
                            }
                        }
                        None => {}
                    }
                }
            }
        }
        proof {
            assert forall|i: int|
                0 <= i < batch.normals@.len() implies (#[trigger] batch.normals@[i]).is_some()
                && batch.normals@[i]->Some_0.policy.is_none() by {
                assert(!listed_take(list@, 0, i));
            }
        }
    }

} // verus!
