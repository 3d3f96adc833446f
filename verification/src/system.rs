//! The batch system: it owns the router and the workers of the two pools,
//! and manages their lifecycle — creation, spawning, running, and a
//! graceful shutdown that joins every worker.
//!
//! In this sequential model a worker is a poller value the system runs to
//! completion; "joining" a worker is running its final poll after the
//! shutdown sentinels are broadcast, and the joinable-workers registry
//! records each normal-priority worker as it exits.

use vstd::prelude::*;

use crate::fsm::{Fsm, Priority};
use crate::ownership::{
    control_contrib, count_seq, item_contrib, lemma_count_drop_last, lemma_count_extend_zero,
    router_control_owners, router_owners, router_unique,
};
use crate::poller::{HandlerBuilder, PollHandler, Poller};
use crate::router::Router;

verus! {

/// The live configuration of a batch system.
#[derive(Clone, Copy, PartialEq, Eq, Structural, Debug)]
pub struct Config {
    /// How many fresh FSMs a round may take in.
    pub max_batch_size: usize,
    /// How long an FSM may be held in a batch before it counts as hot.
    pub reschedule_duration: u64,
    /// Number of normal-priority workers.
    pub pool_size: usize,
    /// Number of low-priority workers.
    pub low_priority_pool_size: usize,
}

impl Config {
    /// The batch size cap this configuration asks for.
    pub fn max_batch_size(&self) -> (r: usize)
        ensures
            r == self.max_batch_size,
    {
        self.max_batch_size
    }
}

/// A snapshot of what is needed to rebuild or resize a pool: the handler
/// builder together with the pool's parameters.
pub struct PoolState<B: HandlerBuilder> {
    /// The thread-name prefix of the pool.
    pub name_prefix: String,
    /// Builds one handler per worker.
    pub handler_builder: B,
    /// Number of low-priority workers.
    pub low_priority_pool_size: usize,
    /// Number of normal-priority workers the pool is expected to keep.
    pub expected_pool_size: usize,
    /// How many fresh FSMs a round may take in.
    pub max_batch_size: usize,
    /// How long an FSM may be held in a batch before it counts as hot.
    pub reschedule_duration: u64,
    /// Worker ids start here.
    pub id_base: usize,
}

/// A system that polls FSMs in batches: the router, the workers of both
/// pools, and the registry of exited workers.
pub struct BatchSystem<H: PollHandler> {
    /// Set by `spawn`; a system that was never spawned shuts down as a
    /// no-op.
    pub name_prefix: Option<String>,
    /// The mailbox registry and scheduler queues.
    pub router: Router,
    /// The workers, in spawn order. A worker here stands for a thread that
    /// runs its poller.
    pub workers: Vec<Poller<H>>,
    /// Spawn indices of the normal-priority workers that have exited.
    pub joinable_workers: Vec<usize>,
    /// Number of normal-priority workers `spawn` starts.
    pub pool_size: usize,
    /// Number of low-priority workers `spawn` starts.
    pub low_priority_pool_size: usize,
    /// How many fresh FSMs a round may take in.
    pub max_batch_size: usize,
    /// How long an FSM may be held in a batch before it counts as hot.
    pub reschedule_duration: u64,
}

/// How many of the workers are joinable — the normal-priority ones, which
/// register themselves on exit.
pub open spec fn joinable_count<H: PollHandler>(ws: Seq<Poller<H>>) -> nat {
    count_seq(
        ws,
        |w: Poller<H>|
            if w.joinable {
                1nat
            } else {
                0nat
            },
    )
}

impl<H: PollHandler> BatchSystem<H> {
    /// The system's invariant: the router is well formed and every FSM has
    /// exactly one owner in it. Between worker runs no batch holds
    /// anything, so the router accounts for every FSM.
    pub open spec fn wf(self) -> bool {
        &&& self.router.wf()
        &&& router_unique(self.router)
    }

    /// The router, for registering mailboxes and sending messages.
    pub fn router(&mut self) -> (r: &mut Router)
        ensures
            *r == old(self).router,
            *final(self) == (BatchSystem { router: *final(r), ..*old(self) }),
    {
        &mut self.router
    }

    /// Takes a snapshot of the pool's parameters together with a handler
    /// builder, for rebuilding or resizing the pool.
    pub fn build_pool_state<B: HandlerBuilder<Handler = H>>(
        &mut self,
        handler_builder: B,
    ) -> (state: PoolState<B>)
        requires
            old(self).name_prefix.is_some(),
        ensures
            *final(self) == *old(self),
            Some(state.name_prefix) == old(self).name_prefix,
            state.handler_builder == handler_builder,
            state.low_priority_pool_size == old(self).low_priority_pool_size,
            state.expected_pool_size == old(self).pool_size,
            state.max_batch_size == old(self).max_batch_size,
            state.reschedule_duration == old(self).reschedule_duration,
            state.id_base == old(self).pool_size,
    {
        let name_prefix = match &self.name_prefix {
            Some(s) => s.clone(),
            None => String::new(),
        };
        PoolState {
            name_prefix,
            handler_builder,
            low_priority_pool_size: self.low_priority_pool_size,
            expected_pool_size: self.pool_size,
            max_batch_size: self.max_batch_size,
            reschedule_duration: self.reschedule_duration,
            id_base: self.pool_size,
        }
    }

    /// Builds one handler and adds the worker that will drive it. Only
    /// normal-priority workers register as joinable.
    fn start_poller<B: HandlerBuilder<Handler = H>>(&mut self, priority: Priority, builder: &mut B)
        requires
            old(self).workers@.len() < usize::MAX,
        ensures
            final(self).workers@.len() == old(self).workers@.len() + 1,
            final(self).workers@.last().priority == priority,
            final(self).workers@.last().joinable == (priority == Priority::Normal),
            forall|i: int|
                0 <= i < old(self).workers@.len() ==> final(self).workers@[i] == old(
                    self,
                ).workers@[i],
            final(self).router == old(self).router,
            final(self).name_prefix == old(self).name_prefix,
            final(self).joinable_workers == old(self).joinable_workers,
            final(self).pool_size == old(self).pool_size,
            final(self).low_priority_pool_size == old(self).low_priority_pool_size,
            final(self).max_batch_size == old(self).max_batch_size,
            final(self).reschedule_duration == old(self).reschedule_duration,
    {
        let handler = builder.build(priority);
        let joinable = match priority {
            Priority::Normal => true,
            Priority::Low => false,
        };
        let poller = Poller {
            handler,
            max_batch_size: self.max_batch_size,
            reschedule_duration: self.reschedule_duration,
            priority,
            joinable,
        };
        self.workers.push(poller);
    }

    /// Starts the batch system: one worker per slot of the normal pool and
    /// of the low-priority pool.
    pub fn spawn<B: HandlerBuilder<Handler = H>>(&mut self, name_prefix: String, builder: &mut B)
        requires
            old(self).workers@.len() + old(self).pool_size + old(self).low_priority_pool_size
                <= usize::MAX,
        ensures
            final(self).name_prefix == Some(name_prefix),
            final(self).workers@.len() == old(self).workers@.len() + old(self).pool_size + old(
                self,
            ).low_priority_pool_size,
            forall|i: int|
                0 <= i < old(self).workers@.len() ==> final(self).workers@[i] == old(
                    self,
                ).workers@[i],
            forall|i: int|
                old(self).workers@.len() <= i < old(self).workers@.len() + old(self).pool_size
                    ==> (#[trigger] final(self).workers@[i]).priority == Priority::Normal
                    && final(self).workers@[i].joinable,
            forall|i: int|
                old(self).workers@.len() + old(self).pool_size <= i
                    < final(self).workers@.len() ==> (#[trigger] final(self).workers@[i]).priority
                    == Priority::Low && !final(self).workers@[i].joinable,
            final(self).router == old(self).router,
            final(self).joinable_workers == old(self).joinable_workers,
            final(self).pool_size == old(self).pool_size,
            final(self).low_priority_pool_size == old(self).low_priority_pool_size,
    {
        let pool_size = self.pool_size;
        let low_pool_size = self.low_priority_pool_size;
        let mut i: usize = 0;
        while i < pool_size
            invariant
                i <= pool_size,
                self.workers@.len() == old(self).workers@.len() + i,
                forall|t: int|
                    0 <= t < old(self).workers@.len() ==> self.workers@[t] == old(
                        self,
                    ).workers@[t],
                forall|t: int|
                    old(self).workers@.len() <= t < self.workers@.len() ==> (
                    #[trigger] self.workers@[t]).priority == Priority::Normal
                        && self.workers@[t].joinable,
                old(self).workers@.len() + old(self).pool_size + old(
                    self,
                ).low_priority_pool_size <= usize::MAX,
                pool_size == old(self).pool_size,
                low_pool_size == old(self).low_priority_pool_size,
                self.router == old(self).router,
                self.name_prefix == old(self).name_prefix,
                self.joinable_workers == old(self).joinable_workers,
                self.pool_size == old(self).pool_size,
                self.low_priority_pool_size == old(self).low_priority_pool_size,
                self.max_batch_size == old(self).max_batch_size,
                self.reschedule_duration == old(self).reschedule_duration,
            decreases pool_size - i,
        {
            self.start_poller(Priority::Normal, builder);
            i += 1;
        }
        let mut i: usize = 0;
        while i < low_pool_size
            invariant
                i <= low_pool_size,
                self.workers@.len() == old(self).workers@.len() + old(self).pool_size + i,
                forall|t: int|
                    0 <= t < old(self).workers@.len() ==> self.workers@[t] == old(
                        self,
                    ).workers@[t],
                forall|t: int|
                    old(self).workers@.len() <= t < old(self).workers@.len() + old(
                        self,
                    ).pool_size ==> (#[trigger] self.workers@[t]).priority == Priority::Normal
                        && self.workers@[t].joinable,
                forall|t: int|
                    old(self).workers@.len() + old(self).pool_size <= t < self.workers@.len()
                        ==> (#[trigger] self.workers@[t]).priority == Priority::Low
                        && !self.workers@[t].joinable,
                old(self).workers@.len() + old(self).pool_size + old(
                    self,
                ).low_priority_pool_size <= usize::MAX,
                low_pool_size == old(self).low_priority_pool_size,
                self.router == old(self).router,
                self.name_prefix == old(self).name_prefix,
                self.joinable_workers == old(self).joinable_workers,
                self.pool_size == old(self).pool_size,
                self.low_priority_pool_size == old(self).low_priority_pool_size,
                self.max_batch_size == old(self).max_batch_size,
                self.reschedule_duration == old(self).reschedule_duration,
            decreases low_pool_size - i,
        {
            self.start_poller(Priority::Low, builder);
            i += 1;
        }
        self.name_prefix = Some(name_prefix);
    }

    /// Runs worker `k` for up to `rounds` rounds at time `now`: the
    /// sequential stand-in for that worker's thread waking up, processing
    /// its queue, and parking again with its batch handed back.
    pub fn run_worker(&mut self, k: usize, now: u64, rounds: usize)
        requires
            old(self).wf(),
            k < old(self).workers@.len(),
        ensures
            final(self).wf(),
            final(self).workers@.len() == old(self).workers@.len(),
            forall|i: int|
                0 <= i < old(self).workers@.len() && i != k ==> final(self).workers@[i] == old(
                    self,
                ).workers@[i],
            final(self).workers@[k as int].priority == old(self).workers@[k as int].priority,
            final(self).workers@[k as int].joinable == old(self).workers@[k as int].joinable,
            final(self).workers@[k as int].reschedule_duration == old(self).workers@[k
                as int].reschedule_duration,
            final(self).router.mailboxes@.len() == old(self).router.mailboxes@.len(),
            Router::msgs_preserved(old(self).router, final(self).router),
            final(self).name_prefix == old(self).name_prefix,
            final(self).joinable_workers == old(self).joinable_workers,
    {
        let mut p = self.workers.remove(k);
        p.poll(&mut self.router, now, rounds);
        self.workers.insert(k, p);
    }

    /// Shuts the batch system down: broadcasts one shutdown sentinel per
    /// worker, then runs every worker to its exit and joins it, recording
    /// each joinable one. A system never spawned is a no-op. Afterwards no
    /// worker remains, and every FSM is accounted for in the router.
    pub fn shutdown(&mut self, now: u64, rounds: usize)
        requires
            old(self).wf(),
            old(self).router.normal_queue@.len() + old(self).workers@.len() <= usize::MAX,
            old(self).router.low_queue@.len() + old(self).workers@.len() <= usize::MAX,
            old(self).joinable_workers@.len() + old(self).workers@.len() <= usize::MAX,
        ensures
            final(self).wf(),
            final(self).workers@.len() == 0 || old(self).name_prefix.is_none(),
            old(self).name_prefix.is_none() ==> *final(self) == *old(self),
            old(self).name_prefix.is_some() ==> final(self).joinable_workers@.len() == old(
                self,
            ).joinable_workers@.len() + joinable_count(old(self).workers@),
            final(self).name_prefix.is_none(),
            final(self).router.mailboxes@.len() == old(self).router.mailboxes@.len(),
            Router::msgs_preserved(old(self).router, final(self).router),
    {
        if self.name_prefix.is_none() {
            return ;
        }
        self.name_prefix = None;
        let ghost r0 = self.router;
        let n = self.workers.len();
        self.router.broadcast_shutdown(n, n);
        proof {
            let r1 = self.router;
            assert forall|a: nat|
                a < r1.mailboxes@.len() implies #[trigger] router_owners(r1, a) == 1 by {
                lemma_count_extend_zero(r0.normal_queue@, r1.normal_queue@, item_contrib(a));
                lemma_count_extend_zero(r0.low_queue@, r1.low_queue@, item_contrib(a));
                assert(router_owners(r0, a) == 1);
            }
            lemma_count_extend_zero(r0.normal_queue@, r1.normal_queue@, control_contrib());
            lemma_count_extend_zero(r0.low_queue@, r1.low_queue@, control_contrib());
            assert(router_control_owners(r1) == 1);
        }
        while self.workers.len() > 0
            invariant
                self.wf(),
                self.router.mailboxes@.len() == old(self).router.mailboxes@.len(),
                Router::msgs_preserved(old(self).router, self.router),
                self.joinable_workers@.len() + self.workers@.len() <= old(
                    self,
                ).joinable_workers@.len() + old(self).workers@.len(),
                old(self).joinable_workers@.len() + old(self).workers@.len() <= usize::MAX,
                self.joinable_workers@.len() + joinable_count(self.workers@) == old(
                    self,
                ).joinable_workers@.len() + joinable_count(old(self).workers@),
                self.name_prefix.is_none(),
            decreases self.workers@.len(),
        {
            let ghost ws_pre = self.workers@;
            let mut p = self.workers.pop().unwrap();
            proof {
                lemma_count_drop_last(
                    ws_pre,
                    |w: Poller<H>|
                        if w.joinable {
                            1nat
                        } else {
                            0nat
                        },
                );
            }
            p.poll(&mut self.router, now, rounds);
            if p.joinable {
                // The worker has exited; record it in the registry, under
                // its spawn index.
                self.joinable_workers.push(self.workers.len());
            }
        }
    }
}

/// Creates a batch system from a configuration and its control FSM: a
/// fresh router whose control mailbox holds the control FSM, no normal
/// mailboxes yet, and no workers until `spawn`.
pub fn create_system<H: PollHandler>(cfg: &Config, controller: Fsm) -> (system: BatchSystem<H>)
    ensures
        system.wf(),
        system.name_prefix.is_none(),
        system.workers@.len() == 0,
        system.joinable_workers@.len() == 0,
        system.router.mailboxes@.len() == 0,
        system.router.control_box.fsm == Some(controller),
        system.pool_size == cfg.pool_size,
        system.low_priority_pool_size == cfg.low_priority_pool_size,
        system.max_batch_size == cfg.max_batch_size,
        system.reschedule_duration == cfg.reschedule_duration,
{
    let router = Router::new(controller);
    let system = BatchSystem {
        name_prefix: None,
        router,
        workers: Vec::new(),
        joinable_workers: Vec::new(),
        pool_size: cfg.pool_size,
        low_priority_pool_size: cfg.low_priority_pool_size,
        max_batch_size: cfg.max_batch_size(),
        reschedule_duration: cfg.reschedule_duration,
    };
    proof {
        assert forall|a: nat|
            a < system.router.mailboxes@.len() implies #[trigger] router_owners(system.router, a)
            == 1 by {}
        assert(router_control_owners(system.router) == 1);
    }
    system
}

} // verus!
