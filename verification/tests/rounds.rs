use batch_system::batch::{Batch, HandleResult, NormalFsm, ReschedulePolicy};
use batch_system::fsm::{Fsm, Priority};
use batch_system::poller::{HandlerBuilder, PollHandler, Poller};
use batch_system::router::Router;
use batch_system::system::{create_system, Config};

/// A handler scripted per test: which FSM addresses stop at their mailbox
/// length, which are marked stopped, which flip to low priority, and what
/// `begin` answers for the live batch-size.
struct Scripted {
    priority: Priority,
    refreshed_max: Option<usize>,
    stop_at_len: Vec<usize>,
    stop_short: Vec<usize>,
    skip_end_for: Vec<usize>,
    flip_to_low: Vec<usize>,
    seen: Vec<usize>,
    observed_msgs: Vec<u64>,
    end_views: Vec<Vec<Option<(usize, Option<ReschedulePolicy>)>>>,
    paused: usize,
}

impl Scripted {
    fn new(priority: Priority) -> Scripted {
        Scripted {
            priority,
            refreshed_max: None,
            stop_at_len: Vec::new(),
            stop_short: Vec::new(),
            skip_end_for: Vec::new(),
            flip_to_low: Vec::new(),
            seen: Vec::new(),
            observed_msgs: Vec::new(),
            end_views: Vec::new(),
            paused: 0,
        }
    }
}

impl PollHandler for Scripted {
    fn begin(&mut self, _batch_size_hint: usize) -> Option<usize> {
        self.refreshed_max
    }

    fn handle_control(&mut self, _control: &mut Fsm) -> Option<usize> {
        None
    }

    fn handle_normal(&mut self, normal: &mut Fsm, msgs: &Vec<u64>) -> HandleResult {
        self.seen.push(normal.addr);
        for k in normal.progress..msgs.len() {
            self.observed_msgs.push(msgs[k]);
        }
        normal.progress = msgs.len();
        if self.flip_to_low.contains(&normal.addr) {
            normal.priority = Priority::Low;
        }
        if self.stop_short.contains(&normal.addr) {
            // Acknowledge one message fewer than delivered: the release
            // check must observe the difference.
            HandleResult::stop_at(msgs.len().saturating_sub(1), false)
        } else if self.stop_at_len.contains(&normal.addr) {
            let skip = self.skip_end_for.contains(&normal.addr);
            HandleResult::stop_at(msgs.len(), skip)
        } else {
            HandleResult::KeepProcessing
        }
    }

    fn light_end(&mut self, _batch: &mut Vec<Option<NormalFsm>>) {}

    fn end(&mut self, batch: &mut Vec<Option<NormalFsm>>) {
        let view = batch
            .iter()
            .map(|slot| slot.as_ref().map(|nf| (nf.fsm.addr, nf.policy)))
            .collect();
        self.end_views.push(view);
    }

    fn pause(&mut self) {
        self.paused += 1;
    }

    fn get_priority(&self) -> Priority {
        self.priority
    }
}

struct ScriptedBuilder {
    refreshed_max: Option<usize>,
    stop_at_len: Vec<usize>,
    stop_short: Vec<usize>,
    skip_end_for: Vec<usize>,
    flip_to_low: Vec<usize>,
}

impl HandlerBuilder for ScriptedBuilder {
    type Handler = Scripted;

    fn build(&mut self, priority: Priority) -> Scripted {
        let mut h = Scripted::new(priority);
        h.refreshed_max = self.refreshed_max;
        h.stop_at_len = self.stop_at_len.clone();
        h.stop_short = self.stop_short.clone();
        h.skip_end_for = self.skip_end_for.clone();
        h.flip_to_low = self.flip_to_low.clone();
        h
    }
}

fn plain_builder() -> ScriptedBuilder {
    ScriptedBuilder {
        refreshed_max: None,
        stop_at_len: Vec::new(),
        stop_short: Vec::new(),
        skip_end_for: Vec::new(),
        flip_to_low: Vec::new(),
    }
}

#[test]
fn released_fsm_parks_and_kept_fsm_survives_the_round() {
    // Two FSMs, one round: A stops at its acknowledged progress and goes
    // back to its mailbox; B keeps processing and stays in the batch until
    // the worker exits and hands it back to the queue. `end` still sees A
    // in its slot, carrying its release policy: disposal happens after.
    let cfg = Config {
        max_batch_size: 2,
        reschedule_duration: 1_000,
        pool_size: 1,
        low_priority_pool_size: 0,
    };
    let mut system = create_system::<Scripted>(&cfg, Fsm::new(0, Priority::Normal));
    let a = system.router().register(Priority::Normal);
    let b = system.router().register(Priority::Normal);
    system.router().send(a, 1, 0);
    system.router().send(a, 2, 0);
    system.router().send(a, 3, 0);
    system.router().send(b, 10, 0);
    let mut builder = plain_builder();
    builder.stop_at_len = vec![a];
    system.spawn(String::from("test"), &mut builder);
    system.run_worker(0, 0, 1);

    assert!(system.router.mailboxes[a].fsm.is_some());
    assert!(system.router.mailboxes[b].fsm.is_none());
    assert_eq!(system.router.normal_queue.len(), 1);

    let h = &system.workers[0].handler;
    assert_eq!(h.seen, vec![a, b]);
    assert_eq!(h.end_views.len(), 1);
    assert_eq!(h.end_views[0].len(), 2);
    assert_eq!(h.end_views[0][0], Some((a, Some(ReschedulePolicy::Release(3)))));
    assert_eq!(h.end_views[0][1], Some((b, None)));
}

#[test]
fn skip_end_fsm_is_disposed_before_end() {
    let cfg = Config {
        max_batch_size: 2,
        reschedule_duration: 1_000,
        pool_size: 1,
        low_priority_pool_size: 0,
    };
    let mut system = create_system::<Scripted>(&cfg, Fsm::new(0, Priority::Normal));
    let a = system.router().register(Priority::Normal);
    system.router().send(a, 5, 0);
    let mut builder = plain_builder();
    builder.stop_at_len = vec![a];
    builder.skip_end_for = vec![a];
    system.spawn(String::from("test"), &mut builder);
    system.run_worker(0, 0, 1);

    // A was released before `end`: the hook saw its slot already empty.
    assert!(system.router.mailboxes[a].fsm.is_some());
    let h = &system.workers[0].handler;
    assert_eq!(h.end_views.len(), 1);
    assert_eq!(h.end_views[0], vec![None]);
}

#[test]
fn priority_change_migrates_fsm_to_low_pool() {
    // The normal worker observes the mismatch and re-schedules the FSM on
    // the low queue; the low-priority worker then picks it up.
    let cfg = Config {
        max_batch_size: 4,
        reschedule_duration: 1_000,
        pool_size: 1,
        low_priority_pool_size: 1,
    };
    let mut system = create_system::<Scripted>(&cfg, Fsm::new(0, Priority::Normal));
    let a = system.router().register(Priority::Normal);
    system.router().send(a, 1, 0);
    let mut builder = plain_builder();
    builder.flip_to_low = vec![a];
    system.spawn(String::from("test"), &mut builder);

    system.run_worker(0, 0, 1);
    assert_eq!(system.router.low_queue.len(), 1);
    assert_eq!(system.workers[0].handler.seen, vec![a]);

    // Worker 1 is the low-priority worker; after its run it hands the
    // still-running FSM back to the low queue on exit.
    system.run_worker(1, 0, 1);
    assert_eq!(system.workers[1].handler.seen, vec![a]);
}

#[test]
fn refreshed_config_caps_intake() {
    // `begin` reduces the batch size to 4: the round admits only 4 of the
    // 6 waiting FSMs.
    let cfg = Config {
        max_batch_size: 1024,
        reschedule_duration: 1_000,
        pool_size: 1,
        low_priority_pool_size: 0,
    };
    let mut system = create_system::<Scripted>(&cfg, Fsm::new(0, Priority::Normal));
    let mut addrs = Vec::new();
    for _ in 0..6 {
        let a = system.router().register(Priority::Normal);
        system.router().send(a, 1, 0);
        addrs.push(a);
    }
    let mut builder = plain_builder();
    builder.refreshed_max = Some(4);
    system.spawn(String::from("test"), &mut builder);
    system.run_worker(0, 0, 1);

    let h = &system.workers[0].handler;
    assert_eq!(h.seen.len(), 4);
    assert_eq!(h.seen, addrs[0..4].to_vec());
}

#[test]
fn messages_are_observed_in_order_exactly_once() {
    // One FSM fed messages across rounds: the handler observes the mailbox
    // log strictly in delivery order, each message exactly once.
    let cfg = Config {
        max_batch_size: 2,
        reschedule_duration: 1_000,
        pool_size: 1,
        low_priority_pool_size: 0,
    };
    let mut system = create_system::<Scripted>(&cfg, Fsm::new(0, Priority::Normal));
    let a = system.router().register(Priority::Normal);
    let mut builder = plain_builder();
    builder.stop_at_len = vec![a];
    system.spawn(String::from("test"), &mut builder);

    system.router().send(a, 1, 0);
    system.router().send(a, 2, 0);
    system.run_worker(0, 0, 2);
    system.router().send(a, 3, 0);
    system.router().send(a, 4, 0);
    system.router().send(a, 5, 0);
    system.run_worker(0, 0, 2);

    let h = &system.workers[0].handler;
    assert_eq!(h.observed_msgs, vec![1, 2, 3, 4, 5]);
}

#[test]
fn every_second_hot_fsm_is_rescheduled() {
    // Four FSMs, all hot (threshold zero): the round marks exactly the
    // second and fourth for re-scheduling — half of them, rounded down.
    let mut router = Router::new(Fsm::new(0, Priority::Normal));
    let mut batch = Batch::with_capacity(4);
    let mut reschedule: Vec<usize> = Vec::new();
    let mut to_skip_end: Vec<usize> = Vec::new();
    for _ in 0..4 {
        let a = router.register(Priority::Normal);
        let f = router.mailboxes[a].take_fsm().unwrap();
        batch.push(batch_system::router::FsmTypes::Normal(f, 0), 0);
    }
    let mut poller = Poller {
        handler: Scripted::new(Priority::Normal),
        max_batch_size: 8,
        reschedule_duration: 0,
        priority: Priority::Normal,
        joinable: true,
    };
    poller.run_normals(
        &mut batch,
        &router,
        &mut reschedule,
        &mut to_skip_end,
        Priority::Normal,
        100,
    );
    let policies: Vec<Option<ReschedulePolicy>> =
        batch.normals.iter().map(|s| s.as_ref().unwrap().policy).collect();
    assert_eq!(
        policies,
        vec![None, Some(ReschedulePolicy::Schedule), None, Some(ReschedulePolicy::Schedule)]
    );
    assert_eq!(reschedule, vec![1, 3]);
    assert!(to_skip_end.is_empty());
}

#[test]
fn unacknowledged_message_keeps_fsm_in_the_batch() {
    // The handler acknowledges one message fewer than the mailbox
    // delivered: the release comparison sees the difference and the
    // worker takes the FSM straight back instead of parking it.
    let cfg = Config {
        max_batch_size: 2,
        reschedule_duration: 1_000,
        pool_size: 1,
        low_priority_pool_size: 0,
    };
    let mut system = create_system::<Scripted>(&cfg, Fsm::new(0, Priority::Normal));
    let a = system.router().register(Priority::Normal);
    system.router().send(a, 1, 0);
    system.router().send(a, 2, 0);
    let mut builder = plain_builder();
    builder.stop_short = vec![a];
    system.spawn(String::from("test"), &mut builder);
    system.run_worker(0, 0, 3);

    // Never released: three rounds ran on the same FSM, and on exit the
    // worker handed it back to the queue, not to its mailbox.
    assert!(system.router.mailboxes[a].fsm.is_none());
    assert_eq!(system.router.normal_queue.len(), 1);
    assert_eq!(system.workers[0].handler.seen, vec![a, a, a]);
}

#[test]
fn oversized_inherited_batch_is_honored() {
    // With a batch-size cap of 1, a second FSM fetched at the top of a
    // round joins the batch anyway, and the round drives both: an
    // oversized batch inherited from fetching is honored, not truncated.
    let cfg = Config {
        max_batch_size: 1,
        reschedule_duration: 1_000,
        pool_size: 1,
        low_priority_pool_size: 0,
    };
    let mut system = create_system::<Scripted>(&cfg, Fsm::new(0, Priority::Normal));
    let a = system.router().register(Priority::Normal);
    let b = system.router().register(Priority::Normal);
    system.router().send(a, 1, 0);
    system.router().send(b, 2, 0);
    let mut builder = plain_builder();
    system.spawn(String::from("test"), &mut builder);
    system.run_worker(0, 0, 2);
    let h = &system.workers[0].handler;
    assert_eq!(h.seen, vec![a, a, b]);
}

#[test]
fn shutdown_sentinel_ends_the_run_after_the_round() {
    // The sentinel arrives in the middle of a round: the round still runs
    // to its end, then the worker exits and hands its batch back.
    let cfg = Config {
        max_batch_size: 4,
        reschedule_duration: 1_000,
        pool_size: 1,
        low_priority_pool_size: 0,
    };
    let mut system = create_system::<Scripted>(&cfg, Fsm::new(0, Priority::Normal));
    let a = system.router().register(Priority::Normal);
    system.router().send(a, 1, 0);
    system.router().broadcast_shutdown(1, 0);
    let mut builder = plain_builder();
    system.spawn(String::from("test"), &mut builder);
    system.run_worker(0, 0, 10);
    let h = &system.workers[0].handler;
    // One round ran in full, then the worker stopped.
    assert_eq!(h.seen, vec![a]);
    assert_eq!(h.end_views.len(), 1);
    // The kept FSM went back to the queue on exit.
    assert_eq!(system.router.normal_queue.len(), 1);
}

#[test]
fn stopped_fsm_is_marked_for_removal() {
    let mut router = Router::new(Fsm::new(0, Priority::Normal));
    let a = router.register(Priority::Normal);
    let f = router.mailboxes[a].take_fsm().unwrap();
    let mut batch = Batch::with_capacity(1);
    batch.push(batch_system::router::FsmTypes::Normal(f, 0), 0);
    batch.normals[0].as_mut().unwrap().fsm.stopped = true;
    let mut reschedule: Vec<usize> = Vec::new();
    let mut to_skip_end: Vec<usize> = Vec::new();
    let mut poller = Poller {
        handler: Scripted::new(Priority::Normal),
        max_batch_size: 8,
        reschedule_duration: 1_000,
        priority: Priority::Normal,
        joinable: true,
    };
    poller.run_normals(
        &mut batch,
        &router,
        &mut reschedule,
        &mut to_skip_end,
        Priority::Normal,
        0,
    );
    assert_eq!(
        batch.normals[0].as_ref().unwrap().policy,
        Some(ReschedulePolicy::Remove)
    );
    assert_eq!(reschedule, vec![0]);
}
