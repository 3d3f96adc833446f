use batch_system::batch::NormalFsm;
use batch_system::fsm::{Fsm, Priority};
use batch_system::poller::{HandlerBuilder, PollHandler};
use batch_system::router::{FsmTypes, Router};
use batch_system::system::{create_system, BatchSystem, Config};

/// A handler that never stops an FSM on its own; it just counts.
struct Counting {
    priority: Priority,
    handled: usize,
    paused: usize,
    controls: usize,
}

impl PollHandler for Counting {
    fn begin(&mut self, _batch_size_hint: usize) -> Option<usize> {
        None
    }

    fn handle_control(&mut self, _control: &mut Fsm) -> Option<usize> {
        self.controls += 1;
        Some(1)
    }

    fn handle_normal(&mut self, normal: &mut Fsm, msgs: &Vec<u64>) -> batch_system::batch::HandleResult {
        self.handled += 1;
        normal.progress = msgs.len();
        batch_system::batch::HandleResult::stop_at(msgs.len(), false)
    }

    fn light_end(&mut self, _batch: &mut Vec<Option<NormalFsm>>) {}

    fn end(&mut self, _batch: &mut Vec<Option<NormalFsm>>) {}

    fn pause(&mut self) {
        self.paused += 1;
    }

    fn get_priority(&self) -> Priority {
        self.priority
    }
}

struct CountingBuilder;

impl HandlerBuilder for CountingBuilder {
    type Handler = Counting;

    fn build(&mut self, priority: Priority) -> Counting {
        Counting { priority, handled: 0, paused: 0, controls: 0 }
    }
}

fn owners_of(router: &Router, addr: usize) -> usize {
    let mut n = 0;
    if router.mailboxes[addr].fsm.is_some() {
        n += 1;
    }
    for it in router.normal_queue.iter().chain(router.low_queue.iter()) {
        if let FsmTypes::Normal(f, _) = it {
            if f.addr == addr {
                n += 1;
            }
        }
    }
    n
}

#[test]
fn send_schedules_idle_fsm_exactly_once() {
    let mut router = Router::new(Fsm::new(0, Priority::Normal));
    let a = router.register(Priority::Normal);
    assert!(router.send(a, 1, 0));
    assert!(!router.send(a, 2, 0));
    assert_eq!(router.normal_queue.len(), 1);
    assert_eq!(router.mailboxes[a].len(), 2);
    assert_eq!(owners_of(&router, a), 1);
}

#[test]
fn control_send_goes_to_normal_queue() {
    let mut router = Router::new(Fsm::new(0, Priority::Normal));
    assert!(router.send_control(9, 0));
    assert!(!router.send_control(10, 0));
    assert_eq!(router.normal_queue.len(), 1);
    assert!(matches!(router.normal_queue[0], FsmTypes::Control(_, _)));
    assert_eq!(router.control_box.len(), 2);
}

#[test]
fn broadcast_shutdown_enqueues_one_sentinel_per_worker() {
    let mut router = Router::new(Fsm::new(0, Priority::Normal));
    router.broadcast_shutdown(2, 1);
    assert_eq!(router.normal_queue.len(), 2);
    assert_eq!(router.low_queue.len(), 1);
    assert!(router.normal_queue.iter().all(|it| matches!(it, FsmTypes::Empty)));
    assert!(router.low_queue.iter().all(|it| matches!(it, FsmTypes::Empty)));
}

#[test]
fn control_fsm_is_released_by_checked_length() {
    let cfg = Config {
        max_batch_size: 2,
        reschedule_duration: 1_000,
        pool_size: 1,
        low_priority_pool_size: 0,
    };
    let mut system = create_system::<Counting>(&cfg, Fsm::new(0, Priority::Normal));
    system.router().send_control(42, 0);
    let mut builder = CountingBuilder;
    system.spawn(String::from("test"), &mut builder);
    system.run_worker(0, 0, 1);
    assert_eq!(system.workers[0].handler.controls, 1);
    // `handle_control` acknowledged one message, matching the mailbox
    // length, so the control FSM went back to its mailbox.
    assert!(system.router.control_box.fsm.is_some());
}

#[test]
fn graceful_shutdown_joins_every_worker() {
    // Two workers; one picks up the only FSM, the other pauses on an empty
    // queue. After shutdown no worker remains and both were joined.
    let cfg = Config {
        max_batch_size: 2,
        reschedule_duration: 1_000,
        pool_size: 2,
        low_priority_pool_size: 0,
    };
    let mut system = create_system::<Counting>(&cfg, Fsm::new(0, Priority::Normal));
    let a = system.router().register(Priority::Normal);
    system.router().send(a, 1, 0);
    let mut builder = CountingBuilder;
    system.spawn(String::from("test"), &mut builder);
    assert_eq!(system.workers.len(), 2);

    system.run_worker(0, 0, 1);
    system.run_worker(1, 0, 1);
    assert_eq!(system.workers[0].handler.handled, 1);
    assert_eq!(system.workers[1].handler.paused, 1);

    system.shutdown(0, 4);
    assert_eq!(system.workers.len(), 0);
    assert_eq!(system.joinable_workers.len(), 2);
    assert!(system.name_prefix.is_none());
}

#[test]
fn shutdown_without_spawn_is_a_no_op() {
    let cfg = Config {
        max_batch_size: 2,
        reschedule_duration: 1_000,
        pool_size: 1,
        low_priority_pool_size: 0,
    };
    let mut system = create_system::<Counting>(&cfg, Fsm::new(0, Priority::Normal));
    system.shutdown(0, 4);
    assert_eq!(system.workers.len(), 0);
    assert_eq!(system.joinable_workers.len(), 0);
}

#[test]
fn no_fsm_is_lost_or_duplicated_across_a_run() {
    // A stream of schedule operations followed by shutdown: afterwards
    // every FSM has exactly one owner, its mailbox or a queue position.
    let cfg = Config {
        max_batch_size: 3,
        reschedule_duration: 1_000,
        pool_size: 2,
        low_priority_pool_size: 1,
    };
    let mut system = create_system::<Counting>(&cfg, Fsm::new(0, Priority::Normal));
    let mut addrs = Vec::new();
    for i in 0..5 {
        let a = system.router().register(if i % 2 == 0 {
            Priority::Normal
        } else {
            Priority::Low
        });
        addrs.push(a);
    }
    for (k, a) in addrs.iter().enumerate() {
        system.router().send(*a, k as u64, 0);
    }
    let mut builder = CountingBuilder;
    system.spawn(String::from("test"), &mut builder);
    system.run_worker(0, 0, 2);
    system.run_worker(2, 0, 2);
    for a in &addrs {
        system.router().send(*a, 99, 0);
    }
    system.run_worker(1, 0, 1);
    system.shutdown(0, 4);

    assert_eq!(system.workers.len(), 0);
    for a in &addrs {
        assert_eq!(owners_of(&system.router, *a), 1);
    }
}

#[test]
fn build_pool_state_snapshots_the_pool() {
    let cfg = Config {
        max_batch_size: 7,
        reschedule_duration: 123,
        pool_size: 2,
        low_priority_pool_size: 1,
    };
    let mut system: BatchSystem<Counting> = create_system(&cfg, Fsm::new(0, Priority::Normal));
    let mut builder = CountingBuilder;
    system.spawn(String::from("pool"), &mut builder);
    let state = system.build_pool_state(CountingBuilder);
    assert_eq!(state.name_prefix, String::from("pool"));
    assert_eq!(state.expected_pool_size, 2);
    assert_eq!(state.low_priority_pool_size, 1);
    assert_eq!(state.max_batch_size, 7);
    assert_eq!(state.reschedule_duration, 123);
    assert_eq!(state.id_base, 2);
}
