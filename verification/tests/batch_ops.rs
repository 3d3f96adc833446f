use batch_system::batch::{Batch, HandleResult, NormalFsm, ReschedulePolicy};
use batch_system::fsm::{Fsm, Priority};
use batch_system::mailbox::BasicMailbox;
use batch_system::router::{FsmTypes, Router};

#[test]
fn stop_at_builds_the_variant() {
    let r = HandleResult::stop_at(5, true);
    assert!(matches!(r, HandleResult::StopAt { progress: 5, skip_end: true }));
    let r = HandleResult::stop_at(0, false);
    assert!(matches!(r, HandleResult::StopAt { progress: 0, skip_end: false }));
}

#[test]
fn normal_fsm_new_starts_fresh() {
    let f = Fsm::new(3, Priority::Normal);
    let nf = NormalFsm::new(f, 42);
    assert_eq!(nf.fsm.addr, 3);
    assert_eq!(nf.timer, 42);
    assert_eq!(nf.round, 0);
    assert!(nf.policy.is_none());
}

#[test]
fn batch_push_and_clear() {
    let mut b = Batch::with_capacity(4);
    assert!(b.is_empty());
    assert!(b.push(FsmTypes::Normal(Fsm::new(0, Priority::Normal), 7), 7));
    assert!(!b.is_empty());
    assert!(b.push(FsmTypes::Control(Fsm::new(0, Priority::Normal), 7), 7));
    assert!(b.control.is_some());
    assert!(!b.push(FsmTypes::Empty, 7));
    assert_eq!(b.normals.len(), 1);
    b.clear();
    assert!(b.is_empty());
    assert!(b.control.is_none());
}

#[test]
fn tick_round_increments_live_slots() {
    let mut b = Batch::with_capacity(2);
    b.push(FsmTypes::Normal(Fsm::new(0, Priority::Normal), 0), 0);
    b.push(FsmTypes::Normal(Fsm::new(1, Priority::Normal), 0), 0);
    b.tick_round();
    b.tick_round();
    assert_eq!(b.normals[0].as_ref().unwrap().round, 2);
    assert_eq!(b.normals[1].as_ref().unwrap().round, 2);
}

#[test]
fn release_keeps_fsm_in_mailbox_when_length_matches() {
    let mut mb = BasicMailbox::new(Fsm::new(0, Priority::Normal));
    let f = mb.take_fsm().unwrap();
    mb.push(10);
    mb.push(11);
    let nf = NormalFsm::new(f, 0);
    let back = Batch::release(nf, 2, &mut mb);
    assert!(back.is_none());
    assert!(mb.fsm.is_some());
    assert_eq!(mb.len(), 2);
}

#[test]
fn release_takes_fsm_back_on_new_messages() {
    let mut mb = BasicMailbox::new(Fsm::new(0, Priority::Normal));
    let f = mb.take_fsm().unwrap();
    mb.push(10);
    mb.push(11);
    mb.push(12);
    let nf = NormalFsm::new(f, 0);
    // The handler acknowledged 2 messages, but a third arrived.
    let back = Batch::release(nf, 2, &mut mb);
    assert!(back.is_some());
    assert!(mb.fsm.is_none());
    assert_eq!(back.unwrap().fsm.addr, 0);
}

#[test]
fn remove_destroys_only_with_drained_mailbox() {
    let mut mb = BasicMailbox::new(Fsm::new(0, Priority::Normal));
    let f = mb.take_fsm().unwrap();
    let nf = NormalFsm::new(f, 0);
    assert!(Batch::remove(nf, &mut mb).is_none());
    assert!(mb.fsm.is_some());

    let mut mb2 = BasicMailbox::new(Fsm::new(1, Priority::Normal));
    let f2 = mb2.take_fsm().unwrap();
    mb2.push(1);
    let nf2 = NormalFsm::new(f2, 0);
    let back = Batch::remove(nf2, &mut mb2);
    assert!(back.is_some());
    assert!(mb2.fsm.is_none());
}

#[test]
fn remove_stores_stopped_fsm_once_all_messages_acknowledged() {
    // Drained means acknowledged, not never-used: a stopped FSM whose
    // progress has caught up with the delivered log is stored away.
    let mut mb = BasicMailbox::new(Fsm::new(0, Priority::Normal));
    let mut f = mb.take_fsm().unwrap();
    mb.push(1);
    mb.push(2);
    f.stopped = true;
    f.progress = 2;
    let nf = NormalFsm::new(f, 0);
    assert!(Batch::remove(nf, &mut mb).is_none());
    assert!(mb.fsm.is_some());
    assert_eq!(mb.len(), 2);
}

#[test]
fn schedule_remove_keeps_stopped_fsm_with_pending_messages() {
    // A stopped FSM whose mailbox is non-empty stays in the batch with its
    // policy cleared, so the handler can drain the rest.
    let mut router = Router::new(Fsm::new(0, Priority::Normal));
    let a = router.register(Priority::Normal);
    router.send(a, 7, 0);
    let item = router.try_recv(Priority::Normal).unwrap();
    let mut batch = Batch::with_capacity(2);
    batch.push(item, 0);
    {
        let slot = batch.normals[0].as_mut().unwrap();
        slot.fsm.stopped = true;
        slot.policy = Some(ReschedulePolicy::Remove);
    }
    batch.schedule(&mut router, 0, 0);
    let slot = batch.normals[0].as_ref().unwrap();
    assert_eq!(slot.fsm.addr, a);
    assert!(slot.policy.is_none());
    assert!(router.mailboxes[a].fsm.is_none());
}

#[test]
fn schedule_remove_stores_stopped_fsm_with_empty_mailbox() {
    let mut router = Router::new(Fsm::new(0, Priority::Normal));
    let a = router.register(Priority::Normal);
    let f = router.mailboxes[a].take_fsm().unwrap();
    let mut batch = Batch::with_capacity(2);
    batch.push(FsmTypes::Normal(f, 0), 0);
    {
        let slot = batch.normals[0].as_mut().unwrap();
        slot.fsm.stopped = true;
        slot.policy = Some(ReschedulePolicy::Remove);
    }
    batch.schedule(&mut router, 0, 0);
    assert!(batch.normals[0].is_none());
    assert!(router.mailboxes[a].fsm.is_some());
}

#[test]
fn schedule_sends_fsm_back_through_router() {
    let mut router = Router::new(Fsm::new(0, Priority::Normal));
    let a = router.register(Priority::Low);
    let f = router.mailboxes[a].take_fsm().unwrap();
    let mut batch = Batch::with_capacity(2);
    batch.push(FsmTypes::Normal(f, 0), 0);
    batch.normals[0].as_mut().unwrap().policy = Some(ReschedulePolicy::Schedule);
    batch.schedule(&mut router, 0, 9);
    assert!(batch.normals[0].is_none());
    // A low-priority FSM goes to the low queue.
    assert_eq!(router.low_queue.len(), 1);
    assert!(matches!(router.low_queue[0], FsmTypes::Normal(g, 9) if g.addr == a));
}

#[test]
fn swap_reclaim_compacts_only_empty_slots() {
    let mut b = Batch::with_capacity(3);
    b.push(FsmTypes::Normal(Fsm::new(0, Priority::Normal), 0), 0);
    b.push(FsmTypes::Normal(Fsm::new(1, Priority::Normal), 0), 0);
    b.push(FsmTypes::Normal(Fsm::new(2, Priority::Normal), 0), 0);
    b.swap_reclaim(1);
    assert_eq!(b.normals.len(), 3);
    b.normals[1] = None;
    b.swap_reclaim(1);
    assert_eq!(b.normals.len(), 2);
    assert_eq!(b.normals[1].as_ref().unwrap().fsm.addr, 2);
}

#[test]
fn release_control_by_checked_length() {
    let mut box0 = BasicMailbox::new(Fsm::new(0, Priority::Normal));
    let c = box0.take_fsm().unwrap();
    box0.push(1);
    let mut b = Batch::with_capacity(1);
    b.push(FsmTypes::Control(c, 0), 0);
    // The handler acknowledged one control message: lengths match.
    assert!(b.release_control(&mut box0, 1));
    assert!(b.control.is_none());
    assert!(box0.fsm.is_some());
}

#[test]
fn release_control_retakes_on_new_messages() {
    let mut box0 = BasicMailbox::new(Fsm::new(0, Priority::Normal));
    let c = box0.take_fsm().unwrap();
    box0.push(1);
    box0.push(2);
    let mut b = Batch::with_capacity(1);
    b.push(FsmTypes::Control(c, 0), 0);
    assert!(!b.release_control(&mut box0, 1));
    assert!(b.control.is_some());
    assert!(box0.fsm.is_none());
}

#[test]
fn remove_control_waits_for_drained_mailbox() {
    let mut box0 = BasicMailbox::new(Fsm::new(0, Priority::Normal));
    let c = box0.take_fsm().unwrap();
    box0.push(1);
    let mut b = Batch::with_capacity(1);
    b.push(FsmTypes::Control(c, 0), 0);
    b.remove_control(&mut box0);
    assert!(b.control.is_some());
    assert!(box0.fsm.is_none());

    let mut box1 = BasicMailbox::new(Fsm::new(0, Priority::Normal));
    let c1 = box1.take_fsm().unwrap();
    let mut b1 = Batch::with_capacity(1);
    b1.push(FsmTypes::Control(c1, 0), 0);
    b1.remove_control(&mut box1);
    assert!(b1.control.is_none());
    assert!(box1.fsm.is_some());
}
