//! A batch system: a driver that schedules and executes many small,
//! message-driven finite state machines (FSMs) on a pool of workers.
//!
//! Each FSM lives in a mailbox. Producers push messages into the mailbox;
//! when a message arrives while the FSM is idle, the mailbox hands the FSM
//! to a scheduler queue. A poller pulls FSMs off the queue, groups them into
//! a batch, drives them through a user-supplied handler, and then decides
//! for each FSM whether it is released back to its mailbox, kept because it
//! is stopped but still has pending messages, or re-scheduled onto a queue.
//!
//! The implementation here is a sequential model of that system: channels
//! are explicit queues, the clock is an explicit timestamp argument, and
//! worker threads are poller values that the system runs to completion.
//! The handover protocol between mailbox, queue and batch — in particular
//! the `release` length check that detects a producer racing with the
//! poller — is stated in the contracts and verified.

pub mod batch;
pub mod fsm;
pub mod mailbox;
pub mod max_ts;
pub mod ownership;
pub mod poller;
pub mod router;
pub mod system;
