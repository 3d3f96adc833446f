//! Decision core of the max-timestamp update task: a background job that
//! retries renewing a store's timestamp source until the observed
//! synchronization status goes stale or the renewal succeeds, then marks
//! success by setting the low bit of the status word.
//!
//! The renewal itself — asking the placement driver or the causal
//! timestamp provider for a fresh timestamp — is asynchronous I/O and
//! stays outside; this module decides, from plain observed values, whether
//! to retry, finish, or stop, whether a failure should be logged under the
//! throttling interval, and what the status word becomes on success.

use vstd::prelude::*;

use crate::poller::elapsed;

verus! {

/// What one renewal attempt came back with.
#[derive(Clone, Copy, PartialEq, Eq, Structural, Debug)]
pub enum AttemptOutcome {
    /// The timestamp source was renewed and the new maximum applied.
    Renewed,
    /// The attempt failed; the loop may try again.
    Failed,
}

/// The next step of the update loop.
#[derive(Clone, Copy, PartialEq, Eq, Structural, Debug)]
pub enum UpdateAction {
    /// Attempt another renewal.
    Retry,
    /// Mark the status as synchronized and stop: the renewal succeeded.
    Finish,
    /// Stop without marking: another update already changed the status
    /// word, or the system is shutting down.
    Stop,
}

/// Whether the update loop still has work: the status word is the one this
/// task was started with and the system is not shutting down.
pub fn should_continue(sync_status: u64, initial_status: u64, shutdown: bool) -> (r: bool)
    ensures
        r == (sync_status == initial_status && !shutdown),
{
    sync_status == initial_status && !shutdown
}

/// The status word that records success: the initial status with its low
/// bit set.
pub fn success_status(initial_status: u64) -> (r: u64)
    ensures
        r == initial_status | 1,
{
    initial_status | 1
}

/// Models the compare-and-exchange that marks success: only a status word
/// still equal to the initial one is replaced; a stale word is left alone
/// and the caller learns the update lost the race.
pub fn try_mark_synced(current: u64, initial_status: u64) -> (r: (u64, bool))
    ensures
        current == initial_status ==> r == ((initial_status | 1), true),
        current != initial_status ==> r == (current, false),
{
    if current == initial_status {
        (initial_status | 1, true)
    } else {
        (current, false)
    }
}

/// Failure log throttling: a failure is logged only when more than
/// `interval` has passed since the last logged one.
pub fn should_log(last_log: u64, now: u64, interval: u64) -> (r: bool)
    ensures
        r == (elapsed(last_log, now) > interval),
{
    let el = if now >= last_log {
        now - last_log
    } else {
        0
    };
    el > interval
}

/// One decision of the update loop, from the observed state and the
/// outcome of the last attempt: a stale status or a shutdown stops the
/// task; a successful renewal finishes it; a failure leads to another try.
pub fn update_step(
    sync_status: u64,
    initial_status: u64,
    shutdown: bool,
    attempt: AttemptOutcome,
) -> (a: UpdateAction)
    ensures
        !(sync_status == initial_status && !shutdown) ==> a == UpdateAction::Stop,
        (sync_status == initial_status && !shutdown && attempt == AttemptOutcome::Renewed)
            ==> a == UpdateAction::Finish,
        (sync_status == initial_status && !shutdown && attempt == AttemptOutcome::Failed)
            ==> a == UpdateAction::Retry,
{
    if !should_continue(sync_status, initial_status, shutdown) {
        UpdateAction::Stop
    } else {
        match attempt {
            AttemptOutcome::Renewed => UpdateAction::Finish,
            AttemptOutcome::Failed => UpdateAction::Retry,
        }
    }
}

} // verus!
