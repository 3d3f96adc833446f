//! Ownership accounting: at any instant, every FSM has exactly one owner —
//! its mailbox slot, one scheduler queue position, or one batch slot.
//!
//! `owners` counts the holders of one address across a router and a batch;
//! `unique_owners` says the count is one for every registered address and
//! for the control FSM. The poller and the batch dispositions preserve this
//! invariant, which is what makes the handover protocol race-free: no FSM
//! is ever duplicated, and none is lost.

use vstd::prelude::*;

use crate::batch::{Batch, NormalFsm};
use crate::router::{FsmTypes, Router};

verus! {

/// Sum of `f` over the elements of `s`.
pub open spec fn count_seq<T>(s: Seq<T>, f: spec_fn(T) -> nat) -> nat
    decreases s.len(),
{
    if s.len() == 0 {
        0
    } else {
        count_seq(s.drop_last(), f) + f(s.last())
    }
}

/// Appending an element adds its contribution.
pub proof fn lemma_count_push<T>(s: Seq<T>, x: T, f: spec_fn(T) -> nat)
    ensures
        count_seq(s.push(x), f) == count_seq(s, f) + f(x),
{
    assert(s.push(x).drop_last() =~= s);
}

/// The count splits off the first element as well as the last.
pub proof fn lemma_count_first<T>(s: Seq<T>, f: spec_fn(T) -> nat)
    requires
        s.len() > 0,
    ensures
        count_seq(s, f) == f(s[0]) + count_seq(s.drop_first(), f),
    decreases s.len(),
{
    if s.len() == 1 {
        assert(s.drop_first() =~= s.drop_last());
    } else {
        lemma_count_first(s.drop_last(), f);
        assert(s.drop_last().drop_first() =~= s.drop_first().drop_last());
        assert(s.drop_first().last() == s.last());
    }
}

/// Replacing the element at `i` exchanges its contribution.
pub proof fn lemma_count_update<T>(s: Seq<T>, i: int, v: T, f: spec_fn(T) -> nat)
    requires
        0 <= i < s.len(),
    ensures
        count_seq(s.update(i, v), f) + f(s[i]) == count_seq(s, f) + f(v),
    decreases s.len(),
{
    if i == s.len() - 1 {
        assert(s.update(i, v).drop_last() =~= s.drop_last());
        assert(s.update(i, v).last() == v);
    } else {
        lemma_count_update(s.drop_last(), i, v, f);
        assert(s.update(i, v).drop_last() =~= s.drop_last().update(i, v));
        assert(s.update(i, v).last() == s.last());
    }
}

/// Dropping the last element removes its contribution.
pub proof fn lemma_count_drop_last<T>(s: Seq<T>, f: spec_fn(T) -> nat)
    requires
        s.len() > 0,
    ensures
        count_seq(s, f) == count_seq(s.drop_last(), f) + f(s.last()),
{
}

/// Swap-removing the element at `i` — replacing it by the last element and
/// dropping the tail — removes exactly its contribution.
pub proof fn lemma_count_swap_remove<T>(s: Seq<T>, i: int, f: spec_fn(T) -> nat)
    requires
        0 <= i < s.len(),
    ensures
        count_seq(s.update(i, s.last()).drop_last(), f) + f(s[i]) == count_seq(s, f),
{
    if i == s.len() - 1 {
        assert(s.update(i, s.last()) =~= s);
    } else {
        lemma_count_update(s, i, s.last(), f);
        lemma_count_drop_last(s.update(i, s.last()), f);
        assert(s.update(i, s.last()).last() == s.last());
    }
}

/// Two sequences whose elements contribute pointwise the same count the
/// same.
pub proof fn lemma_count_pointwise<T>(s1: Seq<T>, s2: Seq<T>, f: spec_fn(T) -> nat)
    requires
        s1.len() == s2.len(),
        forall|i: int| 0 <= i < s1.len() ==> f(s1[i]) == f(s2[i]),
    ensures
        count_seq(s1, f) == count_seq(s2, f),
    decreases s1.len(),
{
    if s1.len() > 0 {
        lemma_count_pointwise(s1.drop_last(), s2.drop_last(), f);
        assert(f(s1.last()) == f(s2.last()));
    }
}

/// The count dominates each single contribution.
pub proof fn lemma_count_ge_one<T>(s: Seq<T>, i: int, f: spec_fn(T) -> nat)
    requires
        0 <= i < s.len(),
    ensures
        count_seq(s, f) >= f(s[i]),
    decreases s.len(),
{
    if i == s.len() - 1 {
        assert(s.last() == s[i]);
    } else {
        lemma_count_ge_one(s.drop_last(), i, f);
        assert(s.drop_last()[i] == s[i]);
    }
}

/// The count dominates the sum of two distinct contributions.
pub proof fn lemma_count_two<T>(s: Seq<T>, i: int, j: int, f: spec_fn(T) -> nat)
    requires
        0 <= i < j < s.len(),
    ensures
        count_seq(s, f) >= f(s[i]) + f(s[j]),
    decreases s.len(),
{
    if j == s.len() - 1 {
        lemma_count_ge_one(s.drop_last(), i, f);
        assert(s.drop_last()[i] == s[i]);
        assert(s.last() == s[j]);
    } else {
        lemma_count_two(s.drop_last(), i, j, f);
        assert(s.drop_last()[i] == s[i]);
        assert(s.drop_last()[j] == s[j]);
    }
}

/// A sequence of elements that all contribute zero counts zero.
pub proof fn lemma_count_all_zero<T>(s: Seq<T>, f: spec_fn(T) -> nat)
    requires
        forall|i: int| 0 <= i < s.len() ==> f(s[i]) == 0,
    ensures
        count_seq(s, f) == 0,
    decreases s.len(),
{
    if s.len() > 0 {
        lemma_count_all_zero(s.drop_last(), f);
        assert(f(s.last()) == 0);
    }
}

/// A zero count means every element contributes zero.
pub proof fn lemma_count_zero<T>(s: Seq<T>, f: spec_fn(T) -> nat)
    requires
        count_seq(s, f) == 0,
    ensures
        forall|i: int| 0 <= i < s.len() ==> f(s[i]) == 0,
{
    assert forall|i: int| 0 <= i < s.len() implies f(s[i]) == 0 by {
        lemma_count_ge_one(s, i, f);
    }
}

/// Extending a sequence by elements that contribute zero keeps its count.
pub proof fn lemma_count_extend_zero<T>(s1: Seq<T>, s2: Seq<T>, f: spec_fn(T) -> nat)
    requires
        s1.len() <= s2.len(),
        forall|i: int| 0 <= i < s1.len() ==> s2[i] == s1[i],
        forall|i: int| s1.len() <= i < s2.len() ==> f(#[trigger] s2[i]) == 0,
    ensures
        count_seq(s2, f) == count_seq(s1, f),
    decreases s2.len(),
{
    if s2.len() > s1.len() {
        lemma_count_extend_zero(s1, s2.drop_last(), f);
        assert(f(s2.last()) == 0);
    } else {
        lemma_count_pointwise(s1, s2, f);
    }
}

/// Contribution of one queue item to the owner count of address `a`.
pub open spec fn item_contrib(a: nat) -> spec_fn(FsmTypes) -> nat {
    |it: FsmTypes|
        match it {
            FsmTypes::Normal(f, _) => if f.addr == a {
                1nat
            } else {
                0nat
            },
            _ => 0nat,
        }
}

/// Contribution of one queue item to the control owner count.
pub open spec fn control_contrib() -> spec_fn(FsmTypes) -> nat {
    |it: FsmTypes|
        match it {
            FsmTypes::Control(_, _) => 1nat,
            _ => 0nat,
        }
}

/// Contribution of one batch slot to the owner count of address `a`.
pub open spec fn slot_contrib(a: nat) -> spec_fn(Option<NormalFsm>) -> nat {
    |s: Option<NormalFsm>|
        match s {
            Some(f) => if f.fsm.addr == a {
                1nat
            } else {
                0nat
            },
            None => 0nat,
        }
}

/// How many owners the FSM of address `a` has inside the router alone:
/// its mailbox slot plus every queue position.
pub open spec fn router_owners(r: Router, a: nat) -> nat {
    (if a < r.mailboxes@.len() && r.mailboxes@[a as int].fsm.is_some() {
        1nat
    } else {
        0nat
    }) + count_seq(r.normal_queue@, item_contrib(a)) + count_seq(r.low_queue@, item_contrib(a))
}

/// How many owners the control FSM has inside the router alone.
pub open spec fn router_control_owners(r: Router) -> nat {
    (if r.control_box.fsm.is_some() {
        1nat
    } else {
        0nat
    }) + count_seq(r.normal_queue@, control_contrib()) + count_seq(
        r.low_queue@,
        control_contrib(),
    )
}

/// How many owners the FSM of address `a` has across a router and one
/// batch.
pub open spec fn owners(r: Router, b: Batch, a: nat) -> nat {
    router_owners(r, a) + count_seq(b.normals@, slot_contrib(a))
}

/// How many owners the control FSM has across a router and one batch.
pub open spec fn control_owners(r: Router, b: Batch) -> nat {
    router_control_owners(r) + (if b.control.is_some() {
        1nat
    } else {
        0nat
    })
}

/// Unique ownership over a router and one active batch: every registered
/// FSM and the control FSM have exactly one owner.
pub open spec fn unique_owners(r: Router, b: Batch) -> bool {
    &&& forall|a: nat| a < r.mailboxes@.len() ==> #[trigger] owners(r, b, a) == 1
    &&& control_owners(r, b) == 1
}

/// Unique ownership over a router while no batch is in flight.
pub open spec fn router_unique(r: Router) -> bool {
    &&& forall|a: nat| a < r.mailboxes@.len() ==> #[trigger] router_owners(r, a) == 1
    &&& router_control_owners(r) == 1
}

/// With an empty batch, uniqueness over the router is uniqueness over the
/// pair.
pub proof fn lemma_empty_batch_owners(r: Router, b: Batch)
    requires
        b.normals@.len() == 0,
        b.control.is_none(),
    ensures
        unique_owners(r, b) <==> router_unique(r),
{
    assert(b.normals@ =~= Seq::<Option<NormalFsm>>::empty());
    assert forall|a: nat| #[trigger] owners(r, b, a) == router_owners(r, a) by {
        assert(count_seq(b.normals@, slot_contrib(a)) == 0);
    }
    assert(control_owners(r, b) == router_control_owners(r));
    if unique_owners(r, b) {
        assert forall|a: nat| a < r.mailboxes@.len() implies #[trigger] router_owners(r, a)
            == 1 by {
            assert(owners(r, b, a) == 1);
        }
    }
    if router_unique(r) {
        assert forall|a: nat| a < r.mailboxes@.len() implies #[trigger] owners(r, b, a) == 1 by {
            assert(router_owners(r, a) == 1);
        }
    }
}

/// Owner counts depend only on which mailbox slots are occupied, which
/// addresses stand where in the queues and the batch, and who has the
/// control FSM. States that agree on those agree on every owner count.
pub proof fn lemma_owners_pointwise(r1: Router, r2: Router, b1: Batch, b2: Batch)
    requires
        r1.mailboxes@.len() == r2.mailboxes@.len(),
        forall|i: int|
            0 <= i < r1.mailboxes@.len() ==> r1.mailboxes@[i].fsm.is_some()
                == #[trigger] r2.mailboxes@[i].fsm.is_some(),
        r1.normal_queue@ == r2.normal_queue@,
        r1.low_queue@ == r2.low_queue@,
        b1.normals@.len() == b2.normals@.len(),
        forall|i: int|
            0 <= i < b1.normals@.len() ==> match (b1.normals@[i], #[trigger] b2.normals@[i]) {
                (Some(x), Some(y)) => x.fsm.addr == y.fsm.addr,
                (None, None) => true,
                _ => false,
            },
    ensures
        forall|a: nat| #[trigger] owners(r2, b2, a) == owners(r1, b1, a),
{
    assert forall|a: nat| #[trigger] owners(r2, b2, a) == owners(r1, b1, a) by {
        lemma_count_pointwise(b1.normals@, b2.normals@, slot_contrib(a));
    }
}

/// Unique ownership carries over to a state that agrees on everything the
/// owner counts read.
pub proof fn lemma_unique_same(r1: Router, r2: Router, b1: Batch, b2: Batch)
    requires
        unique_owners(r1, b1),
        r1.mailboxes@.len() == r2.mailboxes@.len(),
        forall|i: int|
            0 <= i < r1.mailboxes@.len() ==> r1.mailboxes@[i].fsm.is_some()
                == #[trigger] r2.mailboxes@[i].fsm.is_some(),
        r1.normal_queue@ == r2.normal_queue@,
        r1.low_queue@ == r2.low_queue@,
        r1.control_box.fsm.is_some() == r2.control_box.fsm.is_some(),
        b1.normals@.len() == b2.normals@.len(),
        forall|i: int|
            0 <= i < b1.normals@.len() ==> match (b1.normals@[i], #[trigger] b2.normals@[i]) {
                (Some(x), Some(y)) => x.fsm.addr == y.fsm.addr,
                (None, None) => true,
                _ => false,
            },
        b1.control.is_some() == b2.control.is_some(),
    ensures
        unique_owners(r2, b2),
{
    lemma_owners_pointwise(r1, r2, b1, b2);
    assert forall|a: nat| a < r2.mailboxes@.len() implies #[trigger] owners(r2, b2, a) == 1 by {
        assert(owners(r1, b1, a) == 1);
    }
    assert(control_owners(r2, b2) == control_owners(r1, b1));
}

/// Unique ownership, spelled out: under `unique_owners` no FSM is
/// reachable twice — not from two batch slots, not from a batch slot and
/// its mailbox's FSM slot, and not from a batch slot and a queue position.
pub proof fn lemma_unique_ownership(r: Router, b: Batch)
    requires
        unique_owners(r, b),
        b.slots_ok(r),
    ensures
        b.distinct_addrs(),
        forall|i: int|
            0 <= i < b.normals@.len() ==> match #[trigger] b.normals@[i] {
                Some(f) => r.mailboxes@[f.fsm.addr as int].fsm.is_none(),
                None => true,
            },
        forall|i: int, k: int|
            0 <= i < b.normals@.len() && 0 <= k < r.normal_queue@.len() ==> match (
                b.normals@[i],
                #[trigger] r.normal_queue@[k],
            ) {
                (Some(f), FsmTypes::Normal(g, _)) => (#[trigger] b.normals@[i])->Some_0.fsm.addr
                    != g.addr,
                _ => true,
            },
        forall|i: int, k: int|
            0 <= i < b.normals@.len() && 0 <= k < r.low_queue@.len() ==> match (
                b.normals@[i],
                #[trigger] r.low_queue@[k],
            ) {
                (Some(f), FsmTypes::Normal(g, _)) => (#[trigger] b.normals@[i])->Some_0.fsm.addr
                    != g.addr,
                _ => true,
            },
{
    assert forall|i: int, j: int|
        0 <= i < b.normals@.len() && 0 <= j < b.normals@.len() && i != j
            && b.normals@[i].is_some() && b.normals@[j].is_some() implies (
    #[trigger] b.normals@[i])->Some_0.fsm.addr != (#[trigger] b.normals@[j])->Some_0.fsm.addr by {
        let x = b.normals@[i]->Some_0;
        let y = b.normals@[j]->Some_0;
        if x.fsm.addr == y.fsm.addr {
            let a = x.fsm.addr as nat;
            if i < j {
                lemma_count_two(b.normals@, i, j, slot_contrib(a));
            } else {
                lemma_count_two(b.normals@, j, i, slot_contrib(a));
            }
            assert(owners(r, b, a) == 1);
        }
    }
    assert forall|i: int|
        0 <= i < b.normals@.len() implies match #[trigger] b.normals@[i] {
        Some(f) => r.mailboxes@[f.fsm.addr as int].fsm.is_none(),
        None => true,
    } by {
        match b.normals@[i] {
            Some(f) => {
                let a = f.fsm.addr as nat;
                if r.mailboxes@[f.fsm.addr as int].fsm.is_some() {
                    lemma_count_ge_one(b.normals@, i, slot_contrib(a));
                    assert(owners(r, b, a) == 1);
                    assert(false);
                }
            }
            None => {}
        }
    }
    assert forall|i: int, k: int|
        0 <= i < b.normals@.len() && 0 <= k < r.normal_queue@.len() implies match (
        b.normals@[i],
        #[trigger] r.normal_queue@[k],
    ) {
        (Some(f), FsmTypes::Normal(g, _)) => (#[trigger] b.normals@[i])->Some_0.fsm.addr
            != g.addr,
        _ => true,
    } by {
        match (b.normals@[i], r.normal_queue@[k]) {
            (Some(f), FsmTypes::Normal(g, _)) => {
                if f.fsm.addr == g.addr {
                    let a = g.addr as nat;
                    lemma_count_ge_one(b.normals@, i, slot_contrib(a));
                    lemma_count_ge_one(r.normal_queue@, k, item_contrib(a));
                    assert(owners(r, b, a) == 1);
                    assert(false);
                }
            }
            _ => {}
        }
    }
    assert forall|i: int, k: int|
        0 <= i < b.normals@.len() && 0 <= k < r.low_queue@.len() implies match (
        b.normals@[i],
        #[trigger] r.low_queue@[k],
    ) {
        (Some(f), FsmTypes::Normal(g, _)) => (#[trigger] b.normals@[i])->Some_0.fsm.addr
            != g.addr,
        _ => true,
    } by {
        match (b.normals@[i], r.low_queue@[k]) {
            (Some(f), FsmTypes::Normal(g, _)) => {
                if f.fsm.addr == g.addr {
                    let a = g.addr as nat;
                    lemma_count_ge_one(b.normals@, i, slot_contrib(a));
                    lemma_count_ge_one(r.low_queue@, k, item_contrib(a));
                    assert(owners(r, b, a) == 1);
                    assert(false);
                }
            }
            _ => {}
        }
    }
}

/// No lost FSMs: while no batch is in flight — between worker runs, and
/// after shutdown — every registered FSM has exactly one owner inside the
/// router. In particular it rests in its mailbox exactly when it stands on
/// no scheduler queue: nothing scheduled is ever dropped or duplicated.
pub proof fn lemma_no_lost_fsms(r: Router)
    requires
        router_unique(r),
    ensures
        forall|a: nat|
            a < r.mailboxes@.len() ==> ((#[trigger] r.mailboxes@[a as int].fsm).is_some()
                <==> count_seq(r.normal_queue@, item_contrib(a)) + count_seq(
                r.low_queue@,
                item_contrib(a),
            ) == 0),
{
    assert forall|a: nat|
        a < r.mailboxes@.len() implies ((#[trigger] r.mailboxes@[a as int].fsm).is_some()
        <==> count_seq(r.normal_queue@, item_contrib(a)) + count_seq(
        r.low_queue@,
        item_contrib(a),
    ) == 0) by {
        assert(router_owners(r, a) == 1);
    }
}

/// An FSM at the head of a scheduler queue is owned by that queue alone:
/// its mailbox slot is empty and no batch slot holds its address.
pub proof fn lemma_queue_head_exclusive(r: Router, b: Batch, f: crate::fsm::Fsm, from_low: bool)
    requires
        unique_owners(r, b),
        r.wf(),
        !from_low ==> r.normal_queue@.len() > 0 && (exists|t: u64|
            r.normal_queue@[0] == FsmTypes::Normal(f, t)),
        from_low ==> r.low_queue@.len() > 0 && (exists|t: u64|
            r.low_queue@[0] == FsmTypes::Normal(f, t)),
    ensures
        f.addr < r.mailboxes@.len(),
        r.mailboxes@[f.addr as int].fsm.is_none(),
        count_seq(b.normals@, slot_contrib(f.addr as nat)) == 0,
        forall|i: int|
            0 <= i < b.normals@.len() ==> match #[trigger] b.normals@[i] {
                Some(g) => g.fsm.addr != f.addr,
                None => true,
            },
{
    let a = f.addr as nat;
    if !from_low {
        lemma_count_ge_one(r.normal_queue@, 0, item_contrib(a));
    } else {
        lemma_count_ge_one(r.low_queue@, 0, item_contrib(a));
    }
    assert(owners(r, b, a) == 1);
    lemma_count_zero(b.normals@, slot_contrib(a));
    assert forall|i: int| 0 <= i < b.normals@.len() implies match #[trigger] b.normals@[i] {
        Some(g) => g.fsm.addr != f.addr,
        None => true,
    } by {
        assert(slot_contrib(a)(b.normals@[i]) == 0);
    }
}

/// The control FSM at the head of a queue is owned by that queue alone:
/// neither the control mailbox nor the batch holds it.
pub proof fn lemma_control_head_exclusive(r: Router, b: Batch, from_low: bool)
    requires
        unique_owners(r, b),
        !from_low ==> r.normal_queue@.len() > 0 && r.normal_queue@[0] matches FsmTypes::Control(
            _,
            _,
        ),
        from_low ==> r.low_queue@.len() > 0 && r.low_queue@[0] matches FsmTypes::Control(_, _),
    ensures
        r.control_box.fsm.is_none(),
        b.control.is_none(),
{
    if !from_low {
        lemma_count_ge_one(r.normal_queue@, 0, control_contrib());
    } else {
        lemma_count_ge_one(r.low_queue@, 0, control_contrib());
    }
    assert(control_owners(r, b) == 1);
}

/// A batch that owns the control FSM is its only owner: the control
/// mailbox slot is empty.
pub proof fn lemma_batch_control_exclusive(r: Router, b: Batch)
    requires
        unique_owners(r, b),
        b.control.is_some(),
    ensures
        r.control_box.fsm.is_none(),
{
    assert(control_owners(r, b) == 1);
}

} // verus!
