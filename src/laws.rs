use crate::shared::{lemma_remove_ticket, remove_ticket, LockModel, LockOp};
use vstd::prelude::*;

verus! {

/// Every operation keeps a well-formed state well-formed.
pub proof fn lemma_step_wf(s: LockModel, op: LockOp)
    requires
        s.wf(),
    ensures
        s.step(op).wf(),
{
    match op {
        LockOp::Request => {
            if s.can_issue() {
                s.lemma_request_wf();
            }
        },
        LockOp::Release(t) => {
            if s.holds(t) {
                s.lemma_release_wf();
            }
        },
        LockOp::Cancel(t) => {
            s.lemma_cancel_wf(t);
        },
    }
}

/// Mutual exclusion: whatever requests, releases and withdrawals the users
/// of one lock make, in whatever order, the state stays well-formed. So at most one
/// ticket holds the lock at any time, and the holder is never also among the
/// waiting tickets.
pub proof fn lemma_mutual_exclusion(s: LockModel, ops: Seq<LockOp>, t1: u64, t2: u64)
    requires
        s.wf(),
    ensures
        s.run(ops).wf(),
        s.run(ops).holds(t1) && s.run(ops).holds(t2) ==> t1 == t2,
        s.run(ops).holder matches Some(h) ==> !s.run(ops).waiting.contains(h),
    decreases ops.len(),
{
    if ops.len() > 0 {
        lemma_step_wf(s, ops[0]);
        lemma_mutual_exclusion(s.step(ops[0]), ops.drop_first(), t1, t2);
    }
    let r = s.run(ops);
    if let Some(h) = r.holder {
        if r.waiting.contains(h) {
            let i = choose|i: int| 0 <= i < r.waiting.len() && r.waiting[i] == h;
            assert(h < r.waiting[i]);
        }
    }
}

/// The state after `n` successive releases, each made by whoever holds the
/// lock at that point.
pub open spec fn handoffs(s: LockModel, n: nat) -> LockModel
    decreases n,
{
    if n == 0 {
        s
    } else {
        match s.holder {
            Some(h) => handoffs(s.step(LockOp::Release(h)), (n - 1) as nat),
            None => s,
        }
    }
}

/// Eventual acquisition: a ticket waiting at position `i` of the queue holds
/// the lock once the holders have released it `i + 1` times.
pub proof fn lemma_eventual_acquisition(s: LockModel, i: int)
    requires
        s.wf(),
        0 <= i < s.waiting.len(),
    ensures
        handoffs(s, (i + 1) as nat).holds(s.waiting[i]),
    decreases i,
{
    let h = s.holder.unwrap();
    let r = s.step(LockOp::Release(h));
    assert(r == s.release());
    s.lemma_release_wf();
    if i > 0 {
        assert(r.waiting[i - 1] == s.waiting[i]);
        lemma_eventual_acquisition(r, i - 1);
    }
}

/// FIFO fairness: waiting tickets are granted in queue order, which is
/// increasing ticket order: the ticket at an earlier position is smaller and
/// is granted after fewer releases.
pub proof fn lemma_fifo_grant_order(s: LockModel, i: int, j: int)
    requires
        s.wf(),
        0 <= i < j < s.waiting.len(),
    ensures
        s.waiting[i] < s.waiting[j],
        handoffs(s, (i + 1) as nat).holds(s.waiting[i]),
        handoffs(s, (j + 1) as nat).holds(s.waiting[j]),
{
    lemma_eventual_acquisition(s, i);
    lemma_eventual_acquisition(s, j);
}

/// A request on a held lock joins the back of the queue with a ticket larger
/// than every ticket already waiting, so it is granted after all of them.
pub proof fn lemma_request_joins_back(s: LockModel)
    requires
        s.wf(),
        s.can_issue(),
        s.holder is Some,
    ensures
        s.request().waiting == s.waiting.push(s.next),
        forall|i: int| 0 <= i < s.waiting.len() ==> #[trigger] s.waiting[i] < s.next,
{
}

/// Ticket monotonicity: under any sequence of operations the generator
/// never moves back, so the next ticket it hands out differs from every
/// ticket issued before.
pub proof fn lemma_ticket_monotonic(s: LockModel, ops: Seq<LockOp>, issued: u64)
    requires
        issued < s.next,
    ensures
        s.next <= s.run(ops).next,
        issued != s.run(ops).next,
    decreases ops.len(),
{
    if ops.len() > 0 {
        lemma_ticket_monotonic(s.step(ops[0]), ops.drop_first(), issued);
    }
}

/// An issued ticket that neither holds the lock nor waits stays out of the
/// state under any sequence of operations: a withdrawn attempt is never
/// granted the lock afterwards.
pub proof fn lemma_withdrawn_never_granted(s: LockModel, ops: Seq<LockOp>, t: u64)
    requires
        t < s.next,
        !s.holds(t),
        !s.waiting.contains(t),
    ensures
        !s.run(ops).holds(t),
        !s.run(ops).waiting.contains(t),
    decreases ops.len(),
{
    if ops.len() > 0 {
        let n = s.step(ops[0]);
        assert(!n.waiting.contains(t)) by {
            if n.waiting.contains(t) {
                let k = choose|k: int| 0 <= k < n.waiting.len() && n.waiting[k] == t;
                match ops[0] {
                    LockOp::Request => {
                        if s.can_issue() && s.holder is Some && k < s.waiting.len() {
                            assert(s.waiting[k] == t);
                        }
                    },
                    LockOp::Release(h) => {
                        if s.holds(h) {
                            assert(s.waiting[k + 1] == t);
                        }
                    },
                    LockOp::Cancel(c) => {
                        if s.holds(c) {
                            assert(s.waiting[k + 1] == t);
                        } else {
                            lemma_remove_ticket(s.waiting, c);
                            assert(s.waiting.contains(remove_ticket(s.waiting, c)[k]));
                        }
                    },
                }
            }
        }
        assert(!n.holds(t)) by {
            match ops[0] {
                LockOp::Release(h) => {
                    if s.holds(h) && s.waiting.len() > 0 {
                        assert(s.waiting.contains(s.waiting[0]));
                    }
                },
                LockOp::Cancel(c) => {
                    if s.holds(c) && s.waiting.len() > 0 {
                        assert(s.waiting.contains(s.waiting[0]));
                    }
                },
                _ => {},
            }
        }
        lemma_withdrawn_never_granted(n, ops.drop_first(), t);
    }
}

/// Withdrawing a waiting ticket takes it out of the state for good.
pub proof fn lemma_cancel_withdraws(s: LockModel, t: u64)
    requires
        s.wf(),
        s.waiting.contains(t),
    ensures
        !s.cancel(t).holds(t),
        !s.cancel(t).waiting.contains(t),
        t < s.cancel(t).next,
{
    lemma_remove_ticket(s.waiting, t);
    let k = choose|k: int| 0 <= k < s.waiting.len() && s.waiting[k] == t;
    assert(s.waiting[k] < s.next);
    let r = s.cancel(t);
    if r.waiting.contains(t) {
        let i = choose|i: int| 0 <= i < r.waiting.len() && r.waiting[i] == t;
        assert(remove_ticket(s.waiting, t)[i] != t);
    }
}

/// Taking out one ticket keeps every other.
proof fn lemma_remove_keeps(s: Seq<u64>, t: u64, x: u64)
    requires
        s.contains(x),
        x != t,
    ensures
        remove_ticket(s, t).contains(x),
    decreases s.len(),
{
    let d = s.drop_last();
    let k = choose|k: int| 0 <= k < s.len() && s[k] == x;
    if k < s.len() - 1 {
        assert(d[k] == x);
        lemma_remove_keeps(d, t, x);
        let rd = remove_ticket(d, t);
        let j = choose|j: int| 0 <= j < rd.len() && rd[j] == x;
        if s.last() != t {
            assert(rd.push(s.last())[j] == x);
        }
    } else {
        assert(s.last() == x);
        assert(remove_ticket(s, t) == remove_ticket(d, t).push(x));
        assert(remove_ticket(s, t)[remove_ticket(d, t).len() as int] == x);
    }
}

/// While the holder keeps the lock, a waiting ticket keeps waiting: as long
/// as neither of them releases or withdraws, whatever else happens, the one
/// still holds and the other is still queued, so its attempt stays pending.
pub proof fn lemma_waiter_stays_pending(s: LockModel, ops: Seq<LockOp>, holder: u64, waiter: u64)
    requires
        s.holds(holder),
        s.waiting.contains(waiter),
        forall|i: int|
            0 <= i < ops.len() ==> #[trigger] ops[i] != LockOp::Release(holder) && ops[i]
                != LockOp::Cancel(holder) && ops[i] != LockOp::Cancel(waiter),
    ensures
        s.run(ops).holds(holder),
        s.run(ops).waiting.contains(waiter),
    decreases ops.len(),
{
    if ops.len() > 0 {
        let op = ops[0];
        assert(op != LockOp::Release(holder) && op != LockOp::Cancel(holder) && op != LockOp::Cancel(
            waiter,
        ));
        let n = s.step(op);
        match op {
            LockOp::Request => {
                if s.can_issue() {
                    let k = choose|k: int| 0 <= k < s.waiting.len() && s.waiting[k] == waiter;
                    assert(n.waiting[k] == waiter);
                }
            },
            LockOp::Release(x) => {},
            LockOp::Cancel(c) => {
                lemma_remove_keeps(s.waiting, c, waiter);
            },
        }
        let rest = ops.drop_first();
        assert forall|i: int| 0 <= i < rest.len() implies #[trigger] rest[i] != LockOp::Release(
            holder,
        ) && rest[i] != LockOp::Cancel(holder) && rest[i] != LockOp::Cancel(waiter) by {
            assert(rest[i] == ops[i + 1]);
        }
        lemma_waiter_stays_pending(n, rest, holder, waiter);
    }
}

} // verus!
