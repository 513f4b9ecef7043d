use crate::queue::{queue_items, queue_new, queue_pop, queue_push};
use crossbeam_queue::SegQueue;
use vstd::prelude::*;

verus! {

/// Value of the holder register while nobody holds the lock. No ticket ever
/// takes this value: the generator stops short of it.
pub const FREE: u64 = 0xffff_ffff_ffff_ffff;

/// Error surfaced by the lock.
#[derive(Debug, Clone, Copy, PartialEq, Eq, Structural)]
pub enum MutexError {
    /// A release was attempted by a party that does not hold the lock.
    WaitingForAccess,
    /// An acquisition attempt was resumed whose ticket neither holds the
    /// lock nor waits for it: it completed already, its ticket was withdrawn
    /// or released, or it belongs to another lock.
    NotWaiting,
}

/// Abstract state of one lock instance.
pub struct LockModel {
    /// The next ticket the generator hands out.
    pub next: u64,
    /// The ticket that currently holds the lock, if any.
    pub holder: Option<u64>,
    /// Tickets waiting for the lock, in arrival order.
    pub waiting: Seq<u64>,
}

/// One operation on a lock instance, by any of its users.
pub enum LockOp {
    Request,
    Release(u64),
    Cancel(u64),
}

/// `s` with every occurrence of `t` taken out, the rest in order.
pub open spec fn remove_ticket(s: Seq<u64>, t: u64) -> Seq<u64>
    decreases s.len(),
{
    if s.len() == 0 {
        s
    } else {
        let rest = remove_ticket(s.drop_last(), t);
        if s.last() == t {
            rest
        } else {
            rest.push(s.last())
        }
    }
}

/// Taking out a ticket keeps only elements of `s`, and leaves `s` as it is
/// when `t` does not occur in it.
pub proof fn lemma_remove_ticket(s: Seq<u64>, t: u64)
    ensures
        forall|i: int|
            0 <= i < remove_ticket(s, t).len() ==> s.contains(#[trigger] remove_ticket(s, t)[i]),
        forall|i: int| 0 <= i < remove_ticket(s, t).len() ==> #[trigger] remove_ticket(s, t)[i] != t,
        !s.contains(t) ==> remove_ticket(s, t) == s,
    decreases s.len(),
{
    if s.len() > 0 {
        let d = s.drop_last();
        lemma_remove_ticket(d, t);
        let r = remove_ticket(s, t);
        let rd = remove_ticket(d, t);
        assert forall|i: int| 0 <= i < r.len() implies s.contains(#[trigger] r[i]) by {
            if i < rd.len() {
                let k = choose|k: int| 0 <= k < d.len() && d[k] == rd[i];
                assert(s[k] == r[i]);
            } else {
                assert(s[s.len() - 1] == r[i]);
            }
        }
        if !s.contains(t) {
            assert(!d.contains(t)) by {
                if d.contains(t) {
                    let k = choose|k: int| 0 <= k < d.len() && d[k] == t;
                    assert(s[k] == t);
                }
            }
            assert(s.last() != t) by {
                assert(s[s.len() - 1] == s.last());
            }
            assert(r =~= s);
        }
    }
}

/// Taking a ticket out of a strictly increasing sequence leaves it strictly
/// increasing.
pub proof fn lemma_remove_ticket_increasing(s: Seq<u64>, t: u64)
    requires
        forall|i: int, j: int| 0 <= i < j < s.len() ==> s[i] < s[j],
    ensures
        forall|i: int, j: int|
            0 <= i < j < remove_ticket(s, t).len() ==> remove_ticket(s, t)[i] < remove_ticket(s, t)[j],
    decreases s.len(),
{
    if s.len() > 0 {
        let d = s.drop_last();
        lemma_remove_ticket_increasing(d, t);
        lemma_remove_ticket(d, t);
        let rd = remove_ticket(d, t);
        let r = remove_ticket(s, t);
        assert forall|i: int, j: int| 0 <= i < j < r.len() implies r[i] < r[j] by {
            if j >= rd.len() {
                assert(d.contains(rd[i]));
                let k = choose|k: int| 0 <= k < d.len() && d[k] == rd[i];
                assert(s[k] == rd[i]);
                assert(s[s.len() - 1] == r[j]);
            }
        }
    }
}

impl LockModel {
    /// A fresh lock: no ticket issued, nobody holding, nobody waiting.
    pub open spec fn initial() -> LockModel {
        LockModel { next: 0, holder: None, waiting: Seq::empty() }
    }

    /// Well-formedness: every ticket seen was issued, waiting tickets are in
    /// increasing order and all come after the holder, and a free lock has no
    /// waiters.
    pub open spec fn wf(self) -> bool {
        &&& self.holder matches Some(h) ==> h < self.next
        &&& self.holder is None ==> self.waiting.len() == 0
        &&& forall|i: int| 0 <= i < self.waiting.len() ==> #[trigger] self.waiting[i] < self.next
        &&& forall|i: int, j: int|
            0 <= i < j < self.waiting.len() ==> self.waiting[i] < self.waiting[j]
        &&& forall|i: int|
            0 <= i < self.waiting.len() ==> (self.holder matches Some(h) && h < #[trigger] self.waiting[i])
    }

    /// Whether ticket `t` holds the lock.
    pub open spec fn holds(self, t: u64) -> bool {
        self.holder == Some(t)
    }

    /// Whether another ticket can be issued.
    pub open spec fn can_issue(self) -> bool {
        self.next < FREE
    }

    /// The state after the generator hands out `self.next`.
    pub open spec fn allocate(self) -> LockModel {
        LockModel { next: (self.next + 1) as u64, ..self }
    }

    /// A request: a new ticket is drawn; it takes a free lock at once and
    /// otherwise joins the back of the queue.
    pub open spec fn request(self) -> LockModel {
        let t = self.next;
        if self.holder is None {
            LockModel { next: (t + 1) as u64, holder: Some(t), waiting: self.waiting }
        } else {
            LockModel { next: (t + 1) as u64, holder: self.holder, waiting: self.waiting.push(t) }
        }
    }

    /// The ticket woken by a release: the head of the queue.
    pub open spec fn successor(self) -> Option<u64> {
        if self.waiting.len() == 0 {
            None
        } else {
            Some(self.waiting[0])
        }
    }

    /// A release by the holder: the lock passes to the head of the queue, or
    /// becomes free when nobody waits.
    pub open spec fn release(self) -> LockModel {
        LockModel {
            next: self.next,
            holder: self.successor(),
            waiting: if self.waiting.len() == 0 { self.waiting } else { self.waiting.drop_first() },
        }
    }

    /// A withdrawal of ticket `t` by a party that gives up: a holder releases
    /// the lock, a waiting ticket leaves the queue, and any other ticket
    /// changes nothing.
    pub open spec fn cancel(self, t: u64) -> LockModel {
        if self.holds(t) {
            self.release()
        } else {
            LockModel { waiting: remove_ticket(self.waiting, t), ..self }
        }
    }

    /// The effect of one operation; one that would fail leaves the state as
    /// it is.
    pub open spec fn step(self, op: LockOp) -> LockModel {
        match op {
            LockOp::Request => if self.can_issue() { self.request() } else { self },
            LockOp::Release(t) => if self.holds(t) { self.release() } else { self },
            LockOp::Cancel(t) => self.cancel(t),
        }
    }

    /// The effect of a sequence of operations, in order.
    pub open spec fn run(self, ops: Seq<LockOp>) -> LockModel
        decreases ops.len(),
    {
        if ops.len() == 0 {
            self
        } else {
            self.step(ops[0]).run(ops.drop_first())
        }
    }

    /// A request from a well-formed state leaves it well-formed.
    pub proof fn lemma_request_wf(self)
        requires
            self.wf(),
            self.can_issue(),
        ensures
            self.request().wf(),
    {
        let r = self.request();
        assert forall|i: int| 0 <= i < r.waiting.len() implies (r.holder matches Some(h) && h
            < #[trigger] r.waiting[i]) by {
            if i < self.waiting.len() {
                assert(r.waiting[i] == self.waiting[i]);
            }
        }
    }

    /// A withdrawal from a well-formed state leaves it well-formed.
    pub proof fn lemma_cancel_wf(self, t: u64)
        requires
            self.wf(),
        ensures
            self.cancel(t).wf(),
            !self.holds(t) && !self.waiting.contains(t) ==> self.cancel(t) == self,
    {
        if self.holds(t) {
            self.lemma_release_wf();
        } else {
            lemma_remove_ticket(self.waiting, t);
            lemma_remove_ticket_increasing(self.waiting, t);
            let r = remove_ticket(self.waiting, t);
            assert forall|i: int| 0 <= i < r.len() implies #[trigger] r[i] < self.next && (
            self.holder matches Some(h) && h < r[i]) by {
                let k = choose|k: int| 0 <= k < self.waiting.len() && self.waiting[k] == r[i];
                assert(self.waiting[k] < self.next);
            }
            if self.holder is None {
                assert(r =~= self.waiting);
            }
        }
    }

    /// A release from a well-formed state leaves it well-formed.
    pub proof fn lemma_release_wf(self)
        requires
            self.wf(),
        ensures
            self.release().wf(),
    {
        let r = self.release();
        assert forall|i: int| 0 <= i < r.waiting.len() implies #[trigger] r.waiting[i] < r.next by {
            assert(r.waiting[i] == self.waiting[i + 1]);
        }
        assert forall|i: int| 0 <= i < r.waiting.len() implies (r.holder matches Some(h) && h
            < #[trigger] r.waiting[i]) by {
            assert(r.waiting[i] == self.waiting[i + 1]);
        }
    }
}

/// The fields of a lock state: a ticket generator, a holder register and the
/// queue of waiting tickets. Its operations pass through states that are not
/// well-formed; `SharedMutexData` is what the outside sees.
struct LockCell {
    next_ticket: u64,
    holder: u64,
    queue: SegQueue<u64>,
}

impl View for LockCell {
    type V = LockModel;

    closed spec fn view(&self) -> LockModel {
        LockModel {
            next: self.next_ticket,
            holder: if self.holder == FREE { None } else { Some(self.holder) },
            waiting: queue_items(self.queue),
        }
    }
}

impl LockCell {
    fn new() -> (s: LockCell)
        ensures
            s@ == LockModel::initial(),
            s@.wf(),
    {
        LockCell { next_ticket: 0, holder: FREE, queue: queue_new() }
    }

    /// Hands out the next ticket.
    fn allocate_ticket(&mut self) -> (t: u64)
        requires
            old(self)@.can_issue(),
        ensures
            t == old(self)@.next,
            final(self)@ == old(self)@.allocate(),
            old(self)@.wf() ==> final(self)@.wf(),
    {
        let t = self.next_ticket;
        self.next_ticket = t + 1;
        t
    }

    /// Sets the holder register to `t` if the lock is free.
    fn try_claim(&mut self, t: u64) -> (r: bool)
        requires
            t != FREE,
        ensures
            r == (old(self)@.holder is None),
            final(self)@ == (if r { LockModel { holder: Some(t), ..old(self)@ } } else { old(self)@ }),
    {
        if self.holder == FREE {
            self.holder = t;
            true
        } else {
            false
        }
    }

    /// Appends a ticket to the wait queue.
    fn enqueue(&mut self, t: u64)
        ensures
            final(self)@ == (LockModel { waiting: old(self)@.waiting.push(t), ..old(self)@ }),
    {
        queue_push(&mut self.queue, t);
    }

    /// Removes the oldest waiting ticket, if any.
    fn dequeue_one(&mut self) -> (r: Option<u64>)
        ensures
            r == old(self)@.successor(),
            final(self)@ == (LockModel {
                waiting: if old(self)@.waiting.len() == 0 {
                    old(self)@.waiting
                } else {
                    old(self)@.waiting.drop_first()
                },
                ..old(self)@
            }),
    {
        queue_pop(&mut self.queue)
    }

    /// Starts one acquisition attempt: draws a ticket, registers it in the
    /// queue and tries to claim the lock with it. When the claim succeeds the
    /// entry just registered is the one taken back out, so the ticket that
    /// claimed the lock is the one that proceeds. Returns the ticket.
    fn request(&mut self) -> (t: u64)
        requires
            old(self)@.wf(),
            old(self)@.can_issue(),
        ensures
            t == old(self)@.next,
            final(self)@ == old(self)@.request(),
            final(self)@.wf(),
    {
        let ghost s0 = self@;
        let t = self.allocate_ticket();
        self.enqueue(t);
        if self.try_claim(t) {
            let woken = self.dequeue_one();
            assert(woken == Some(t));
            assert(self@.waiting =~= s0.waiting);
        }
        proof { s0.lemma_request_wf(); }
        t
    }

    /// Releases the lock held by `ticket`. The lock passes to the oldest
    /// waiting ticket, which is returned so that its owner can be woken, or
    /// becomes free when nobody waits. A release without a ticket, or by a
    /// ticket that does not hold the lock, is refused and changes nothing.
    fn release(&mut self, ticket: Option<u64>) -> (r: Result<Option<u64>, MutexError>)
        requires
            old(self)@.wf(),
        ensures
            final(self)@.wf(),
            ticket matches Some(t) && old(self)@.holds(t) ==> r == Ok::<Option<u64>, MutexError>(
                old(self)@.successor(),
            ) && final(self)@ == old(self)@.release(),
            !(ticket matches Some(t) && old(self)@.holds(t)) ==> r == Err::<Option<u64>, MutexError>(
                MutexError::WaitingForAccess,
            ) && final(self)@ == old(self)@,
    {
        let ghost s0 = self@;
        match ticket {
            Some(t) => {
                if self.holder == FREE || self.holder != t {
                    return Err(MutexError::WaitingForAccess);
                }
            },
            None => {
                return Err(MutexError::WaitingForAccess);
            },
        }
        let next = self.dequeue_one();
        match next {
            Some(n) => {
                self.holder = n;
            },
            None => {
                self.holder = FREE;
            },
        }
        assert(self@.waiting =~= s0.release().waiting);
        proof { s0.lemma_release_wf(); }
        Ok(next)
    }

    /// Takes ticket `t` out of the wait queue: the queue is drained into a
    /// new one that leaves `t` out.
    fn withdraw(&mut self, t: u64)
        ensures
            final(self)@ == (LockModel { waiting: remove_ticket(old(self)@.waiting, t), ..old(self)@ }),
    {
        let ghost w0 = self@.waiting;
        let ghost mut i: int = 0;
        let mut kept = queue_new();
        loop
            invariant
                0 <= i <= w0.len(),
                queue_items(self.queue) == w0.skip(i),
                queue_items(kept) == remove_ticket(w0.take(i), t),
                self.next_ticket == old(self).next_ticket,
                self.holder == old(self).holder,
            ensures
                queue_items(kept) == remove_ticket(w0, t),
                self.next_ticket == old(self).next_ticket,
                self.holder == old(self).holder,
            decreases w0.len() - i,
        {
            let ghost before = queue_items(self.queue);
            match queue_pop(&mut self.queue) {
                Some(x) => {
                    proof {
                        assert(x == w0[i]);
                        assert(w0.take(i + 1).drop_last() =~= w0.take(i));
                        assert(queue_items(self.queue) =~= w0.skip(i + 1));
                    }
                    if x != t {
                        queue_push(&mut kept, x);
                    }
                    proof {
                        i = i + 1;
                    }
                },
                None => {
                    assert(w0.skip(i).len() == 0);
                    assert(w0.take(i) =~= w0);
                    break;
                },
            }
        }
        self.queue = kept;
    }

    /// Whether ticket `t` waits in the queue: the queue is drained into a new
    /// one holding the same tickets in the same order.
    fn waits(&mut self, t: u64) -> (r: bool)
        ensures
            r == old(self)@.waiting.contains(t),
            final(self)@ == old(self)@,
    {
        let ghost w0 = self@.waiting;
        let ghost mut i: int = 0;
        let mut kept = queue_new();
        let mut found = false;
        loop
            invariant
                0 <= i <= w0.len(),
                queue_items(self.queue) == w0.skip(i),
                queue_items(kept) == w0.take(i),
                found == w0.take(i).contains(t),
                self.next_ticket == old(self).next_ticket,
                self.holder == old(self).holder,
            ensures
                queue_items(kept) == w0,
                found == w0.contains(t),
                self.next_ticket == old(self).next_ticket,
                self.holder == old(self).holder,
            decreases w0.len() - i,
        {
            match queue_pop(&mut self.queue) {
                Some(x) => {
                    proof {
                        assert(x == w0[i]);
                        assert(queue_items(self.queue) =~= w0.skip(i + 1));
                        let a = w0.take(i);
                        let b = w0.take(i + 1);
                        assert(b =~= a.push(x));
                        if b.contains(t) {
                            let k = choose|k: int| 0 <= k < b.len() && b[k] == t;
                            if k < i {
                                assert(a[k] == t);
                            }
                        }
                        if a.contains(t) {
                            let k = choose|k: int| 0 <= k < a.len() && a[k] == t;
                            assert(b[k] == t);
                        }
                        if x == t {
                            assert(b[i] == t);
                        }
                    }
                    if x == t {
                        found = true;
                    }
                    queue_push(&mut kept, x);
                    proof {
                        i = i + 1;
                    }
                },
                None => {
                    assert(w0.skip(i).len() == 0);
                    assert(w0.take(i) =~= w0);
                    break;
                },
            }
        }
        self.queue = kept;
        found
    }

    /// Withdraws ticket `t`: a holder releases the lock, a waiting ticket
    /// leaves the queue. Returns the ticket the lock passed to, if any.
    fn cancel(&mut self, t: u64) -> (r: Option<u64>)
        requires
            old(self)@.wf(),
        ensures
            final(self)@ == old(self)@.cancel(t),
            final(self)@.wf(),
            r == (if old(self)@.holds(t) { old(self)@.successor() } else { None }),
    {
        proof { self@.lemma_cancel_wf(t); }
        if self.holder != FREE && self.holder == t {
            match self.release(Some(t)) {
                Ok(next) => next,
                Err(_) => None,
            }
        } else {
            self.withdraw(t);
            None
        }
    }
}

/// The state shared by every handle of one lock. It is always well-formed.
pub struct SharedMutexData {
    id: u64,
    cell: LockCell,
}

impl View for SharedMutexData {
    type V = LockModel;

    closed spec fn view(&self) -> LockModel {
        self.cell@
    }
}

impl SharedMutexData {
    /// The identity of this lock, given when it was created; handles and
    /// attempts carry it, and an operation with one of another lock is
    /// refused.
    pub closed spec fn lock_id(&self) -> u64 {
        self.id
    }

    #[verifier::type_invariant]
    spec fn inv(&self) -> bool {
        self.cell@.wf()
    }

    /// A fresh lock state: no ticket issued, nobody holding, nobody waiting.
    pub fn new(id: u64) -> (s: SharedMutexData)
        ensures
            s@ == LockModel::initial(),
            s@.wf(),
            s.lock_id() == id,
    {
        SharedMutexData { id, cell: LockCell::new() }
    }

    /// The identity of this lock.
    pub fn id(&self) -> (r: u64)
        ensures
            r == self.lock_id(),
    {
        self.id
    }

    /// Whether the generator can hand out another ticket.
    pub fn can_issue(&self) -> (r: bool)
        ensures
            r == self@.can_issue(),
    {
        self.cell.next_ticket < FREE
    }

    /// Hands out the next ticket, without queueing it.
    pub fn allocate_ticket(&mut self) -> (t: u64)
        requires
            old(self)@.can_issue(),
        ensures
            final(self).lock_id() == old(self).lock_id(),
            t == old(self)@.next,
            final(self)@ == old(self)@.allocate(),
            final(self)@.wf(),
    {
        proof { use_type_invariant(&*self); }
        let mut cell = LockCell::new();
        std::mem::swap(&mut cell, &mut self.cell);
        let t = cell.allocate_ticket();
        self.cell = cell;
        t
    }

    /// Starts one acquisition attempt and returns its ticket: the ticket
    /// holds the lock at once if it was free, and otherwise waits at the back
    /// of the queue.
    pub fn request(&mut self) -> (t: u64)
        requires
            old(self)@.can_issue(),
        ensures
            final(self).lock_id() == old(self).lock_id(),
            t == old(self)@.next,
            final(self)@ == old(self)@.request(),
            final(self)@.wf(),
    {
        proof { use_type_invariant(&*self); }
        let mut cell = LockCell::new();
        std::mem::swap(&mut cell, &mut self.cell);
        let t = cell.request();
        self.cell = cell;
        t
    }

    /// Whether ticket `t` holds the lock.
    pub fn holds(&self, t: u64) -> (r: bool)
        ensures
            r == self@.holds(t),
    {
        self.cell.holder != FREE && self.cell.holder == t
    }

    /// The ticket that holds the lock, if any.
    pub fn holder(&self) -> (r: Option<u64>)
        ensures
            r == self@.holder,
    {
        if self.cell.holder == FREE {
            None
        } else {
            Some(self.cell.holder)
        }
    }

    /// Releases the lock held by `ticket`. The lock passes to the oldest
    /// waiting ticket, which is returned so that its owner can be woken, or
    /// becomes free when nobody waits. A release without a ticket, or by a
    /// ticket that does not hold the lock, is refused and changes nothing.
    pub fn release(&mut self, ticket: Option<u64>) -> (r: Result<Option<u64>, MutexError>)
        ensures
            final(self).lock_id() == old(self).lock_id(),
            final(self)@.wf(),
            (ticket matches Some(t) && old(self)@.holds(t)) ==> r == Ok::<Option<u64>, MutexError>(
                old(self)@.successor(),
            ) && final(self)@ == old(self)@.release(),
            !(ticket matches Some(t) && old(self)@.holds(t)) ==> r == Err::<Option<u64>, MutexError>(
                MutexError::WaitingForAccess,
            ) && final(self)@ == old(self)@,
    {
        proof { use_type_invariant(&*self); }
        let mut cell = LockCell::new();
        std::mem::swap(&mut cell, &mut self.cell);
        let r = cell.release(ticket);
        self.cell = cell;
        r
    }
    /// Whether ticket `t` waits in the queue. The state is left as it was;
    /// `&mut` is needed because the queue is read by taking it apart.
    pub fn waits(&mut self, t: u64) -> (r: bool)
        ensures
            final(self).lock_id() == old(self).lock_id(),
            r == old(self)@.waiting.contains(t),
            final(self)@ == old(self)@,
    {
        proof { use_type_invariant(&*self); }
        let mut cell = LockCell::new();
        std::mem::swap(&mut cell, &mut self.cell);
        let r = cell.waits(t);
        self.cell = cell;
        r
    }

    /// Withdraws ticket `t`, for a party that gives up its attempt: if `t`
    /// holds the lock, the lock is released and the ticket it passes to is
    /// returned so that its owner can be woken; if `t` waits, it leaves the
    /// queue, the others keeping their order; any other ticket changes
    /// nothing.
    pub fn cancel(&mut self, t: u64) -> (r: Option<u64>)
        ensures
            final(self).lock_id() == old(self).lock_id(),
            final(self)@ == old(self)@.cancel(t),
            final(self)@.wf(),
            r == (if old(self)@.holds(t) { old(self)@.successor() } else { None }),
            !old(self)@.holds(t) && !old(self)@.waiting.contains(t) ==> final(self)@ == old(self)@,
    {
        proof {
            use_type_invariant(&*self);
            self@.lemma_cancel_wf(t);
        }
        let mut cell = LockCell::new();
        std::mem::swap(&mut cell, &mut self.cell);
        let r = cell.cancel(t);
        self.cell = cell;
        r
    }
}

} // verus!
