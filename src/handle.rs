use crate::shared::{LockModel, MutexError, SharedMutexData};
use core::marker::PhantomData;
use vstd::prelude::*;

verus! {

/// Marks the handle state in which a lock may be requested.
pub trait LockingState {}

/// Marks the handle state in which the held lock may be released.
pub trait UnlockingState {}

/// A handle that holds no lock and may request one. Used only as a type
/// tag; the variant is never built.
#[derive(Debug)]
pub enum LockingMode {
    Free,
}

/// A handle that holds the lock and may release it. Used only as a type
/// tag; the variant is never built.
#[derive(Debug)]
pub enum UnlockingMode {
    Held,
}

impl LockingState for LockingMode {}

impl UnlockingState for UnlockingMode {}

/// A handle on one lock, tagged with the state it is in. It carries the
/// identity of its lock and the ticket under which it holds the lock, if it
/// holds it; the lock state itself is passed to each operation. Its view is
/// the pair (lock identity, ticket).
#[derive(Debug)]
pub struct Mutex<T> {
    lock: u64,
    number: Option<u64>,
    state: PhantomData<T>,
}

impl<T> View for Mutex<T> {
    type V = (u64, Option<u64>);

    closed spec fn view(&self) -> (u64, Option<u64>) {
        (self.lock, self.number)
    }
}

impl<T> Mutex<T> {
    /// The ticket under which this handle holds the lock, if any.
    pub fn ticket(&self) -> (r: Option<u64>)
        ensures
            r == self@.1,
    {
        self.number
    }

    /// The identity of the lock this handle belongs to.
    pub fn lock_id(&self) -> (r: u64)
        ensures
            r == self@.0,
    {
        self.lock
    }
}

/// An acquisition attempt on one lock. It draws its ticket when first
/// resumed, keeps it across later resumptions, and is finished once it has
/// completed. Its view is (lock identity, ticket, finished).
pub struct LockingFuture {
    lock: u64,
    ticket: Option<u64>,
    done: bool,
}

impl View for LockingFuture {
    type V = (u64, Option<u64>, bool);

    closed spec fn view(&self) -> (u64, Option<u64>, bool) {
        (self.lock, self.ticket, self.done)
    }
}

/// Whether resuming attempt `f` on lock state `shared` does any work: the
/// attempt belongs to that lock and has not completed.
pub open spec fn is_live(f: (u64, Option<u64>, bool), shared: &SharedMutexData) -> bool {
    f.0 == shared.lock_id() && !f.2
}

impl LockingFuture {
    /// The ticket drawn for this attempt, once it has been resumed.
    pub fn ticket(&self) -> (r: Option<u64>)
        ensures
            r == self@.1,
    {
        self.ticket
    }

    /// Whether the attempt has completed.
    pub fn is_done(&self) -> (r: bool)
        ensures
            r == self@.2,
    {
        self.done
    }

    /// Resumes the attempt. The first resumption draws a ticket, which
    /// either takes the free lock at once or waits at the back of the queue;
    /// later ones draw nothing and change no lock state. The attempt
    /// completes, with a handle that holds the lock under its ticket, exactly
    /// when that ticket holds the lock. It is pending exactly when its ticket
    /// waits in the queue, so that its turn will come. Otherwise it is
    /// refused: it completed already, belongs to another lock, or its ticket
    /// was withdrawn or released.
    pub fn poll(&mut self, shared: &mut SharedMutexData) -> (r: Result<Option<Mutex<UnlockingMode>>, MutexError>)
        requires
            is_live(old(self)@, old(shared)) && old(self)@.1 is None ==> old(shared)@.can_issue(),
        ensures
            final(shared).lock_id() == old(shared).lock_id(),
            final(self)@.0 == old(self)@.0,
            !is_live(old(self)@, old(shared)) ==> r == Err::<Option<Mutex<UnlockingMode>>, MutexError>(
                MutexError::NotWaiting,
            ) && final(self)@ == old(self)@ && final(shared)@ == old(shared)@,
            is_live(old(self)@, old(shared)) && old(self)@.1 is None ==> final(self)@.1 == Some(
                old(shared)@.next,
            ) && final(shared)@ == old(shared)@.request() && r is Ok,
            is_live(old(self)@, old(shared)) && old(self)@.1 is Some ==> final(self)@.1 == old(self)@.1
                && final(shared)@ == old(shared)@,
            is_live(old(self)@, old(shared)) ==> final(self)@.1 is Some,
            is_live(old(self)@, old(shared)) && final(shared)@.holds(final(self)@.1.unwrap()) ==> (r matches Ok(
                Some(m),
            ) && m@ == (old(self)@.0, final(self)@.1)) && final(self)@.2,
            is_live(old(self)@, old(shared)) && !final(shared)@.holds(final(self)@.1.unwrap())
                && final(shared)@.waiting.contains(final(self)@.1.unwrap()) ==> r == Ok::<
                Option<Mutex<UnlockingMode>>,
                MutexError,
            >(None) && !final(self)@.2,
            is_live(old(self)@, old(shared)) && !final(shared)@.holds(final(self)@.1.unwrap())
                && !final(shared)@.waiting.contains(final(self)@.1.unwrap()) ==> r == Err::<
                Option<Mutex<UnlockingMode>>,
                MutexError,
            >(MutexError::NotWaiting) && !final(self)@.2,
            r == Ok::<Option<Mutex<UnlockingMode>>, MutexError>(None) ==> final(self)@.1 is Some
                && final(shared)@.waiting.contains(final(self)@.1.unwrap()),
    {
        if self.lock != shared.id() || self.done {
            return Err(MutexError::NotWaiting);
        }
        let t = match self.ticket {
            Some(t) => t,
            None => {
                let ghost s0 = shared@;
                let t = shared.request();
                self.ticket = Some(t);
                assert(s0.holder is Some ==> shared@.waiting[shared@.waiting.len() - 1] == t);
                t
            },
        };
        if shared.holds(t) {
            self.done = true;
            Ok(Some(Mutex { lock: self.lock, number: Some(t), state: PhantomData }))
        } else if shared.waits(t) {
            Ok(None)
        } else {
            Err(MutexError::NotWaiting)
        }
    }
}

impl<L> Mutex<L> where L: LockingState {
    /// Creates a lock with identity `id`: a fresh lock state and a handle
    /// on it that may request the lock. Identities are the caller's to keep
    /// apart.
    pub fn new(id: u64) -> (r: (Mutex<LockingMode>, SharedMutexData))
        ensures
            r.0@ == (id, None::<u64>),
            r.1@ == LockModel::initial(),
            r.1@.wf(),
            r.1.lock_id() == id,
    {
        (Mutex { lock: id, number: None, state: PhantomData }, SharedMutexData::new(id))
    }

    /// Requests the lock: returns an attempt on this handle's lock that has
    /// drawn no ticket yet and touches no lock state until it is resumed.
    /// The attempt is the same whichever handle of the lock it comes from.
    pub fn lock(&self) -> (f: LockingFuture)
        ensures
            f@ == (self@.0, None::<u64>, false),
    {
        LockingFuture { lock: self.lock, ticket: None, done: false }
    }

    /// Another handle on the same lock, in the same state of knowledge.
    pub fn clone(&self) -> (r: Mutex<LockingMode>)
        ensures
            r@ == self@,
    {
        Mutex { lock: self.lock, number: self.number, state: PhantomData }
    }
}

impl<U> Mutex<U> where U: UnlockingState {
    /// Releases, in the lock state passed in, the lock held under this
    /// handle's ticket, and returns a handle on the same lock that may
    /// request it again. Refused, with the lock state unchanged, when the
    /// state belongs to another lock or the ticket does not hold the lock.
    pub fn unlock(&self, shared: &mut SharedMutexData) -> (r: Result<Mutex<LockingMode>, MutexError>)
        ensures
            final(shared).lock_id() == old(shared).lock_id(),
            (self@.0 == old(shared).lock_id() && (self@.1 matches Some(t) && old(shared)@.holds(t))) ==> (r matches Ok(
                m,
            ) && m@ == (self@.0, None::<u64>)) && final(shared)@ == old(shared)@.release(),
            !(self@.0 == old(shared).lock_id() && (self@.1 matches Some(t) && old(shared)@.holds(t))) ==> r
                == Err::<Mutex<LockingMode>, MutexError>(MutexError::WaitingForAccess) && final(shared)@
                == old(shared)@,
    {
        if self.lock != shared.id() {
            return Err(MutexError::WaitingForAccess);
        }
        match shared.release(self.number) {
            Ok(_) => Ok(Mutex { lock: self.lock, number: None, state: PhantomData }),
            Err(e) => Err(e),
        }
    }
}

} // verus!
