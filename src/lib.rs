//! An asynchronous ticket lock. Each lock has a shared state: a ticket
//! generator, a holder register and a FIFO queue of waiting tickets. Typed
//! handles move between the "may request" and "holds the lock" states; a
//! request draws one ticket, and a release hands the lock to the oldest
//! waiting ticket.

mod queue;

pub mod handle;
pub mod laws;
pub mod shared;

pub use handle::{LockingFuture, LockingMode, LockingState, Mutex, UnlockingMode, UnlockingState};
pub use shared::{MutexError, SharedMutexData, FREE};
