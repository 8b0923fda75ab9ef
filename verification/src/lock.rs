use vstd::prelude::*;

verus! {

/// A normalized session-lock transition delivered by the lock-state watcher.
/// `Locked` always logically precedes the next `Unlocked` for a session, but
/// duplicates may arrive; the orchestrator treats them idempotently.
#[derive(Clone, Copy, Debug, PartialEq, Eq, Structural)]
pub enum LockEvent {
    Locked,
    Unlocked,
}

} // verus!
