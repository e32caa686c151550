//! Deadlock-free lock ordering by construction: every lock carries a
//! priority, and a lock may only be taken while holding a strictly
//! lower-priority one.  Taking a lock yields a token of its priority;
//! the token of the lock taken last is the only evidence accepted for
//! taking a higher one, so any chain of held locks has strictly rising
//! priorities.  The ordering rule is a `requires`, so the verifier
//! rejects a program that could take locks out of order.

use vstd::prelude::*;

verus! {

/// Evidence that the holder's highest-priority lock has priority
/// `PRIORITY`.
pub struct TakenLockPriority<const PRIORITY: usize> {}

impl<const PRIORITY: usize> TakenLockPriority<PRIORITY> {
    /// The root token, for a thread that holds no lock yet; its
    /// priority should be lower than that of every lock.
    pub fn new() -> TakenLockPriority<PRIORITY> {
        TakenLockPriority {  }
    }
}

/// Pass the held token on to a `lock` call.
pub fn use_priority<'a, const PREVIOUS_PRIORITY: usize>(
    priority: &'a mut TakenLockPriority<PREVIOUS_PRIORITY>,
) -> &'a mut TakenLockPriority<PREVIOUS_PRIORITY> {
    priority
}

/// A value guarded by a lock of fixed priority.
pub struct PriorityMutex<T, const PRIORITY: usize> {
    value: T,
}

impl<T, const PRIORITY: usize> PriorityMutex<T, PRIORITY> {
    /// The guarded value.
    pub closed spec fn spec_value(&self) -> T {
        self.value
    }

    pub fn new(value: T) -> (r: PriorityMutex<T, PRIORITY>)
        ensures
            r.spec_value() == value,
    {
        PriorityMutex { value }
    }

    /// Take the lock: only while the highest-held priority is strictly
    /// lower.  Yields the token for this priority and the guarded
    /// value.
    pub fn lock<'a, const PREVIOUS_PRIORITY: usize>(
        &'a self,
        _previous_priority: &mut TakenLockPriority<PREVIOUS_PRIORITY>,
    ) -> (r: (TakenLockPriority<PRIORITY>, &'a T))
        requires
            PREVIOUS_PRIORITY < PRIORITY,
        ensures
            *r.1 == self.spec_value(),
    {
        (TakenLockPriority {  }, &self.value)
    }
}

} // verus!
