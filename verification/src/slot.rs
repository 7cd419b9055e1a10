//! One long-running activity of a kind at a time: a slot that is taken
//! atomically and given back when its holder is dropped.
use vstd::prelude::*;
use std::sync::atomic::AtomicBool;
use std::sync::atomic::Ordering;

verus! {

/// Holds an activity slot until dropped.
pub struct ActivityGuard {
    flag: &'static AtomicBool,
}

impl ActivityGuard {
    /// The slot this guard holds, and frees when dropped.
    pub closed spec fn slot(&self) -> &'static AtomicBool {
        self.flag
    }

    /// Takes the slot if it is free: one atomic compare-and-swap from free to
    /// taken, so two callers can never both succeed. Whether the slot was free
    /// is the flag's state, which nothing here names; a guard returned holds
    /// the slot that was asked for.
    pub fn try_acquire(flag: &'static AtomicBool) -> (r: Option<ActivityGuard>)
        ensures
            r matches Some(g) ==> g.slot() == flag,
    {
        match flag.compare_exchange(false, true, Ordering::AcqRel, Ordering::Acquire) {
            Ok(_) => Some(ActivityGuard { flag }),
            Err(_) => None,
        }
    }
}

/// `AtomicBool::store` of `false` with `Release` ordering. Its
/// documentation says it panics only for the `Acquire` and `AcqRel`
/// orderings, so this call neither unwinds nor opens an invariant; nothing
/// is stated of the flag's value.
#[verifier::external_body]
fn release_flag(flag: &AtomicBool)
    opens_invariants none
    no_unwind
{
    flag.store(false, Ordering::Release);
}

impl Drop for ActivityGuard {
    /// Gives the slot back.
    fn drop(&mut self)
        opens_invariants none
        no_unwind
    {
        release_flag(self.flag);
    }
}

} // verus!
