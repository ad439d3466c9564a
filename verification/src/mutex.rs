use vstd::prelude::*;
use crate::error::Error;

verus! {

/// Abstract state of a lock: whether it is held, and the value it guards.
pub struct MutexState<T> {
    pub locked: bool,
    pub value: T,
}

/// `try_lock` succeeds exactly on a free lock.
pub open spec fn lock_available<T>(s: MutexState<T>) -> bool {
    !s.locked
}

/// After `try_lock`, the lock is held whether or not the call succeeded.
pub open spec fn after_try_lock<T>(s: MutexState<T>) -> MutexState<T> {
    MutexState { locked: true, value: s.value }
}

/// After `free` (or releasing a guard), the lock is available.
pub open spec fn after_free<T>(s: MutexState<T>) -> MutexState<T> {
    MutexState { locked: false, value: s.value }
}

/// A spin lock without spinning: `try_lock` takes it or fails at once.
#[derive(Debug)]
pub struct Mutex<T> {
    value: T,
    locked: bool,
}

/// Proof that the holder took the lock; it gives access to the guarded value
/// and is handed back by `unlock`.
#[derive(Debug)]
pub struct MutexGuard {
    _token: (),
}

impl<T> View for Mutex<T> {
    type V = MutexState<T>;

    closed spec fn view(&self) -> MutexState<T> {
        MutexState { locked: self.locked, value: self.value }
    }
}

impl<T> Mutex<T> {
    /// A free lock around `val`.
    pub fn new(val: T) -> (m: Mutex<T>)
        ensures
            m@ == (MutexState { locked: false, value: val }),
    {
        Mutex { value: val, locked: false }
    }

    /// Takes the lock if it is free; a held lock answers
    /// `MutexErr("lock failed")`.
    pub fn try_lock(&mut self) -> (r: Result<MutexGuard, Error>)
        ensures
            final(self)@ == after_try_lock(old(self)@),
            r is Ok <==> lock_available(old(self)@),
            match r {
                Ok(_) => true,
                Err(e) => e matches Error::MutexErr(msg) && msg@ == "lock failed"@,
            },
    {
        if !self.locked {
            self.locked = true;
            return Ok(MutexGuard { _token: () });
        }
        Err(Error::MutexErr("lock failed"))
    }

    /// Releases the lock, whoever holds it.
    pub fn free(&mut self)
        ensures
            final(self)@ == after_free(old(self)@),
    {
        self.locked = false;
    }

    /// Hands back a guard and releases the lock.
    pub fn unlock(&mut self, _guard: MutexGuard)
        ensures
            final(self)@ == after_free(old(self)@),
    {
        self.locked = false;
    }

    /// The guarded value, read under the lock.
    pub fn get(&self, _guard: &MutexGuard) -> (r: &T)
        requires
            self@.locked,
        ensures
            *r == self@.value,
    {
        &self.value
    }

    /// Replaces the guarded value under the lock.
    pub fn set(&mut self, _guard: &MutexGuard, val: T)
        requires
            old(self)@.locked,
        ensures
            final(self)@ == (MutexState { locked: true, value: val }),
    {
        self.value = val;
    }
}

/// A lock that has been taken refuses every further `try_lock` until it is freed,
/// and a freed lock can be taken again; neither changes the guarded value.
pub proof fn lemma_lock_exclusive<T>(s: MutexState<T>)
    ensures
        !lock_available(after_try_lock(s)),
        !lock_available(after_try_lock(after_try_lock(s))),
        lock_available(after_free(s)),
        lock_available(after_free(after_try_lock(s))),
        after_try_lock(after_free(after_try_lock(s))) == after_try_lock(s),
        after_free(s).value == s.value,
        after_try_lock(s).value == s.value,
{
}

} // verus!
