//! The spinlock: a lock word beside the data it guards.
use vstd::prelude::*;

verus! {

/// Data behind a lock word; the word is nonzero while the lock is held.
pub struct Spinlock<T> {
    locked: u32,
    data: T,
}

impl<T> Spinlock<T> {
    /// The lock is held.
    pub closed spec fn is_locked(&self) -> bool {
        self.locked != 0
    }

    /// The guarded data.
    pub closed spec fn value(&self) -> T {
        self.data
    }

    /// An unlocked lock around `data`.
    pub fn new(data: T) -> (r: Self)
        ensures
            !r.is_locked(),
            r.value() == data,
    {
        Self { locked: 0, data: data }
    }

    /// Takes the lock. Waiting for a lock that is held only ends when
    /// another core releases it, so the lock is free here.
    pub fn lock(&mut self)
        requires
            !old(self).is_locked(),
        ensures
            final(self).is_locked(),
            final(self).value() == old(self).value(),
    {
        self.locked = 1;
    }

    /// Releases the lock.
    pub fn unlock(&mut self)
        ensures
            !final(self).is_locked(),
            final(self).value() == old(self).value(),
    {
        self.locked = 0;
    }
}

/// Access to the data of a held lock.
pub struct SpinlockGuard<'a, T> {
    lock: &'a mut Spinlock<T>,
}

impl<'a, T> SpinlockGuard<'a, T> {
    /// The lock that this guard holds.
    pub closed spec fn spinlock(&self) -> Spinlock<T> {
        *self.lock
    }

    /// The guarded data.
    pub fn deref(&self) -> (r: &T)
        ensures
            *r == self.spinlock().value(),
    {
        &self.lock.data
    }

    /// The guarded data, to change.
    pub fn deref_mut(&mut self) -> (r: &mut T)
        ensures
            *r == old(self).spinlock().value(),
            final(self).spinlock().value() == *final(r),
            final(self).spinlock().is_locked() == old(self).spinlock().is_locked(),
    {
        &mut self.lock.data
    }

    /// Releases the lock, as dropping the guard does.
    pub fn drop(&mut self)
        ensures
            !final(self).spinlock().is_locked(),
            final(self).spinlock().value() == old(self).spinlock().value(),
    {
        self.lock.unlock();
    }
}

/// Taking and then releasing a free lock leaves it free with its data as
/// before.
pub proof fn lemma_lock_unlock<T>(before: Spinlock<T>, held: Spinlock<T>, after: Spinlock<T>)
    requires
        !before.is_locked(),
        held.is_locked(),
        held.value() == before.value(),
        !after.is_locked(),
        after.value() == held.value(),
    ensures
        !after.is_locked(),
        after.value() == before.value(),
{
}

} // verus!
