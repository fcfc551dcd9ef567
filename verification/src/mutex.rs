//! Mutexes: locks whose waiters block on a wait list instead of spinning.
//!
//! The lock word counts the shared holders, or is `u32::MAX` while the lock
//! is held exclusively. It is modelled as a plain field; since blocking
//! returns at once, acquiring a lock that is held would loop forever, so
//! each acquisition requires the lock to be free for it, and a timeout
//! never runs out. As with spinlocks, a guard carries which lock it holds
//! and goes back to that lock alone, and holds no reference into the
//! protected value.

use vstd::prelude::*;

use crate::errno::EResult;
use crate::spinlock::{word_step, LockStep, EXCLUSIVE};
use crate::waitlist::{Micros, Waitlist};

verus! {

/// Raw mutually-exclusive resource access guard.
pub struct RawMutex {
    waitlist: Waitlist,
    shares: u32,
    id: Ghost<int>,
}

impl RawMutex {
    /// The lock word.
    pub closed spec fn shares(&self) -> u32 {
        self.shares
    }

    /// Which lock this is: the guards it hands out carry it, and only go
    /// back to it.
    pub closed spec fn id(&self) -> int {
        self.id@
    }

    /// An unlocked lock.
    pub fn new() -> (r: Self)
        ensures
            r.shares() == 0,
    {
        Self { waitlist: Waitlist::new(), shares: 0, id: Ghost(0) }
    }


    /// Acquire the lock exclusively, waiting as long as it takes.
    pub fn lock(&mut self) -> (r: EResult<RawMutexGuard>)
        requires
            old(self).shares() == 0,
        ensures
            final(self).id() == old(self).id(),
            r matches Ok(g) ==> g.lock_id() == old(self).id(),
            r is Ok,
            final(self).shares() == EXCLUSIVE,
            final(self).shares() == word_step(old(self).shares() as int, LockStep::Lock),
    {
        RawMutexGuard::new(self, Micros::MAX)
    }

    /// Acquire the lock exclusively, waiting at most `timeout`.
    pub fn timed_lock(&mut self, timeout: Micros) -> (r: EResult<RawMutexGuard>)
        requires
            old(self).shares() == 0,
        ensures
            final(self).id() == old(self).id(),
            r matches Ok(g) ==> g.lock_id() == old(self).id(),
            r is Ok,
            final(self).shares() == EXCLUSIVE,
            final(self).shares() == word_step(old(self).shares() as int, LockStep::Lock),
    {
        RawMutexGuard::new(self, timeout)
    }

    /// Acquire a shared holding, waiting as long as it takes.
    pub fn lock_shared(&mut self) -> (r: EResult<SharedRawMutexGuard>)
        requires
            old(self).shares() != EXCLUSIVE,
        ensures
            final(self).id() == old(self).id(),
            r matches Ok(g) ==> g.lock_id() == old(self).id(),
            r is Ok,
            final(self).shares() == old(self).shares() + 1,
            final(self).shares() == word_step(old(self).shares() as int, LockStep::LockShared),
    {
        SharedRawMutexGuard::new(self, Micros::MAX)
    }

    /// Acquire a shared holding, waiting at most `timeout`.
    pub fn timed_lock_shared(&mut self, timeout: Micros) -> (r: EResult<SharedRawMutexGuard>)
        requires
            old(self).shares() != EXCLUSIVE,
        ensures
            final(self).id() == old(self).id(),
            r matches Ok(g) ==> g.lock_id() == old(self).id(),
            r is Ok,
            final(self).shares() == old(self).shares() + 1,
            final(self).shares() == word_step(old(self).shares() as int, LockStep::LockShared),
    {
        SharedRawMutexGuard::new(self, timeout)
    }

    /// Version of [`Self::lock`] that can't be interrupted.
    pub fn unintr_lock(&mut self) -> (r: RawMutexGuard)
        requires
            old(self).shares() == 0,
        ensures
            final(self).id() == old(self).id(),
            r.lock_id() == old(self).id(),
            final(self).shares() == EXCLUSIVE,
            final(self).shares() == word_step(old(self).shares() as int, LockStep::Lock),
    {
        match self.lock() {
            Ok(g) => g,
            Err(_) => {
                proof {
                    assert(false);
                }
                RawMutexGuard { lock: Ghost(self.id()) }
            },
        }
    }

    /// Version of [`Self::lock_shared`] that can't be interrupted.
    pub fn unintr_lock_shared(&mut self) -> (r: SharedRawMutexGuard)
        requires
            old(self).shares() != EXCLUSIVE,
        ensures
            final(self).id() == old(self).id(),
            r.lock_id() == old(self).id(),
            final(self).shares() == old(self).shares() + 1,
            final(self).shares() == word_step(old(self).shares() as int, LockStep::LockShared),
    {
        match self.lock_shared() {
            Ok(g) => g,
            Err(_) => {
                proof {
                    assert(false);
                }
                SharedRawMutexGuard { lock: Ghost(self.id()) }
            },
        }
    }

    /// Whether the lock is held exclusively.
    pub fn is_locked(&self) -> (r: bool)
        ensures
            r == (self.shares() == EXCLUSIVE),
    {
        self.shares == EXCLUSIVE
    }
}

/// Exclusive access held to a [`RawMutex`].
pub struct RawMutexGuard {
    lock: Ghost<int>,
}

impl RawMutexGuard {
    /// The lock that this guard holds.
    pub closed spec fn lock_id(&self) -> int {
        self.lock@
    }

    /// Try to take the lock word from 0 to exclusive a few times, then block
    /// on the wait list between further tries.
    fn new(mutex: &mut RawMutex, timeout: Micros) -> (r: EResult<Self>)
        requires
            old(mutex).shares() == 0,
        ensures
            final(mutex).id() == old(mutex).id(),
            r matches Ok(g) ==> g.lock_id() == old(mutex).id(),
            r is Ok,
            final(mutex).shares() == EXCLUSIVE,
            final(mutex).shares() == word_step(old(mutex).shares() as int, LockStep::Lock),
    {
        // Fast path.
        let mut i: u32 = 0;
        while i < 50
            invariant
                mutex.shares == 0,
                mutex.id == old(mutex).id,
            decreases 50 - i,
        {
            if mutex.shares == 0 {
                mutex.shares = EXCLUSIVE;
                return Ok(Self { lock: Ghost(mutex.id()) });
            }
            i = i + 1;
        }
        // Slow path.
        loop
            invariant
                mutex.shares == 0,
                mutex.id == old(mutex).id,
            decreases 1int,
        {
            if mutex.shares == 0 {
                mutex.shares = EXCLUSIVE;
                return Ok(Self { lock: Ghost(mutex.id()) });
            }
            let cur = mutex.shares;
            let _ = mutex.waitlist.block(timeout, || cur != 0);
        }
    }

    /// Turn the exclusive holding into a shared one, waking waiters.
    pub fn demote(self, mutex: &mut RawMutex) -> (r: SharedRawMutexGuard)
        requires
            self.lock_id() == old(mutex).id(),
            old(mutex).shares() == EXCLUSIVE,
        ensures
            final(mutex).id() == old(mutex).id(),
            r.lock_id() == old(mutex).id(),
            final(mutex).shares() == 1,
            final(mutex).shares() == word_step(old(mutex).shares() as int, LockStep::Demote),
    {
        mutex.shares = 1;
        mutex.waitlist.notify_all();
        SharedRawMutexGuard { lock: Ghost(mutex.id()) }
    }

    /// Release the lock and wake waiters (what dropping the guard does).
    pub fn release(self, mutex: &mut RawMutex)
        requires
            self.lock_id() == old(mutex).id(),
            old(mutex).shares() == EXCLUSIVE,
        ensures
            final(mutex).id() == old(mutex).id(),
            final(mutex).shares() == 0,
            final(mutex).shares() == word_step(old(mutex).shares() as int, LockStep::Release),
    {
        mutex.shares = 0;
        mutex.waitlist.notify_all();
    }
}

/// Shared access held to a [`RawMutex`].
pub struct SharedRawMutexGuard {
    lock: Ghost<int>,
}

impl SharedRawMutexGuard {
    /// The lock that this guard holds.
    pub closed spec fn lock_id(&self) -> int {
        self.lock@
    }

    /// Try to add a holder while the lock is not held exclusively, a few
    /// times, then block on the wait list between further tries.
    fn new(mutex: &mut RawMutex, timeout: Micros) -> (r: EResult<Self>)
        requires
            old(mutex).shares() != EXCLUSIVE,
        ensures
            final(mutex).id() == old(mutex).id(),
            r matches Ok(g) ==> g.lock_id() == old(mutex).id(),
            r is Ok,
            final(mutex).shares() == old(mutex).shares() + 1,
            final(mutex).shares() == word_step(old(mutex).shares() as int, LockStep::LockShared),
    {
        let old_count = mutex.shares;
        // Fast path.
        let mut i: u32 = 0;
        while i < 50
            invariant
                mutex.shares == old_count,
                mutex.id == old(mutex).id,
                old_count == old(mutex).shares,
                old_count != EXCLUSIVE,
            decreases 50 - i,
        {
            if mutex.shares != EXCLUSIVE {
                mutex.shares = mutex.shares + 1;
                return Ok(Self { lock: Ghost(mutex.id()) });
            }
            i = i + 1;
        }
        // Slow path.
        loop
            invariant
                mutex.shares == old_count,
                mutex.id == old(mutex).id,
                old_count == old(mutex).shares,
                old_count != EXCLUSIVE,
            decreases 1int,
        {
            if mutex.shares != EXCLUSIVE {
                mutex.shares = mutex.shares + 1;
                return Ok(Self { lock: Ghost(mutex.id()) });
            }
            let cur = mutex.shares;
            let _ = mutex.waitlist.block(timeout, || cur == EXCLUSIVE);
        }
    }

    /// Add another shared holder; the count must not be at its limit.
    pub fn share(&self, mutex: &mut RawMutex) -> (r: Self)
        requires
            self.lock_id() == old(mutex).id(),
            old(mutex).shares() < EXCLUSIVE,
        ensures
            final(mutex).id() == old(mutex).id(),
            r.lock_id() == old(mutex).id(),
            final(mutex).shares() == old(mutex).shares() + 1,
            final(mutex).shares() == word_step(old(mutex).shares() as int, LockStep::Share),
    {
        mutex.shares = mutex.shares + 1;
        Self { lock: Ghost(mutex.id()) }
    }

    /// Release this shared holding, waking a waiter when it was the last
    /// (what dropping the guard does).
    pub fn release(self, mutex: &mut RawMutex)
        requires
            self.lock_id() == old(mutex).id(),
            1 <= old(mutex).shares() < EXCLUSIVE,
        ensures
            final(mutex).id() == old(mutex).id(),
            final(mutex).shares() == old(mutex).shares() - 1,
            final(mutex).shares() == word_step(old(mutex).shares() as int, LockStep::ReleaseShared),
    {
        mutex.shares = mutex.shares - 1;
        if mutex.shares == 0 {
            mutex.waitlist.notify();
        }
    }
}


/// Mutex-protected resource.
pub struct Mutex<T> {
    inner: RawMutex,
    data: T,
}

impl<T> Mutex<T> {
    /// The lock word.
    pub closed spec fn shares(&self) -> u32 {
        self.inner.shares()
    }

    /// Which lock this is.
    pub closed spec fn id(&self) -> int {
        self.inner.id()
    }

    /// The protected value.
    pub closed spec fn value(&self) -> T {
        self.data
    }

    /// An unlocked lock protecting `data`.
    pub fn new(data: T) -> (r: Self)
        ensures
            r.shares() == 0,
            r.value() == data,
    {
        Self { inner: RawMutex::new(), data }
    }


    /// Acquire the lock exclusively, waiting as long as it takes.
    pub fn lock(&mut self) -> (r: MutexGuard)
        requires
            old(self).shares() == 0,
        ensures
            final(self).id() == old(self).id(),
            r.lock_id() == old(self).id(),
            final(self).shares() == EXCLUSIVE,
            final(self).shares() == word_step(old(self).shares() as int, LockStep::Lock),
            final(self).value() == old(self).value(),
    {
        match MutexGuard::new(self, Micros::MAX) {
            Ok(g) => g,
            Err(_) => {
                proof {
                    assert(false);
                }
                MutexGuard { inner: RawMutexGuard { lock: Ghost(self.id()) } }
            },
        }
    }

    /// Acquire the lock exclusively, waiting at most `timeout`.
    pub fn timed_lock(&mut self, timeout: Micros) -> (r: EResult<MutexGuard>)
        requires
            old(self).shares() == 0,
        ensures
            final(self).id() == old(self).id(),
            r matches Ok(g) ==> g.lock_id() == old(self).id(),
            r is Ok,
            final(self).shares() == EXCLUSIVE,
            final(self).shares() == word_step(old(self).shares() as int, LockStep::Lock),
            final(self).value() == old(self).value(),
    {
        MutexGuard::new(self, timeout)
    }

    /// Acquire a shared holding, waiting as long as it takes.
    pub fn lock_shared(&mut self) -> (r: SharedMutexGuard)
        requires
            old(self).shares() != EXCLUSIVE,
        ensures
            final(self).id() == old(self).id(),
            r.lock_id() == old(self).id(),
            final(self).shares() == old(self).shares() + 1,
            final(self).shares() == word_step(old(self).shares() as int, LockStep::LockShared),
            final(self).value() == old(self).value(),
    {
        match SharedMutexGuard::new(self, Micros::MAX) {
            Ok(g) => g,
            Err(_) => {
                proof {
                    assert(false);
                }
                SharedMutexGuard { inner: SharedRawMutexGuard { lock: Ghost(self.id()) } }
            },
        }
    }

    /// Acquire a shared holding, waiting at most `timeout`.
    pub fn timed_lock_shared(&mut self, timeout: Micros) -> (r: EResult<SharedMutexGuard>)
        requires
            old(self).shares() != EXCLUSIVE,
        ensures
            final(self).id() == old(self).id(),
            r matches Ok(g) ==> g.lock_id() == old(self).id(),
            r is Ok,
            final(self).shares() == old(self).shares() + 1,
            final(self).shares() == word_step(old(self).shares() as int, LockStep::LockShared),
            final(self).value() == old(self).value(),
    {
        SharedMutexGuard::new(self, timeout)
    }


    /// Whether the lock is held exclusively.
    pub fn is_locked(&self) -> (r: bool)
        ensures
            r == (self.shares() == EXCLUSIVE),
    {
        self.inner.is_locked()
    }
}

/// Represents an exclusively-held [`Mutex`].
pub struct MutexGuard {
    inner: RawMutexGuard,
}

impl MutexGuard {
    /// The lock that this guard holds.
    pub closed spec fn lock_id(&self) -> int {
        self.inner.lock_id()
    }

    fn new<T>(mutex: &mut Mutex<T>, timeout: Micros) -> (r: EResult<Self>)
        requires
            old(mutex).shares() == 0,
        ensures
            final(mutex).id() == old(mutex).id(),
            r matches Ok(g) ==> g.lock_id() == old(mutex).id(),
            r is Ok,
            final(mutex).shares() == EXCLUSIVE,
            final(mutex).shares() == word_step(old(mutex).shares() as int, LockStep::Lock),
            final(mutex).value() == old(mutex).value(),
    {
        match mutex.inner.timed_lock(timeout) {
            Ok(raw) => Ok(Self { inner: raw }),
            Err(e) => Err(e),
        }
    }

    /// A copy of the protected value.
    pub fn read<T: Clone>(&self, lock: &Mutex<T>) -> (r: T)
        requires
            self.lock_id() == lock.id(),
            lock.shares() == EXCLUSIVE,
        ensures
            cloned(lock.value(), r),
    {
        lock.data.clone()
    }

    /// Replace the protected value.
    pub fn write<T>(&mut self, lock: &mut Mutex<T>, value: T)
        requires
            self.lock_id() == old(lock).id(),
            old(lock).shares() == EXCLUSIVE,
        ensures
            final(lock).id() == old(lock).id(),
            final(lock).shares() == EXCLUSIVE,
            final(lock).value() == value,
    {
        lock.data = value;
    }

    /// Turn the exclusive holding into a shared one.
    pub fn demote<T>(self, lock: &mut Mutex<T>) -> (r: SharedMutexGuard)
        requires
            self.lock_id() == old(lock).id(),
            old(lock).shares() == EXCLUSIVE,
        ensures
            final(lock).id() == old(lock).id(),
            r.lock_id() == old(lock).id(),
            final(lock).shares() == 1,
            final(lock).shares() == word_step(old(lock).shares() as int, LockStep::Demote),
            final(lock).value() == old(lock).value(),
    {
        let raw = self.inner.demote(&mut lock.inner);
        SharedMutexGuard { inner: raw }
    }

    /// Release the lock (what dropping the guard does).
    pub fn release<T>(self, lock: &mut Mutex<T>)
        requires
            self.lock_id() == old(lock).id(),
            old(lock).shares() == EXCLUSIVE,
        ensures
            final(lock).id() == old(lock).id(),
            final(lock).shares() == 0,
            final(lock).shares() == word_step(old(lock).shares() as int, LockStep::Release),
            final(lock).value() == old(lock).value(),
    {
        self.inner.release(&mut lock.inner);
    }
}

/// Represents a non-exclusively-held [`Mutex`].
pub struct SharedMutexGuard {
    inner: SharedRawMutexGuard,
}

impl SharedMutexGuard {
    /// The lock that this guard holds.
    pub closed spec fn lock_id(&self) -> int {
        self.inner.lock_id()
    }

    fn new<T>(mutex: &mut Mutex<T>, timeout: Micros) -> (r: EResult<Self>)
        requires
            old(mutex).shares() != EXCLUSIVE,
        ensures
            final(mutex).id() == old(mutex).id(),
            r matches Ok(g) ==> g.lock_id() == old(mutex).id(),
            r is Ok,
            final(mutex).shares() == old(mutex).shares() + 1,
            final(mutex).shares() == word_step(old(mutex).shares() as int, LockStep::LockShared),
            final(mutex).value() == old(mutex).value(),
    {
        match mutex.inner.timed_lock_shared(timeout) {
            Ok(raw) => Ok(Self { inner: raw }),
            Err(e) => Err(e),
        }
    }

    /// Add another shared holder; the count must not be at its limit.
    pub fn share<T>(&self, lock: &mut Mutex<T>) -> (r: Self)
        requires
            self.lock_id() == old(lock).id(),
            old(lock).shares() < EXCLUSIVE,
        ensures
            final(lock).id() == old(lock).id(),
            r.lock_id() == old(lock).id(),
            final(lock).shares() == old(lock).shares() + 1,
            final(lock).shares() == word_step(old(lock).shares() as int, LockStep::Share),
            final(lock).value() == old(lock).value(),
    {
        let raw = self.inner.share(&mut lock.inner);
        Self { inner: raw }
    }

    /// A copy of the protected value.
    pub fn read<T: Clone>(&self, lock: &Mutex<T>) -> (r: T)
        requires
            self.lock_id() == lock.id(),
            1 <= lock.shares() < EXCLUSIVE,
        ensures
            cloned(lock.value(), r),
    {
        lock.data.clone()
    }

    /// Release this shared holding (what dropping the guard does).
    pub fn release<T>(self, lock: &mut Mutex<T>)
        requires
            self.lock_id() == old(lock).id(),
            1 <= old(lock).shares() < EXCLUSIVE,
        ensures
            final(lock).id() == old(lock).id(),
            final(lock).shares() == old(lock).shares() - 1,
            final(lock).shares() == word_step(old(lock).shares() as int, LockStep::ReleaseShared),
            final(lock).value() == old(lock).value(),
    {
        self.inner.release(&mut lock.inner);
    }
}


} // verus!
