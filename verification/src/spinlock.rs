//! Spinlocks: a lock word counts the shared holders, or is `u32::MAX`
//! while the lock is held exclusively.
//!
//! The lock word is modelled as a plain field, and acquiring a lock that is
//! held would spin forever, so each acquisition requires the lock to be
//! free for it. A guard is a token of the holding that carries which lock
//! it holds; handing it back to that lock (what dropping it does) releases
//! the holding, and it goes back to no other. A guard holds no reference
//! into the protected value, which stays in the lock and is read and
//! written through the guard, so a guard cannot be narrowed to a part of
//! the value.

use vstd::prelude::*;

verus! {

/// Lock word value of an exclusively held lock.
pub const EXCLUSIVE: u32 = u32::MAX;

/// What a caller does to a lock: take it exclusively, take a shared
/// holding, give back the exclusive holding, give back a shared one, turn
/// the exclusive holding into a shared one, or add a shared holding beside
/// one it has.
pub enum LockStep {
    Lock,
    LockShared,
    Release,
    ReleaseShared,
    Demote,
    Share,
}

/// The lock word after `step`.
pub open spec fn word_step(word: int, step: LockStep) -> int {
    match step {
        LockStep::Lock => EXCLUSIVE as int,
        LockStep::LockShared => word + 1,
        LockStep::Release => 0,
        LockStep::ReleaseShared => word - 1,
        LockStep::Demote => 1,
        LockStep::Share => word + 1,
    }
}

/// The guards alive after `step`: whether the exclusive one is, and how
/// many shared ones are.
pub open spec fn guards_step(exclusive: bool, shared: int, step: LockStep) -> (bool, int) {
    match step {
        LockStep::Lock => (true, shared),
        LockStep::LockShared => (exclusive, shared + 1),
        LockStep::Release => (false, shared),
        LockStep::ReleaseShared => (exclusive, shared - 1),
        LockStep::Demote => (false, shared + 1),
        LockStep::Share => (exclusive, shared + 1),
    }
}

/// Whether `step` can be taken: the lock word meets what the call
/// requires, and the guard that it gives back, demotes or shares is alive.
pub open spec fn step_possible(word: int, exclusive: bool, shared: int, step: LockStep) -> bool {
    match step {
        LockStep::Lock => word == 0,
        LockStep::LockShared => word != EXCLUSIVE,
        LockStep::Release => exclusive && word == EXCLUSIVE,
        LockStep::ReleaseShared => shared >= 1 && 1 <= word < EXCLUSIVE,
        LockStep::Demote => exclusive && word == EXCLUSIVE,
        LockStep::Share => shared >= 1 && word < EXCLUSIVE,
    }
}

/// The lock word and the guards alive after the first `n` of `steps`,
/// starting from a new lock.
pub open spec fn run_state(steps: Seq<LockStep>, n: nat) -> (int, bool, int)
    decreases n,
{
    if n == 0 {
        (0, false, 0)
    } else {
        let (w, e, c) = run_state(steps, (n - 1) as nat);
        let (e2, c2) = guards_step(e, c, steps[n - 1]);
        (word_step(w, steps[n - 1]), e2, c2)
    }
}

/// Along any run of calls on a new lock, each made when it can be, and
/// with fewer than `u32::MAX` shared guards alive at a time: the lock word
/// is `u32::MAX` exactly while the exclusive guard is alive, and then no
/// shared guard is; otherwise it is the number of shared guards alive.
pub proof fn lemma_lock_word_counts_guards(steps: Seq<LockStep>, n: nat)
    requires
        n <= steps.len(),
        forall|i: nat|
            i < n ==> step_possible(
                #[trigger] run_state(steps, i).0,
                run_state(steps, i).1,
                run_state(steps, i).2,
                steps[i as int],
            ),
        forall|i: nat| i <= n ==> #[trigger] run_state(steps, i).2 < EXCLUSIVE,
    ensures
        ({
            let (w, e, c) = run_state(steps, n);
            &&& e ==> w == EXCLUSIVE && c == 0
            &&& !e ==> w == c
        }),
    decreases n,
{
    if n > 0 {
        let m = (n - 1) as nat;
        lemma_lock_word_counts_guards(steps, m);
        assert(step_possible(run_state(steps, m).0, run_state(steps, m).1, run_state(steps, m).2, steps[m as int]));
        assert(run_state(steps, n).2 < EXCLUSIVE);
    }
}

/// Simple synchronization primitive which spins in a loop until successfully acquiring the lock.
pub struct RawSpinlock {
    shares: u32,
    id: Ghost<int>,
}

impl RawSpinlock {
    /// The lock word.
    pub closed spec fn shares(&self) -> u32 {
        self.shares
    }

    /// Which lock this is: the guards it hands out carry it, and only go
    /// back to it.
    pub closed spec fn id(&self) -> int {
        self.id@
    }

    /// An unlocked lock.
    pub fn new() -> (r: Self)
        ensures
            r.shares() == 0,
    {
        Self { shares: 0, id: Ghost(0) }
    }


    /// Acquire the lock exclusively.
    pub fn lock(&mut self) -> (r: RawSpinlockGuard)
        requires
            old(self).shares() == 0,
        ensures
            final(self).id() == old(self).id(),
            r.lock_id() == old(self).id(),
            final(self).shares() == EXCLUSIVE,
            final(self).shares() == word_step(old(self).shares() as int, LockStep::Lock),
    {
        RawSpinlockGuard::new(self)
    }

    /// Acquire a shared holding of the lock.
    pub fn lock_shared(&mut self) -> (r: SharedRawSpinlockGuard)
        requires
            old(self).shares() != EXCLUSIVE,
        ensures
            final(self).id() == old(self).id(),
            r.lock_id() == old(self).id(),
            final(self).shares() == old(self).shares() + 1,
            final(self).shares() == word_step(old(self).shares() as int, LockStep::LockShared),
    {
        SharedRawSpinlockGuard::new(self)
    }

    /// Whether the lock is held exclusively.
    pub fn is_locked(&self) -> (r: bool)
        ensures
            r == (self.shares() == EXCLUSIVE),
    {
        self.shares == EXCLUSIVE
    }
}

/// Represents an exclusively-held [`RawSpinlock`].
pub struct RawSpinlockGuard {
    lock: Ghost<int>,
}

impl RawSpinlockGuard {
    /// The lock that this guard holds.
    pub closed spec fn lock_id(&self) -> int {
        self.lock@
    }

    /// Spin until the lock word goes from 0 to exclusive.
    pub fn new(lock: &mut RawSpinlock) -> (r: Self)
        requires
            old(lock).shares() == 0,
        ensures
            final(lock).id() == old(lock).id(),
            r.lock_id() == old(lock).id(),
            final(lock).shares() == EXCLUSIVE,
            final(lock).shares() == word_step(old(lock).shares() as int, LockStep::Lock),
    {
        loop
            invariant_except_break
                lock.shares == 0,
            invariant
                lock.id == old(lock).id,
            ensures
                lock.shares == EXCLUSIVE,
            decreases 1int,
        {
            if lock.shares == 0 {
                lock.shares = EXCLUSIVE;
                break;
            }
        }
        Self { lock: Ghost(lock.id()) }
    }

    /// Turn the exclusive holding into a shared one.
    pub fn demote(self, lock: &mut RawSpinlock) -> (r: SharedRawSpinlockGuard)
        requires
            self.lock_id() == old(lock).id(),
            old(lock).shares() == EXCLUSIVE,
        ensures
            final(lock).id() == old(lock).id(),
            r.lock_id() == old(lock).id(),
            final(lock).shares() == 1,
            final(lock).shares() == word_step(old(lock).shares() as int, LockStep::Demote),
    {
        lock.shares = 1;
        SharedRawSpinlockGuard { lock: Ghost(lock.id()) }
    }

    /// Release the lock (what dropping the guard does).
    pub fn release(self, lock: &mut RawSpinlock)
        requires
            self.lock_id() == old(lock).id(),
            old(lock).shares() == EXCLUSIVE,
        ensures
            final(lock).id() == old(lock).id(),
            final(lock).shares() == 0,
            final(lock).shares() == word_step(old(lock).shares() as int, LockStep::Release),
    {
        lock.shares = 0;
    }
}

/// Represents a non-exclusively-held [`RawSpinlock`].
pub struct SharedRawSpinlockGuard {
    lock: Ghost<int>,
}

impl SharedRawSpinlockGuard {
    /// The lock that this guard holds.
    pub closed spec fn lock_id(&self) -> int {
        self.lock@
    }

    /// Spin until the lock is not held exclusively, then add a holder.
    pub fn new(lock: &mut RawSpinlock) -> (r: Self)
        requires
            old(lock).shares() != EXCLUSIVE,
        ensures
            final(lock).id() == old(lock).id(),
            r.lock_id() == old(lock).id(),
            final(lock).shares() == old(lock).shares() + 1,
            final(lock).shares() == word_step(old(lock).shares() as int, LockStep::LockShared),
    {
        let old_count = lock.shares;
        loop
            invariant_except_break
                lock.shares == old_count,
            invariant
                lock.id == old(lock).id,
                old_count == old(lock).shares,
                old_count != EXCLUSIVE,
            ensures
                lock.shares == old_count + 1,
            decreases 1int,
        {
            if lock.shares != EXCLUSIVE {
                lock.shares = lock.shares + 1;
                break;
            }
        }
        Self { lock: Ghost(lock.id()) }
    }

    /// Add another shared holder; the count must not be at its limit.
    pub fn share(&self, lock: &mut RawSpinlock) -> (r: Self)
        requires
            self.lock_id() == old(lock).id(),
            old(lock).shares() < EXCLUSIVE,
        ensures
            final(lock).id() == old(lock).id(),
            r.lock_id() == old(lock).id(),
            final(lock).shares() == old(lock).shares() + 1,
            final(lock).shares() == word_step(old(lock).shares() as int, LockStep::Share),
    {
        lock.shares = lock.shares + 1;
        Self { lock: Ghost(lock.id()) }
    }

    /// Release this shared holding (what dropping the guard does).
    pub fn release(self, lock: &mut RawSpinlock)
        requires
            self.lock_id() == old(lock).id(),
            1 <= old(lock).shares() < EXCLUSIVE,
        ensures
            final(lock).id() == old(lock).id(),
            final(lock).shares() == old(lock).shares() - 1,
            final(lock).shares() == word_step(old(lock).shares() as int, LockStep::ReleaseShared),
    {
        lock.shares = lock.shares - 1;
    }
}


/// Simple synchronization primitive which spins in a loop until successfully acquiring the lock.
pub struct Spinlock<T> {
    inner: RawSpinlock,
    data: T,
}

impl<T> Spinlock<T> {
    /// The lock word.
    pub closed spec fn shares(&self) -> u32 {
        self.inner.shares()
    }

    /// Which lock this is.
    pub closed spec fn id(&self) -> int {
        self.inner.id()
    }

    /// The protected value.
    pub closed spec fn value(&self) -> T {
        self.data
    }

    /// An unlocked lock protecting `data`.
    pub fn new(data: T) -> (r: Self)
        ensures
            r.shares() == 0,
            r.value() == data,
    {
        Self { inner: RawSpinlock::new(), data }
    }


    /// Acquire the lock exclusively.
    pub fn lock(&mut self) -> (r: SpinlockGuard)
        requires
            old(self).shares() == 0,
        ensures
            final(self).id() == old(self).id(),
            r.lock_id() == old(self).id(),
            final(self).shares() == EXCLUSIVE,
            final(self).shares() == word_step(old(self).shares() as int, LockStep::Lock),
            final(self).value() == old(self).value(),
    {
        let raw = self.inner.lock();
        SpinlockGuard { inner: raw }
    }

    /// Acquire a shared holding of the lock.
    pub fn lock_shared(&mut self) -> (r: SharedSpinlockGuard)
        requires
            old(self).shares() != EXCLUSIVE,
        ensures
            final(self).id() == old(self).id(),
            r.lock_id() == old(self).id(),
            final(self).shares() == old(self).shares() + 1,
            final(self).shares() == word_step(old(self).shares() as int, LockStep::LockShared),
            final(self).value() == old(self).value(),
    {
        let raw = self.inner.lock_shared();
        SharedSpinlockGuard { inner: raw }
    }


    /// Whether the lock is held exclusively.
    pub fn is_locked(&self) -> (r: bool)
        ensures
            r == (self.shares() == EXCLUSIVE),
    {
        self.inner.is_locked()
    }
}

/// Represents an exclusively-held [`Spinlock`].
pub struct SpinlockGuard {
    inner: RawSpinlockGuard,
}

impl SpinlockGuard {
    /// The lock that this guard holds.
    pub closed spec fn lock_id(&self) -> int {
        self.inner.lock_id()
    }

    /// A copy of the protected value.
    pub fn read<T: Clone>(&self, lock: &Spinlock<T>) -> (r: T)
        requires
            self.lock_id() == lock.id(),
            lock.shares() == EXCLUSIVE,
        ensures
            cloned(lock.value(), r),
    {
        lock.data.clone()
    }

    /// Replace the protected value.
    pub fn write<T>(&mut self, lock: &mut Spinlock<T>, value: T)
        requires
            self.lock_id() == old(lock).id(),
            old(lock).shares() == EXCLUSIVE,
        ensures
            final(lock).id() == old(lock).id(),
            final(lock).shares() == EXCLUSIVE,
            final(lock).value() == value,
    {
        lock.data = value;
    }

    /// Turn the exclusive holding into a shared one.
    pub fn demote<T>(self, lock: &mut Spinlock<T>) -> (r: SharedSpinlockGuard)
        requires
            self.lock_id() == old(lock).id(),
            old(lock).shares() == EXCLUSIVE,
        ensures
            final(lock).id() == old(lock).id(),
            r.lock_id() == old(lock).id(),
            final(lock).shares() == 1,
            final(lock).shares() == word_step(old(lock).shares() as int, LockStep::Demote),
            final(lock).value() == old(lock).value(),
    {
        let raw = self.inner.demote(&mut lock.inner);
        SharedSpinlockGuard { inner: raw }
    }

    /// Release the lock (what dropping the guard does).
    pub fn release<T>(self, lock: &mut Spinlock<T>)
        requires
            self.lock_id() == old(lock).id(),
            old(lock).shares() == EXCLUSIVE,
        ensures
            final(lock).id() == old(lock).id(),
            final(lock).shares() == 0,
            final(lock).shares() == word_step(old(lock).shares() as int, LockStep::Release),
            final(lock).value() == old(lock).value(),
    {
        self.inner.release(&mut lock.inner);
    }
}

/// Represents a non-exclusively-held [`Spinlock`].
pub struct SharedSpinlockGuard {
    inner: SharedRawSpinlockGuard,
}

impl SharedSpinlockGuard {
    /// The lock that this guard holds.
    pub closed spec fn lock_id(&self) -> int {
        self.inner.lock_id()
    }

    /// Add another shared holder; the count must not be at its limit.
    pub fn share<T>(&self, lock: &mut Spinlock<T>) -> (r: Self)
        requires
            self.lock_id() == old(lock).id(),
            old(lock).shares() < EXCLUSIVE,
        ensures
            final(lock).id() == old(lock).id(),
            r.lock_id() == old(lock).id(),
            final(lock).shares() == old(lock).shares() + 1,
            final(lock).shares() == word_step(old(lock).shares() as int, LockStep::Share),
            final(lock).value() == old(lock).value(),
    {
        let raw = self.inner.share(&mut lock.inner);
        Self { inner: raw }
    }

    /// A copy of the protected value.
    pub fn read<T: Clone>(&self, lock: &Spinlock<T>) -> (r: T)
        requires
            self.lock_id() == lock.id(),
            1 <= lock.shares() < EXCLUSIVE,
        ensures
            cloned(lock.value(), r),
    {
        lock.data.clone()
    }

    /// Release this shared holding (what dropping the guard does).
    pub fn release<T>(self, lock: &mut Spinlock<T>)
        requires
            self.lock_id() == old(lock).id(),
            1 <= old(lock).shares() < EXCLUSIVE,
        ensures
            final(lock).id() == old(lock).id(),
            final(lock).shares() == old(lock).shares() - 1,
            final(lock).shares() == word_step(old(lock).shares() as int, LockStep::ReleaseShared),
            final(lock).value() == old(lock).value(),
    {
        self.inner.release(&mut lock.inner);
    }
}


} // verus!
