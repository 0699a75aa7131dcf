//! An unbounded channel with many senders and one receiver.
//!
//! The queue and the count of senders live behind a mutex that the sender and
//! receiver handles share. What a handle does to them is a method of
//! [`Inner`], a plain value with an exact contract; the handles lock, call
//! that method, and wake or wait.

use vstd::prelude::*;
use std::collections::VecDeque;
use std::sync::Arc;
use std::sync::Condvar;
use std::sync::Mutex;
use std::sync::MutexGuard;

verus! {

/// `std::sync::Mutex`, of which nothing inside is seen.
#[verifier::external_type_specification]
#[verifier::external_body]
#[verifier::reject_recursive_types(T)]
pub struct ExMutex<T: ?Sized>(Mutex<T>);

/// `std::sync::MutexGuard`, of which nothing inside is seen.
#[verifier::external_type_specification]
#[verifier::external_body]
#[verifier::reject_recursive_types(T)]
pub struct ExMutexGuard<'a, T: ?Sized + 'a>(MutexGuard<'a, T>);

/// `std::sync::Condvar`, of which nothing inside is seen.
#[verifier::external_type_specification]
#[verifier::external_body]
pub struct ExCondvar(Condvar);

/// `Mutex::new`: a mutex that holds `t`. Nothing is claimed of it.
pub assume_specification<T>[ Mutex::<T>::new ](t: T) -> (m: Mutex<T>)
;

/// `Condvar::new`: a condition variable. Nothing is claimed of it.
pub assume_specification[ Condvar::new ]() -> (c: Condvar)
;

/// What the handles of one channel share: the items that were sent and not
/// yet received, oldest first, and the number of senders alive.
pub struct Inner<T> {
    queue: VecDeque<T>,
    senders: usize,
}

impl<T> Inner<T> {
    /// The items in the queue, oldest first.
    pub closed spec fn queued(&self) -> Seq<T> {
        self.queue@
    }

    /// The number of senders alive.
    pub closed spec fn sender_count(&self) -> nat {
        self.senders as nat
    }

    /// The state of a channel that was just made: nothing queued, one sender.
    pub fn new() -> (inner: Self)
        ensures
            inner.queued() == Seq::<T>::empty(),
            inner.sender_count() == 1,
    {
        Inner { queue: VecDeque::new(), senders: 1 }
    }

    /// Queues one item behind the others.
    pub fn push(&mut self, t: T)
        ensures
            final(self).queued() == old(self).queued().push(t),
            final(self).sender_count() == old(self).sender_count(),
    {
        self.queue.push_back(t);
    }

    /// Counts one more sender. The count stays where it is once it has
    /// reached the largest `usize`.
    pub fn add_sender(&mut self)
        ensures
            final(self).queued() == old(self).queued(),
            final(self).sender_count() == if old(self).sender_count() < usize::MAX {
                old(self).sender_count() + 1
            } else {
                old(self).sender_count()
            },
    {
        self.senders = self.senders.saturating_add(1);
    }

    /// Counts one sender less, and says whether none is left.
    pub fn remove_sender(&mut self) -> (was_last: bool)
        ensures
            final(self).queued() == old(self).queued(),
            final(self).sender_count() == if old(self).sender_count() > 0 {
                old(self).sender_count() - 1
            } else {
                0
            },
            was_last == (final(self).sender_count() == 0),
        opens_invariants none
        no_unwind
    {
        if self.senders > 0 {
            self.senders = self.senders - 1;
        }
        self.senders == 0
    }

    /// Whether a receiver has to wait: nothing is queued, and a sender that
    /// could still queue something is alive.
    pub fn must_wait(&self) -> (wait: bool)
        ensures
            wait == (self.queued().len() == 0 && self.sender_count() > 0),
    {
        self.queue.len() == 0 && self.senders > 0
    }

    /// Takes the oldest item, if there is one, and moves the others to the
    /// receiver's `buffer`, whose old contents become the queue.
    pub fn take(&mut self, buffer: &mut VecDeque<T>) -> (item: Option<T>)
        ensures
            final(self).sender_count() == old(self).sender_count(),
            old(self).queued().len() > 0 ==> {
                &&& item == Some(old(self).queued()[0])
                &&& final(buffer)@ == old(self).queued().skip(1)
                &&& final(self).queued() == old(buffer)@
            },
            old(self).queued().len() == 0 ==> {
                &&& item is None
                &&& final(buffer)@ == old(buffer)@
                &&& final(self).queued() == old(self).queued()
            },
    {
        match self.queue.pop_front() {
            Some(t) => {
                std::mem::swap(buffer, &mut self.queue);
                assert(old(self).queued().skip(1) =~= old(self).queued().subrange(
                    1,
                    old(self).queued().len() as int,
                ));
                Some(t)
            },
            None => None,
        }
    }
}

#[verifier::reject_recursive_types(T)]
struct Shared<T> {
    inner: Mutex<Inner<T>>,
    available: Condvar,
}

/// `Mutex::lock`: waits for the mutex and returns its guard, also where a
/// thread that held the mutex has panicked. Nothing is claimed of the guard.
/// The call returns: no function of this module asks for the mutex while it
/// holds the guard.
#[verifier::external_body]
fn lock<'a, T>(mutex: &'a Mutex<Inner<T>>) -> (guard: MutexGuard<'a, Inner<T>>)
    opens_invariants none
    no_unwind
{
    match mutex.lock() {
        Ok(guard) => guard,
        Err(poisoned) => poisoned.into_inner(),
    }
}

/// `DerefMut::deref_mut` of a `MutexGuard`: the state that the guard
/// protects. Nothing is claimed of it: other handles may have changed it
/// since this one last saw it.
#[verifier::external_body]
fn held<'a, 'b, T>(guard: &'a mut MutexGuard<'b, Inner<T>>) -> (inner: &'a mut Inner<T>)
    opens_invariants none
    no_unwind
{
    &mut **guard
}

/// `Condvar::notify_one`: wakes one thread that waits on the condition
/// variable, if there is one. It returns nothing and does not panic; no more
/// is claimed of it.
#[verifier::external_body]
fn notify_one(available: &Condvar)
    opens_invariants none
    no_unwind
{
    available.notify_one();
}

/// `Condvar::wait_while`: gives the mutex up and sleeps for as long as
/// [`Inner::must_wait`] holds of the state, then returns the guard again, also
/// where a thread that held the mutex has panicked. Nothing is claimed of the
/// guard.
#[verifier::external_body]
fn wait_while_blocked<'a, T>(available: &Condvar, guard: MutexGuard<'a, Inner<T>>) -> (woken:
    MutexGuard<'a, Inner<T>>) {
    match available.wait_while(guard, |inner: &mut Inner<T>| inner.must_wait()) {
        Ok(guard) => guard,
        Err(poisoned) => poisoned.into_inner(),
    }
}

/// The sending half of a channel.
#[verifier::reject_recursive_types(T)]
pub struct Sender<T> {
    shared: Arc<Shared<T>>,
}

impl<T> Sender<T> {
    /// Queues `t` for the receiver, and wakes it if it waits.
    pub fn send(&mut self, t: T) {
        {
            let mut guard = lock(&self.shared.inner);
            let inner = held(&mut guard);
            inner.push(t);
        }
        notify_one(&self.shared.available);
    }
}

impl<T> Clone for Sender<T> {
    /// One more sender on the same channel.
    fn clone(&self) -> Self {
        {
            let mut guard = lock(&self.shared.inner);
            let inner = held(&mut guard);
            inner.add_sender();
        }
        Sender { shared: Arc::clone(&self.shared) }
    }
}

impl<T> Drop for Sender<T> {
    /// Counts this sender out, and wakes the receiver if it was the last.
    fn drop(&mut self)
        opens_invariants none
        no_unwind
    {
        let was_last;
        {
            let mut guard = lock(&self.shared.inner);
            let inner = held(&mut guard);
            was_last = inner.remove_sender();
        }
        if was_last {
            notify_one(&self.shared.available);
        }
    }
}

/// The receiving half of a channel.
#[verifier::reject_recursive_types(T)]
pub struct Receiver<T> {
    shared: Arc<Shared<T>>,
    buffer: VecDeque<T>,
}

impl<T> Receiver<T> {
    /// The items that this receiver has taken from the queue and not yet
    /// handed out, oldest first.
    pub closed spec fn buffered(&self) -> Seq<T> {
        self.buffer@
    }

    /// The oldest item that was sent and not yet received; `None` once nothing
    /// is left and no sender is alive. Waits while nothing is left and a
    /// sender is alive.
    pub fn recv(&mut self) -> (item: Option<T>)
        ensures
            old(self).buffered().len() > 0 ==> {
                &&& item == Some(old(self).buffered()[0])
                &&& final(self).buffered() == old(self).buffered().skip(1)
            },
            old(self).buffered().len() == 0 && item is None ==> final(self).buffered().len() == 0,
    {
        if self.buffer.len() > 0 {
            let item = self.buffer.pop_front();
            assert(old(self).buffered().skip(1) =~= old(self).buffered().subrange(
                1,
                old(self).buffered().len() as int,
            ));
            return item;
        }
        let mut guard = wait_while_blocked(&self.shared.available, lock(&self.shared.inner));
        let inner = held(&mut guard);
        inner.take(&mut self.buffer)
    }
}

/// A new channel: its one sender and its receiver, which has nothing
/// buffered.
pub fn channel<T>() -> (ends: (Sender<T>, Receiver<T>))
    ensures
        ends.1.buffered() == Seq::<T>::empty(),
{
    let shared = Arc::new(Shared { inner: Mutex::new(Inner::new()), available: Condvar::new() });
    let tx = Sender { shared: Arc::clone(&shared) };
    let rx = Receiver { shared, buffer: VecDeque::new() };
    (tx, rx)
}

} // verus!
