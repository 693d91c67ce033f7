//! Used for decoupling memory allocation and deallocation from realtime thread.
//! Sender is non-real-time, receiver is real-time.

use atomicbox::AtomicOptionBox;
use std::sync::atomic::Ordering;
use std::sync::Arc;
use vstd::prelude::*;

verus! {

#[verifier::external_type_specification]
#[verifier::external_body]
#[verifier::reject_recursive_types(T)]
pub struct ExAtomicOptionBox<T>(AtomicOptionBox<T>);

/// `AtomicOptionBox::new(None)`: an empty place for a box. What a place holds can be changed by
/// the other thread at any time, so nothing is said of it.
#[verifier::external_body]
fn empty_place<T>() -> (place: AtomicOptionBox<T>) {
    AtomicOptionBox::new(None)
}

/// `AtomicOptionBox::take`: empties the place and returns what it held, which is whatever the two
/// threads have left there.
#[verifier::external_body]
fn take_box<T>(place: &AtomicOptionBox<T>) -> (taken: Option<Box<T>>) {
    place.take(Ordering::AcqRel)
}

/// `AtomicOptionBox::swap`: puts the box into the place and returns what it held, which is
/// whatever the two threads have left there.
#[verifier::external_body]
fn put_box<T>(place: &AtomicOptionBox<T>, value: Box<T>) -> (replaced: Option<Box<T>>) {
    place.swap(Some(value), Ordering::AcqRel)
}

#[verifier::reject_recursive_types(T)]
pub struct Shared<T> {
    next: AtomicOptionBox<T>,
    prev: AtomicOptionBox<T>,
}

#[verifier::reject_recursive_types(T)]
pub struct RealTimeBoxSender<T>(Arc<Shared<T>>);

#[verifier::reject_recursive_types(T)]
pub struct RealTimeBoxReceiver<T> {
    shared: Arc<Shared<T>>,
    curr: Box<T>,
}

pub fn channel<T>(initial: Box<T>) -> (r: (RealTimeBoxSender<T>, RealTimeBoxReceiver<T>))
    ensures
        r.1.current() == *initial,
        r.1.places() == r.0.places(),
{
    let shared = Arc::new(Shared { next: empty_place(), prev: empty_place() });
    let sender = RealTimeBoxSender(shared.clone());
    let receiver = RealTimeBoxReceiver { shared, curr: initial };
    (sender, receiver)
}

impl<T> RealTimeBoxSender<T> {
    /// The places which values are put into for the receiver, and where it leaves them behind.
    pub closed spec fn places(&self) -> Arc<Shared<T>> {
        self.0
    }

    /// Offers a value to the receiver, in place of one which it has not taken yet. What the
    /// receiver left behind is freed here.
    pub fn send(&self, value: Box<T>) {
        self.collect_garbage();
        let _unused_next = put_box(&self.0.next, value);
    }

    /// Frees what the receiver left behind.
    pub fn collect_garbage(&self) {
        let _prev = take_box(&self.0.prev);
    }
}

/// The value in a box, if there is one.
pub open spec fn unboxed<T>(value: Option<Box<T>>) -> Option<T> {
    match value {
        Some(value) => Some(*value),
        None => None,
    }
}

/// What is to be left behind for the sender, and whether there is a new value.
pub struct Accepted<T> {
    pub left_behind: Option<Box<T>>,
    pub updated: bool,
}

impl<T> RealTimeBoxReceiver<T> {
    /// The value in use.
    pub closed spec fn current(&self) -> T {
        *self.curr
    }

    /// The places which values are taken from, and where they are left behind for the sender.
    pub closed spec fn places(&self) -> Arc<Shared<T>> {
        self.shared
    }

    /// Goes over to a new value unless the previous one has not been freed yet; for any contents
    /// of the two places which were found.
    pub fn accept(&mut self, prev: Option<Box<T>>, next: Option<Box<T>>) -> (accepted: Accepted<T>)
        requires
            prev is Some ==> next is None,
        ensures
            final(self).places() == old(self).places(),
            accepted.updated == (prev is None && next is Some),
            ({
                let found = ChannelState { next: unboxed(next), prev: unboxed(prev), curr: old(self).current() };
                &&& final(self).current() == found.updated().curr
                &&& unboxed(accepted.left_behind) == found.updated().prev
            }),
    {
        match prev {
            // prev hasn't been received by non-real-time thread yet, so we can't proceed
            Some(prev) => Accepted { left_behind: Some(prev), updated: false },
            None => match next {
                Some(next) => {
                    let mut prev = next;
                    std::mem::swap(&mut self.curr, &mut prev);
                    Accepted { left_behind: Some(prev), updated: true }
                },
                None => Accepted { left_behind: None, updated: false },
            },
        }
    }

    /// Takes the latest value which was sent, if any; returns whether the value in use was replaced.
    /// The receiver stays with its sender. Whether there is a value, and which one, is up to the
    /// sender's thread; `accept` says what becomes of each.
    pub fn update(&mut self) -> (updated: bool)
        ensures
            final(self).places() == old(self).places(),
            !updated ==> final(self).current() == old(self).current(),
    {
        let prev = take_box(&self.shared.prev);
        let next = if prev.is_some() {
            None
        } else {
            take_box(&self.shared.next)
        };
        let accepted = self.accept(prev, next);
        if let Some(left_behind) = accepted.left_behind {
            // only this thread is allowed to put anything there, so nothing is replaced
            let _replaced = put_box(&self.shared.prev, left_behind);
        }
        accepted.updated
    }

    pub fn get(&self) -> (value: &T)
        ensures
            *value == self.current(),
    {
        &*self.curr
    }

    pub fn get_mut(&mut self) -> (value: &mut T)
        ensures
            *value == old(self).current(),
            final(self).current() == *final(value),
            final(self).places() == old(self).places(),
    {
        &mut *self.curr
    }
}

// ---------------------------------------------------------------------------------------------
// Both sides, one operation after another
// ---------------------------------------------------------------------------------------------

/// What the sender, the receiver and the places between them hold.
pub struct ChannelState<T> {
    pub next: Option<T>,
    pub prev: Option<T>,
    pub curr: T,
}

impl<T> ChannelState<T> {
    pub open spec fn garbage_collected(self) -> Self {
        ChannelState { prev: None, ..self }
    }

    pub open spec fn sent(self, value: T) -> Self {
        ChannelState { next: Some(value), ..self.garbage_collected() }
    }

    pub open spec fn updated(self) -> Self {
        match self.next {
            Some(next) => if self.prev is None {
                ChannelState { next: None, prev: Some(self.curr), curr: next }
            } else {
                self
            },
            None => self,
        }
    }
}

/// The value sent last is the one which is received, however many were sent before it.
pub proof fn last_value_is_received<T>(state: ChannelState<T>, value: T)
    ensures
        state.sent(value).updated().curr == value,
        state.sent(value).updated().prev == Some(state.curr),
        state.sent(value).updated().next is None,
{
}

/// The receiver frees nothing: whatever it had is still there, in use or left behind.
pub proof fn receiver_frees_nothing<T>(state: ChannelState<T>)
    ensures
        state.updated() == state || state.updated().prev == Some(state.curr) && Some(state.updated().curr)
            == state.next && state.prev is None,
{
}

/// Without anything new, the value in use stays.
pub proof fn update_without_news_changes_nothing<T>(state: ChannelState<T>)
    ensures
        state.updated().updated() == state.updated(),
        state.updated().garbage_collected().updated().curr == if state.prev is Some && state.next is Some {
            state.next->0
        } else {
            state.updated().curr
        },
{
}

} // verus!
