//! Waker registration.
//!
//! The stack keeps one waker per thing that can be waited for, and wakes it
//! whenever something happens that may change what is waited for. A future built
//! on top can then poll, register, and go to sleep.

use core::task::Waker;

use vstd::prelude::*;

verus! {

/// `core::task::Waker`: a handle for waking up a task. Carried through unopened.
#[verifier::external_type_specification]
#[verifier::external_body]
pub struct ExWaker(Waker);

/// `core::task::Waker::will_wake`: whether two wakers are known to wake the same task.
/// What a task is stays outside, so nothing is claimed of the answer; contracts speak of
/// the answer that was given.
pub assume_specification[ Waker::will_wake ](a: &Waker, b: &Waker) -> bool;

/// `core::task::Waker::clone`: a waker for the same task. What a task is stays outside,
/// so nothing is claimed of the copy; contracts speak of the copy that was made.
pub assume_specification[ <Waker as Clone>::clone ](w: &Waker) -> Waker;

/// `core::task::Waker::wake`: wakes the task. Nothing the stack holds changes, so
/// nothing is claimed; contracts speak of the call having been made.
pub assume_specification[ Waker::wake ](w: Waker);

/// Whether `a` was found to wake the task that `b` wakes.
pub open spec fn found_same(a: Waker, b: Waker) -> bool {
    call_ensures(Waker::will_wake, (&a, &b), true)
}

/// Whether `b` is a copy that was made of `a`.
pub open spec fn copied(a: Waker, b: Waker) -> bool {
    call_ensures(<Waker as Clone>::clone, (&a,), b)
}

/// Whether the waker was used.
pub open spec fn woken(w: Waker) -> bool {
    call_ensures(Waker::wake, (w,), ())
}

/// Whether `kept` may stand for the waker `w` when `before` was registered so far: it is
/// a copy of it, or the one registered so far, which was found to wake the same task.
pub open spec fn stands_for(kept: Waker, w: Waker, before: Option<Waker>) -> bool {
    copied(w, kept) || (before == Some(kept) && found_same(kept, w))
}

/// Of two wakers registered one after the other, the one kept, and so the one that waking
/// uses up, is a copy of the second, or it is the copy of the first, found to wake the
/// task that the second wakes.
pub proof fn law_last_registered_is_kept(w1: Waker, w2: Waker, first: Waker, second: Waker)
    requires
        stands_for(first, w1, None),
        stands_for(second, w2, Some(first)),
    ensures
        copied(w1, first),
        copied(w2, second) || (second == first && found_same(second, w2)),
        !found_same(first, w2) ==> copied(w2, second),
{
}

/// Utility struct to register and wake a waker.
#[derive(Debug)]
pub struct WakerRegistration {
    waker: Option<Waker>,
}

impl View for WakerRegistration {
    type V = Option<Waker>;

    /// The waker registered, if any.
    closed spec fn view(&self) -> Option<Waker> {
        self.waker
    }
}

impl WakerRegistration {
    /// No waker registered.
    pub fn new() -> (r: Self)
        ensures
            r@ is None,
    {
        WakerRegistration { waker: None }
    }

    /// Register a waker. Overwrites the previous waker, if any.
    pub fn register(&mut self, w: &Waker)
        ensures
            final(self)@ matches Some(kept) && stands_for(kept, *w, old(self)@),
    {
        let keep = match &self.waker {
            // If both the old and new wakers wake the same task, keep the old one,
            // skipping the clone.
            Some(w2) => w2.will_wake(w),
            None => false,
        };
        if !keep {
            self.waker = Some(w.clone());
        }
    }

    /// Wake the registered waker, if any. It is no longer registered afterwards.
    pub fn wake(&mut self)
        ensures
            final(self)@ is None,
            old(self)@ matches Some(w) ==> woken(w),
    {
        if let Some(w) = self.waker.take() {
            w.wake();
        }
    }
}

} // verus!
