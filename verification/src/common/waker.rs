//! Task wakers, and a slot that holds the waker of the one task waiting on something.
use vstd::prelude::*;

verus! {

#[verifier::external_type_specification]
#[verifier::external_body]
pub struct ExWaker(std::task::Waker);

/// `Waker::will_wake`: whether waking `a` would wake the task that `b` wakes. The
/// answer rests on the wakers' addresses, so nothing is stated of it.
#[verifier::external_body]
pub(crate) fn waker_will_wake(a: &std::task::Waker, b: &std::task::Waker) -> (r: bool) {
    a.will_wake(b)
}

/// `Waker::clone`: another handle on the same task.
#[verifier::external_body]
pub(crate) fn waker_clone(w: &std::task::Waker) -> (r: std::task::Waker) {
    w.clone()
}

/// `Waker::wake`: schedules the task; the waker is used up.
#[verifier::external_body]
pub(crate) fn waker_wake(w: std::task::Waker) {
    w.wake()
}

/// The wakers that waking `slot` wakes: the one it holds, if any.
pub open spec fn slot_wakers(slot: Option<std::task::Waker>) -> Seq<std::task::Waker> {
    match slot {
        Some(w) => seq![w],
        None => Seq::empty(),
    }
}

/// Keeps `slot` holding a waker for the task of `waker`: one already there that wakes
/// the same task stays, anything else is replaced by a clone of `waker`. (Which task a
/// waker wakes rests on addresses, so it is not stated.)
pub fn set_waker(slot: &mut Option<std::task::Waker>, waker: &std::task::Waker)
    ensures
        final(slot).is_some(),
{
    let keep = match slot {
        Some(existing) => waker_will_wake(existing, waker),
        None => false,
    };
    if !keep {
        *slot = Some(waker_clone(waker));
    }
}

/// Wakes the waker held in `slot`, if there is one, and leaves the slot empty; the
/// result lists the wakers woken (the one the slot held, if any).
pub fn wake_slot(slot: &mut Option<std::task::Waker>) -> (woken: Ghost<Seq<std::task::Waker>>)
    ensures
        final(slot).is_none(),
        woken@ == slot_wakers(*old(slot)),
{
    let mut taken: Option<std::task::Waker> = None;
    std::mem::swap(&mut taken, slot);
    let ghost woken = slot_wakers(taken);
    if let Some(w) = taken {
        waker_wake(w);
    }
    Ghost(woken)
}

/// The waker of the one task waiting on something, if one is registered, and (as a
/// record for proofs) the wakers woken so far.
pub struct LocalWaker {
    waker: Option<std::task::Waker>,
    woken: Ghost<Seq<std::task::Waker>>,
}

impl LocalWaker {
    /// The registered waker, if any.
    pub closed spec fn registered(self) -> Option<std::task::Waker> {
        self.waker
    }

    /// The wakers woken so far, in order.
    pub closed spec fn woken(self) -> Seq<std::task::Waker> {
        self.woken@
    }

    /// Whether a task is registered.
    pub open spec fn is_registered(self) -> bool {
        self.registered().is_some()
    }

    /// No task registered, none woken.
    pub fn new() -> (r: Self)
        ensures
            r.registered().is_none(),
            r.woken() == Seq::<std::task::Waker>::empty(),
    {
        LocalWaker { waker: None, woken: Ghost(Seq::empty()) }
    }

    /// Registers the task of `waker`, in place of any other; wakes nothing.
    pub fn register(&mut self, waker: &std::task::Waker)
        ensures
            final(self).registered().is_some(),
            final(self).woken() == old(self).woken(),
    {
        set_waker(&mut self.waker, waker);
    }

    /// Wakes the registered waker, if any, once; none is registered afterwards.
    pub fn wake(&mut self)
        ensures
            final(self).registered().is_none(),
            final(self).woken() == old(self).woken() + slot_wakers(old(self).registered()),
    {
        let woke = wake_slot(&mut self.waker);
        proof {
            self.woken@ = self.woken@ + woke@;
        }
    }
}

impl Default for LocalWaker {
    fn default() -> (r: Self)
        ensures
            r.registered().is_none(),
            r.woken() == Seq::<std::task::Waker>::empty(),
    {
        LocalWaker::new()
    }
}

} // verus!
