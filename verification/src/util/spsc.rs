//! A channel from one sender to one receiver that holds at most one item: the state
//! both ends share, and what each poll of either end does to it.
use vstd::prelude::*;

use crate::common::waker::{set_waker, slot_wakers, wake_slot};

verus! {

/// What a poll gives: ready, with a value, or not yet.
#[derive(Debug)]
pub enum ChannelPoll<T> {
    Ready(T),
    Pending,
}

/// The part of the shared state the ends' behaviour depends on: the item waiting, and
/// whether either end has gone.
pub struct SharedView<T> {
    pub slot: Option<T>,
    pub closed: bool,
}

/// A poll of the receiver: the waiting item, which leaves the slot; else the end
/// (`None`) once the channel is closed; else nothing yet.
pub open spec fn recv_step<T>(v: SharedView<T>) -> (SharedView<T>, ChannelPoll<Option<T>>) {
    match v.slot {
        Some(item) => (SharedView { slot: None, closed: v.closed }, ChannelPoll::Ready(Some(item))),
        None => if v.closed {
            (v, ChannelPoll::Ready(None))
        } else {
            (v, ChannelPoll::Pending)
        },
    }
}

/// A poll of the sender for room: `None` once closed; room where the slot is empty;
/// else nothing yet.
pub open spec fn ready_step<T>(v: SharedView<T>) -> ChannelPoll<Option<()>> {
    if v.closed {
        ChannelPoll::Ready(None)
    } else if v.slot is Some {
        ChannelPoll::Pending
    } else {
        ChannelPoll::Ready(Some(()))
    }
}

/// A poll of a send of `item`: refused with the item back once closed; the item put in
/// an empty slot; else nothing yet.
pub open spec fn send_step<T>(v: SharedView<T>, item: T) -> (SharedView<T>, ChannelPoll<Result<(), T>>) {
    if v.closed {
        (v, ChannelPoll::Ready(Err(item)))
    } else if v.slot is Some {
        (v, ChannelPoll::Pending)
    } else {
        (SharedView { slot: Some(item), closed: false }, ChannelPoll::Ready(Ok(())))
    }
}

/// The state both ends of the channel share: the item waiting, whether an end has gone,
/// the tasks waiting on the receiver, on room for the sender, and on the close, and (as
/// a record for proofs) the wakers woken so far.
pub struct Shared<T> {
    slot: Option<T>,
    closed: bool,
    receiver_waker: Option<std::task::Waker>,
    sender_waker: Option<std::task::Waker>,
    close_waker: Option<std::task::Waker>,
    woken: Ghost<Seq<std::task::Waker>>,
}

impl<T> View for Shared<T> {
    type V = SharedView<T>;

    closed spec fn view(&self) -> SharedView<T> {
        SharedView { slot: self.slot, closed: self.closed }
    }
}

impl<T> Shared<T> {
    /// The waker of the receiver waiting for an item, if any.
    pub closed spec fn receiver_waker(self) -> Option<std::task::Waker> {
        self.receiver_waker
    }

    /// The waker of the sender waiting for room, if any.
    pub closed spec fn sender_waker(self) -> Option<std::task::Waker> {
        self.sender_waker
    }

    /// The waker of the task waiting for the close, if any.
    pub closed spec fn close_waker(self) -> Option<std::task::Waker> {
        self.close_waker
    }

    /// The wakers woken so far, in order.
    pub closed spec fn woken(self) -> Seq<std::task::Waker> {
        self.woken@
    }

    /// No waker changed and none woken between `self` and `other`.
    pub open spec fn same_wakers(self, other: Self) -> bool {
        &&& other.receiver_waker() == self.receiver_waker()
        &&& other.sender_waker() == self.sender_waker()
        &&& other.close_waker() == self.close_waker()
        &&& other.woken() == self.woken()
    }

    /// An open channel with nothing in it and no task waiting.
    pub fn new() -> (r: Self)
        ensures
            r@ == (SharedView::<T> { slot: None, closed: false }),
            r.receiver_waker().is_none(),
            r.sender_waker().is_none(),
            r.close_waker().is_none(),
            r.woken() == Seq::<std::task::Waker>::empty(),
    {
        Shared {
            slot: None,
            closed: false,
            receiver_waker: None,
            sender_waker: None,
            close_waker: None,
            woken: Ghost(Seq::empty()),
        }
    }

    /// The receiver's poll, as `recv_step` says. Taking the item wakes the sender;
    /// waiting keeps the receiver's `waker`.
    pub fn poll_recv(&mut self, waker: &std::task::Waker) -> (r: ChannelPoll<Option<T>>)
        ensures
            (final(self)@, r) == recv_step(old(self)@),
            old(self)@.slot is Some ==> {
                &&& final(self).receiver_waker().is_none()
                &&& final(self).sender_waker().is_none()
                &&& final(self).close_waker() == old(self).close_waker()
                &&& final(self).woken() == old(self).woken() + slot_wakers(old(self).sender_waker())
            },
            old(self)@.slot is None && old(self)@.closed ==> old(self).same_wakers(*final(self)),
            old(self)@.slot is None && !old(self)@.closed ==> {
                &&& final(self).receiver_waker().is_some()
                &&& final(self).sender_waker() == old(self).sender_waker()
                &&& final(self).close_waker() == old(self).close_waker()
                &&& final(self).woken() == old(self).woken()
            },
    {
        let mut taken: Option<T> = None;
        std::mem::swap(&mut taken, &mut self.slot);
        if let Some(item) = taken {
            self.receiver_waker = None;
            let woke = wake_slot(&mut self.sender_waker);
            proof {
                self.woken@ = self.woken@ + woke@;
            }
            return ChannelPoll::Ready(Some(item));
        }
        if self.closed {
            return ChannelPoll::Ready(None);
        }
        set_waker(&mut self.receiver_waker, waker);
        ChannelPoll::Pending
    }

    /// The sender's poll for room, as `ready_step` says; waiting keeps the sender's
    /// `waker`.
    pub fn poll_ready(&mut self, waker: &std::task::Waker) -> (r: ChannelPoll<Option<()>>)
        ensures
            final(self)@ == old(self)@,
            r == ready_step(old(self)@),
            r is Pending ==> {
                &&& final(self).sender_waker().is_some()
                &&& final(self).receiver_waker() == old(self).receiver_waker()
                &&& final(self).close_waker() == old(self).close_waker()
                &&& final(self).woken() == old(self).woken()
            },
            r is Ready ==> old(self).same_wakers(*final(self)),
    {
        if self.closed {
            return ChannelPoll::Ready(None);
        }
        if self.slot.is_some() {
            set_waker(&mut self.sender_waker, waker);
            return ChannelPoll::Pending;
        }
        ChannelPoll::Ready(Some(()))
    }

    /// The sender's poll for the close: ready once closed; waiting keeps its `waker`.
    pub fn poll_closed(&mut self, waker: &std::task::Waker) -> (r: ChannelPoll<()>)
        ensures
            final(self)@ == old(self)@,
            r is Ready <==> old(self)@.closed,
            r is Pending ==> {
                &&& final(self).close_waker().is_some()
                &&& final(self).receiver_waker() == old(self).receiver_waker()
                &&& final(self).sender_waker() == old(self).sender_waker()
                &&& final(self).woken() == old(self).woken()
            },
            r is Ready ==> old(self).same_wakers(*final(self)),
    {
        if self.closed {
            return ChannelPoll::Ready(());
        }
        set_waker(&mut self.close_waker, waker);
        ChannelPoll::Pending
    }

    /// Puts `item` in the slot and wakes the receiver; meant for after `poll_ready`
    /// gave room.
    pub fn do_send(&mut self, item: T)
        ensures
            final(self)@ == (SharedView { slot: Some(item), closed: old(self)@.closed }),
            final(self).receiver_waker().is_none(),
            final(self).sender_waker() == old(self).sender_waker(),
            final(self).close_waker() == old(self).close_waker(),
            final(self).woken() == old(self).woken() + slot_wakers(old(self).receiver_waker()),
    {
        self.slot = Some(item);
        let woke = wake_slot(&mut self.receiver_waker);
        proof {
            self.woken@ = self.woken@ + woke@;
        }
    }

    /// A poll of a send of the item in `item`, as `send_step` says: the item leaves
    /// `item` once the poll is ready, and stays there while it is not.
    pub fn poll_send(&mut self, item: &mut Option<T>, waker: &std::task::Waker) -> (r: ChannelPoll<Result<(), T>>)
        requires
            old(item).is_some(),
        ensures
            (final(self)@, r) == send_step(old(self)@, old(item).unwrap()),
            r is Ready ==> final(item).is_none(),
            r is Pending ==> *final(item) == *old(item),
            r matches ChannelPoll::Ready(Ok(())) ==> {
                &&& final(self).receiver_waker().is_none()
                &&& final(self).sender_waker() == old(self).sender_waker()
                &&& final(self).close_waker() == old(self).close_waker()
                &&& final(self).woken() == old(self).woken() + slot_wakers(old(self).receiver_waker())
            },
            r matches ChannelPoll::Ready(Err(_)) ==> old(self).same_wakers(*final(self)),
            r is Pending ==> {
                &&& final(self).sender_waker().is_some()
                &&& final(self).receiver_waker() == old(self).receiver_waker()
                &&& final(self).close_waker() == old(self).close_waker()
                &&& final(self).woken() == old(self).woken()
            },
    {
        match self.poll_ready(waker) {
            ChannelPoll::Pending => ChannelPoll::Pending,
            ChannelPoll::Ready(None) => {
                let mut taken: Option<T> = None;
                std::mem::swap(&mut taken, item);
                match taken {
                    Some(it) => ChannelPoll::Ready(Err(it)),
                    None => vstd::pervasive::unreached(),
                }
            },
            ChannelPoll::Ready(Some(_)) => {
                let mut taken: Option<T> = None;
                std::mem::swap(&mut taken, item);
                match taken {
                    Some(it) => {
                        self.do_send(it);
                        ChannelPoll::Ready(Ok(()))
                    },
                    None => vstd::pervasive::unreached(),
                }
            },
        }
    }

    /// The receiver has gone: the channel is closed, and the sender and whoever waits
    /// on the close are woken. An item still in the slot stays there.
    pub fn close_receiver(&mut self)
        ensures
            final(self)@ == (SharedView { slot: old(self)@.slot, closed: true }),
            final(self).receiver_waker().is_none(),
            final(self).sender_waker().is_none(),
            final(self).close_waker().is_none(),
            final(self).woken() == old(self).woken() + slot_wakers(old(self).sender_waker()) + slot_wakers(
                old(self).close_waker(),
            ),
    {
        self.closed = true;
        self.receiver_waker = None;
        let w1 = wake_slot(&mut self.sender_waker);
        let w2 = wake_slot(&mut self.close_waker);
        proof {
            self.woken@ = self.woken@ + w1@ + w2@;
        }
    }

    /// The sender has gone: the channel is closed, and the receiver and whoever waits
    /// on the close are woken. An item still in the slot can still be received.
    pub fn close_sender(&mut self)
        ensures
            final(self)@ == (SharedView { slot: old(self)@.slot, closed: true }),
            final(self).receiver_waker().is_none(),
            final(self).sender_waker().is_none(),
            final(self).close_waker().is_none(),
            final(self).woken() == old(self).woken() + slot_wakers(old(self).receiver_waker()) + slot_wakers(
                old(self).close_waker(),
            ),
    {
        self.closed = true;
        self.sender_waker = None;
        let w1 = wake_slot(&mut self.receiver_waker);
        let w2 = wake_slot(&mut self.close_waker);
        proof {
            self.woken@ = self.woken@ + w1@ + w2@;
        }
    }
}

impl<T> Default for Shared<T> {
    fn default() -> (r: Self)
        ensures
            r@ == (SharedView::<T> { slot: None, closed: false }),
    {
        Shared::new()
    }
}

/// What is sent on an open channel with room is what the next receive gives, and the
/// channel is empty again after it.
pub proof fn lemma_send_then_recv<T>(v: SharedView<T>, item: T)
    requires
        !v.closed,
        v.slot is None,
    ensures
        send_step(v, item).1 == ChannelPoll::<Result<(), T>>::Ready(Ok(())),
        recv_step(send_step(v, item).0) == (v, ChannelPoll::Ready(Some(item))),
{
}

/// The slot holds one item: after a send, there is no room for another until it is
/// received.
pub proof fn lemma_one_item_at_a_time<T>(v: SharedView<T>, item: T, next: T)
    requires
        !v.closed,
        v.slot is None,
    ensures
        ready_step(send_step(v, item).0) is Pending,
        send_step(send_step(v, item).0, next) == (send_step(v, item).0, ChannelPoll::<Result<(), T>>::Pending),
{
}

/// Once closed, a channel stays closed: sends are refused with their item, and the
/// receiver gets what is left in the slot, then the end.
pub proof fn lemma_closed_channel<T>(v: SharedView<T>, item: T)
    requires
        v.closed,
    ensures
        send_step(v, item) == (v, ChannelPoll::<Result<(), T>>::Ready(Err(item))),
        ready_step(v) == ChannelPoll::<Option<()>>::Ready(None),
        recv_step(v).0.closed,
        recv_step(recv_step(v).0).1 == ChannelPoll::<Option<T>>::Ready(None),
{
}


/// One operation on a channel: a send of an item, or a receive.
pub enum ChannelOp<T> {
    Send(T),
    Recv,
}

/// The channel after `ops`, polled in turn from `v`, each send or receive as its step
/// says: the state left, the items sends put in, and the items receives took out.
pub open spec fn run_channel<T>(v: SharedView<T>, ops: Seq<ChannelOp<T>>) -> (SharedView<T>, Seq<T>, Seq<T>)
    decreases ops.len(),
{
    if ops.len() == 0 {
        (v, Seq::empty(), Seq::empty())
    } else {
        let (v0, sent, got) = run_channel(v, ops.drop_last());
        match ops.last() {
            ChannelOp::Send(x) => {
                let (v1, p) = send_step(v0, x);
                (v1, if p matches ChannelPoll::Ready(Ok(_)) { sent.push(x) } else { sent }, got)
            },
            ChannelOp::Recv => {
                let (v1, p) = recv_step(v0);
                (v1, sent, if let ChannelPoll::Ready(Some(x)) = p { got.push(x) } else { got })
            },
        }
    }
}

/// The law of the channel over any polls of its two ends: from an open, empty channel,
/// the items received are the items sent, in the order sent, each once; at most one
/// item waits between them, and it is the last one sent.
pub proof fn lemma_channel_in_order<T>(ops: Seq<ChannelOp<T>>)
    ensures
        ({
            let (v, sent, got) = run_channel(SharedView { slot: None, closed: false }, ops);
            &&& !v.closed
            &&& got.len() <= sent.len() <= got.len() + 1
            &&& got == sent.take(got.len() as int)
            &&& v.slot == if sent.len() == got.len() {
                None
            } else {
                Some(sent.last())
            }
        }),
    decreases ops.len(),
{
    if ops.len() > 0 {
        lemma_channel_in_order(ops.drop_last());
        let (v0, sent, got) = run_channel(SharedView { slot: None, closed: false }, ops.drop_last());
        match ops.last() {
            ChannelOp::Send(x) => {
                if v0.slot is None {
                    assert(sent.push(x).take(got.len() as int) =~= sent.take(got.len() as int));
                }
            },
            ChannelOp::Recv => {
                if v0.slot is Some {
                    assert(got.push(sent.last()) =~= sent.take(got.len() + 1int));
                }
            },
        }
    }
}

} // verus!
