//! The crossbeam channels the library hands tasks and results through.
//!
//! A channel is shared between threads: what a receive gives back, and whether
//! a send still finds a receiver, depends on what the other threads did. The
//! items below state only what holds whatever the other threads do: each handle
//! keeps, as a ghost log, the messages the channel accepted from it or gave to it.
use vstd::prelude::*;

verus! {

/// `crossbeam_channel::Sender`, carried through as an opaque value.
#[verifier::external_type_specification]
#[verifier::external_body]
#[verifier::reject_recursive_types(T)]
pub struct ExSender<T>(crossbeam_channel::Sender<T>);

/// `crossbeam_channel::Receiver`, carried through as an opaque value.
#[verifier::external_type_specification]
#[verifier::external_body]
#[verifier::reject_recursive_types(T)]
pub struct ExReceiver<T>(crossbeam_channel::Receiver<T>);

/// What a non-blocking receive found.
pub enum Received<T> {
    /// A message was taken from the channel.
    Message(T),
    /// The channel held no message, and a sender is still alive.
    Empty,
    /// The channel held no message, and every sender is gone.
    Disconnected,
}

/// The sending end of a channel, with the messages that the channel accepted
/// through this handle, in order, and every send made through it with whether the
/// channel accepted the message.
#[verifier::reject_recursive_types(T)]
pub struct Outbox<T> {
    sender: crossbeam_channel::Sender<T>,
    accepted: Ghost<Seq<T>>,
    attempts: Ghost<Seq<(T, bool)>>,
}

/// The receiving end of a channel, with the messages taken from the channel
/// through this handle, in order, and what every look into the channel through it
/// found.
#[verifier::reject_recursive_types(T)]
pub struct Inbox<T> {
    receiver: crossbeam_channel::Receiver<T>,
    received: Ghost<Seq<T>>,
    looks: Ghost<Seq<Received<T>>>,
}

/// `crossbeam_channel::Sender::send` on the handle's sender. Whether the message is
/// accepted depends on whether a receiver is still alive, which this contract does
/// not know. When crossbeam accepts it (`Ok`), the message is in the channel: it is
/// the next one this handle has had accepted. When the send is refused, crossbeam
/// hands back the very message that was given (`SendError(msg)`), and so does this
/// function. Either way the send is the next one made through this handle, and
/// `Err` comes only from crossbeam's refusal. On a full bounded channel the call
/// waits until another thread receives or the channel is disconnected.
#[verifier::external_body]
fn send_logged<T>(outbox: &mut Outbox<T>, msg: T) -> (r: Result<(), T>)
    ensures
        r is Ok ==> final(outbox).accepted() == old(outbox).accepted().push(msg),
        r matches Err(m) ==> m == msg && final(outbox).accepted() == old(outbox).accepted(),
        final(outbox).attempts() == old(outbox).attempts().push((msg, r is Ok)),
{
    match outbox.sender.send(msg) {
        Ok(()) => Ok(()),
        Err(e) => Err(e.0),
    }
}

/// `crossbeam_channel::Receiver::try_recv` on the handle's receiver, with
/// crossbeam's `TryRecvError` variants told apart. Which of them comes depends on
/// the other threads; a message that comes was taken from the channel, and is the
/// next one this handle has taken. Whatever comes is what this look, the next one
/// made through this handle, found.
#[verifier::external_body]
fn try_recv_logged<T>(inbox: &mut Inbox<T>) -> (r: Received<T>)
    ensures
        r matches Received::Message(m) ==> final(inbox).received() == old(inbox).received().push(m),
        !(r is Message) ==> final(inbox).received() == old(inbox).received(),
        final(inbox).looks() == old(inbox).looks().push(r),
{
    match inbox.receiver.try_recv() {
        Ok(m) => Received::Message(m),
        Err(crossbeam_channel::TryRecvError::Empty) => Received::Empty,
        Err(crossbeam_channel::TryRecvError::Disconnected) => Received::Disconnected,
    }
}

impl<T> Outbox<T> {
    /// The messages the channel accepted through this handle, in order.
    pub closed spec fn accepted(&self) -> Seq<T> {
        self.accepted@
    }

    /// Every send made through this handle, in order, with whether the channel
    /// accepted the message.
    pub closed spec fn attempts(&self) -> Seq<(T, bool)> {
        self.attempts@
    }

    /// A handle on `sender` that has not sent yet.
    pub fn from_sender(sender: crossbeam_channel::Sender<T>) -> (o: Self)
        ensures
            o.accepted() == Seq::<T>::empty(),
            o.attempts() == Seq::<(T, bool)>::empty(),
    {
        Outbox { sender, accepted: Ghost(Seq::empty()), attempts: Ghost(Seq::empty()) }
    }

    /// Sends `msg`. On `Ok` the channel accepted it; `Err` comes only when the
    /// channel refused it (no receiver is left), with the message back.
    pub fn send(&mut self, msg: T) -> (r: Result<(), T>)
        ensures
            r is Ok ==> final(self).accepted() == old(self).accepted().push(msg),
            r matches Err(m) ==> m == msg && final(self).accepted() == old(self).accepted(),
            final(self).attempts() == old(self).attempts().push((msg, r is Ok)),
    {
        send_logged(self, msg)
    }

    /// Another handle on the same channel, that has not sent yet.
    pub fn clone_handle(&self) -> (o: Self)
        ensures
            o.accepted() == Seq::<T>::empty(),
            o.attempts() == Seq::<(T, bool)>::empty(),
    {
        Outbox::from_sender(clone_sender(&self.sender))
    }
}

impl<T> Inbox<T> {
    /// The messages taken from the channel through this handle, in order.
    pub closed spec fn received(&self) -> Seq<T> {
        self.received@
    }

    /// What every look into the channel through this handle found, in order.
    pub closed spec fn looks(&self) -> Seq<Received<T>> {
        self.looks@
    }

    /// A handle on `receiver` that has not received yet.
    pub fn from_receiver(receiver: crossbeam_channel::Receiver<T>) -> (i: Self)
        ensures
            i.received() == Seq::<T>::empty(),
            i.looks() == Seq::<Received<T>>::empty(),
    {
        Inbox { receiver, received: Ghost(Seq::empty()), looks: Ghost(Seq::empty()) }
    }

    /// Takes the next message if there is one, without waiting.
    pub fn try_receive(&mut self) -> (r: Received<T>)
        ensures
            r matches Received::Message(m) ==> final(self).received() == old(self).received().push(m),
            !(r is Message) ==> final(self).received() == old(self).received(),
            final(self).looks() == old(self).looks().push(r),
    {
        try_recv_logged(self)
    }
}

/// `crossbeam_channel::bounded`: a new channel holding at most `cap` messages.
/// Only capacities of at most one are admitted here: larger ones allocate a buffer
/// of that many slots, and a capacity too large for crossbeam's index arithmetic
/// panics.
#[verifier::external_body]
pub(crate) fn bounded<T>(cap: usize) -> (r: (crossbeam_channel::Sender<T>, crossbeam_channel::Receiver<T>))
    requires
        cap <= 1,
{
    crossbeam_channel::bounded(cap)
}

/// `Clone::clone` of `crossbeam_channel::Sender`: another sender into the same
/// channel. Channel identity is not modelled, so nothing is stated of it.
#[verifier::external_body]
fn clone_sender<T>(sender: &crossbeam_channel::Sender<T>) -> (r: crossbeam_channel::Sender<T>) {
    sender.clone()
}

} // verus!
