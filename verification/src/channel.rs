//! Send and receive handles over a bounded multi-producer, single-consumer
//! channel of `tokio`.

use vstd::prelude::*;

use tokio::sync::mpsc::{Receiver, Sender};

use crate::topic::owned;

verus! {

#[verifier::external_type_specification]
#[verifier::external_body]
#[verifier::reject_recursive_types(T)]
pub struct ExSender<T>(Sender<T>);

#[verifier::external_type_specification]
#[verifier::external_body]
#[verifier::reject_recursive_types(T)]
pub struct ExReceiver<T>(Receiver<T>);

/// A buffer size that `tokio::sync::mpsc::channel` accepts: positive, and no
/// more than its semaphore's largest number of permits.
pub open spec fn valid_buffer(buffer: usize) -> bool {
    0 < buffer && buffer <= (usize::MAX >> 3usize)
}

/// Calls `tokio::sync::mpsc::channel`, which panics on a buffer size of 0 or
/// above `usize::MAX >> 3`, and wraps its two ends. They are the two halves of
/// one channel, so both handles carry the same channel label; the channel is
/// a new one, so the label differs from that of `avoid`, a handle of a
/// channel that already exists.
#[verifier::external_body]
pub(crate) fn mpsc_channel<T: Clone + Send + Sync>(buffer: usize, avoid: Option<&SendHandle<T>>) -> (r: (
    SendHandle<T>,
    ReceiveHandle<T>,
))
    requires
        valid_buffer(buffer),
    ensures
        r.0.channel() == r.1.channel(),
        avoid matches Some(h) ==> r.0.channel() != h.channel(),
        r.0.checked() is None,
{
    let (sender, receiver) = tokio::sync::mpsc::channel(buffer);
    let label: Ghost<int> = Ghost(arbitrary());
    (SendHandle { sender, channel: label, checked: Ghost(None) }, ReceiveHandle { receiver, channel: label })
}

/// Calls `Sender::clone`, which gives another sender into the same channel:
/// the new handle carries the same channel label and the same recorded answer.
#[verifier::external_body]
fn clone_handle<T: Clone + Send + Sync>(handle: &SendHandle<T>) -> (r: SendHandle<T>)
    ensures
        r.channel() == handle.channel(),
        r.checked() == handle.checked(),
{
    SendHandle { sender: handle.sender.clone(), channel: handle.channel, checked: handle.checked }
}

/// Calls `Sender::is_closed`: whether the channel's receiver was dropped (or
/// closed). That depends on the receiver's holder, so nothing is stated of
/// the answer itself; the handle records it as the answer given for it.
#[verifier::external_body]
pub(crate) fn sender_is_closed<T: Clone + Send + Sync>(handle: &mut SendHandle<T>) -> (r: bool)
    ensures
        final(handle).checked() == Some(r),
        final(handle).channel() == old(handle).channel(),
        final(handle).inner() == old(handle).inner(),
{
    let r = handle.sender.is_closed();
    handle.checked = Ghost(Some(r));
    r
}

/// What can go wrong when a message is sent.
#[derive(Debug)]
pub enum SendError {
    SendError(String),
}

impl SendError {
    /// Renders the error as text.
    pub fn to_string(&self) -> (r: String)
        ensures
            r@ == match self {
                SendError::SendError(m) => "Failed to send message: "@ + m@,
            },
    {
        match self {
            SendError::SendError(m) => {
                let mut r = owned("Failed to send message: ");
                r.append(m.as_str());
                r
            },
        }
    }
}

/// The sending end of a channel, with a ghost label of its channel. The two
/// ends of one channel, and a sender and its clones, carry the same label;
/// channels that a contract says are different carry different labels. The
/// labels of other channels may coincide.
#[verifier::reject_recursive_types(T)]
pub struct SendHandle<T: Clone + Send + Sync> {
    sender: Sender<T>,
    channel: Ghost<int>,
    checked: Ghost<Option<bool>>,
}

/// The receiving end of a channel, with the ghost label of its channel (see
/// `SendHandle`).
#[verifier::reject_recursive_types(T)]
pub struct ReceiveHandle<T: Clone + Send + Sync> {
    receiver: Receiver<T>,
    channel: Ghost<int>,
}

impl<T: Clone + Send + Sync> SendHandle<T> {
    /// The sender inside.
    pub closed spec fn inner(self) -> Sender<T> {
        self.sender
    }

    /// The label of the channel it sends into.
    pub closed spec fn channel(self) -> int {
        self.channel@
    }

    /// What asking whether the channel's receiver is gone answered for this
    /// handle (or the one it was cloned from), if it was asked since the
    /// handle was made or its answer forgotten.
    pub closed spec fn checked(self) -> Option<bool> {
        self.checked@
    }

    /// The same handle with its recorded answer forgotten.
    pub(crate) fn forget_check(self) -> (r: Self)
        ensures
            r.channel() == self.channel(),
            r.inner() == self.inner(),
            r.checked() is None,
    {
        SendHandle { sender: self.sender, channel: self.channel, checked: Ghost(None) }
    }

    /// A handle around `sender`; its label is one of its own, related to no
    /// other handle's.
    pub fn new(sender: Sender<T>) -> (r: Self)
        ensures
            r.inner() == sender,
            r.checked() is None,
    {
        SendHandle { sender, channel: Ghost(arbitrary()), checked: Ghost(None) }
    }

    /// The sender inside.
    pub fn sender(&self) -> (r: &Sender<T>)
        ensures
            *r == self.inner(),
    {
        &self.sender
    }

    /// Another handle into the same channel.
    pub fn clone(&self) -> (r: Self)
        ensures
            r.channel() == self.channel(),
            r.checked() == self.checked(),
    {
        clone_handle(self)
    }
}

impl<T: Clone + Send + Sync> ReceiveHandle<T> {
    /// The receiver inside.
    pub closed spec fn inner(self) -> Receiver<T> {
        self.receiver
    }

    /// The label of the channel it receives from.
    pub closed spec fn channel(self) -> int {
        self.channel@
    }

    /// A handle around `receiver`; its label is one of its own, related to no
    /// other handle's.
    pub fn new(receiver: Receiver<T>) -> (r: Self)
        ensures
            r.inner() == receiver,
    {
        ReceiveHandle { receiver, channel: Ghost(arbitrary()) }
    }

    /// The receiver inside, to wait on.
    pub fn receiver(&mut self) -> (r: &mut Receiver<T>)
        ensures
            *r == old(self).inner(),
            final(self).inner() == *final(r),
            final(self).channel() == old(self).channel(),
    {
        &mut self.receiver
    }
}

/// The channel labels of `handles`, in order.
pub open spec fn labels<T: Clone + Send + Sync>(handles: Seq<SendHandle<T>>) -> Seq<int> {
    handles.map_values(|h: SendHandle<T>| h.channel())
}

/// Opens a channel with room for `buffer_size` messages and returns its two ends.
pub fn create_send_receive_handles<T: Clone + Send + Sync>(buffer_size: usize) -> (r: (SendHandle<
    T,
>, ReceiveHandle<T>))
    requires
        valid_buffer(buffer_size),
    ensures
        r.0.channel() == r.1.channel(),
{
    mpsc_channel(buffer_size, None)
}

} // verus!
