//! The data bus: a registry of topics, each with one channel. Any number of
//! senders may be handed out for a topic, but its receiver only once; a bus
//! that was shut down refuses everything.

use vstd::prelude::*;

use crate::channel::{mpsc_channel, valid_buffer, ReceiveHandle, SendHandle};
use crate::text::{byte_len, find_key, key_index, keys_unique, lemma_key_index, upsert, utf8_len};
use crate::topic::owned;

verus! {

/// What the bus holds: whether it is closed, and for each topic whether its
/// receiver is still available.
pub type BusState = (bool, Map<Seq<char>, bool>);

/// The state after adding `topic`: a fresh channel whose receiver is
/// available (a closed bus is left as it is).
pub open spec fn bus_after_add(s: BusState, topic: Seq<char>) -> BusState {
    if s.0 {
        s
    } else {
        (false, s.1.insert(topic, true))
    }
}

/// Whether subscribing to `topic` hands out its receiver.
pub open spec fn subscribe_succeeds(s: BusState, topic: Seq<char>) -> bool {
    !s.0 && s.1.dom().contains(topic) && s.1[topic]
}

/// The state after subscribing to `topic`: its receiver is gone when it was handed out.
pub open spec fn bus_after_subscribe(s: BusState, topic: Seq<char>) -> BusState {
    if subscribe_succeeds(s, topic) {
        (s.0, s.1.insert(topic, false))
    } else {
        s
    }
}

/// Whether a sender for `topic` is handed out.
pub open spec fn sender_available(s: BusState, topic: Seq<char>) -> bool {
    !s.0 && s.1.dom().contains(topic)
}

/// The state after a shutdown: closed, without topics.
pub open spec fn bus_after_shutdown(s: BusState) -> BusState {
    (true, Map::empty())
}

/// Adding a topic to an open bus makes its receiver and its senders available.
pub proof fn lemma_add_then_subscribe(s: BusState, topic: Seq<char>)
    requires
        !s.0,
    ensures
        subscribe_succeeds(bus_after_add(s, topic), topic),
        sender_available(bus_after_add(s, topic), topic),
{
}

/// A topic's receiver is handed out once: after it was, subscribing fails
/// (out of receivers) while senders stay available.
pub proof fn lemma_receiver_handed_out_once(s: BusState, topic: Seq<char>)
    requires
        subscribe_succeeds(s, topic),
    ensures
        !subscribe_succeeds(bus_after_subscribe(s, topic), topic),
        bus_after_subscribe(s, topic).1.dom().contains(topic),
        sender_available(bus_after_subscribe(s, topic), topic),
{
}

/// Adding a topic again gives it a fresh receiver.
pub proof fn lemma_add_renews_receiver(s: BusState, topic: Seq<char>)
    requires
        !s.0,
    ensures
        subscribe_succeeds(bus_after_add(bus_after_subscribe(s, topic), topic), topic),
{
}

/// A bus that was shut down refuses subscriptions and senders for every
/// topic, and adding a topic leaves it unchanged.
pub proof fn lemma_shutdown_refuses(s: BusState, topic: Seq<char>)
    ensures
        !subscribe_succeeds(bus_after_shutdown(s), topic),
        !sender_available(bus_after_shutdown(s), topic),
        bus_after_add(bus_after_shutdown(s), topic) == bus_after_shutdown(s),
        bus_after_subscribe(bus_after_shutdown(s), topic) == bus_after_shutdown(s),
{
}

/// Adding or subscribing to one topic leaves every other topic as it was.
pub proof fn lemma_topics_independent(s: BusState, topic: Seq<char>, other: Seq<char>)
    requires
        topic != other,
    ensures
        subscribe_succeeds(bus_after_add(s, topic), other) == subscribe_succeeds(s, other),
        sender_available(bus_after_add(s, topic), other) == sender_available(s, other),
        subscribe_succeeds(bus_after_subscribe(s, topic), other) == subscribe_succeeds(s, other),
        sender_available(bus_after_subscribe(s, topic), other) == sender_available(s, other),
{
}

/// Why a subscription was refused.
#[derive(Debug)]
pub enum SubscribeError {
    OutOfReceivers,
    BusClosed,
    TopicNotFound(String),
}

impl SubscribeError {
    /// Renders the error as text.
    pub fn to_string(&self) -> (r: String)
        ensures
            r@ == match self {
                SubscribeError::OutOfReceivers => "All available receivers are leased"@,
                SubscribeError::BusClosed => "DataBus is closed"@,
                SubscribeError::TopicNotFound(t) => "Topic not found: "@ + t@,
            },
    {
        match self {
            SubscribeError::OutOfReceivers => owned("All available receivers are leased"),
            SubscribeError::BusClosed => owned("DataBus is closed"),
            SubscribeError::TopicNotFound(t) => {
                let mut r = owned("Topic not found: ");
                r.append(t.as_str());
                r
            },
        }
    }
}

/// Why a sender was refused.
#[derive(Debug)]
pub enum GetSenderError {
    BusClosed,
    TopicNotFound(String),
}

impl GetSenderError {
    /// Renders the error as text.
    pub fn to_string(&self) -> (r: String)
        ensures
            r@ == match self {
                GetSenderError::BusClosed => "DataBus is closed"@,
                GetSenderError::TopicNotFound(t) => "Topic not found: "@ + t@,
            },
    {
        match self {
            GetSenderError::BusClosed => owned("DataBus is closed"),
            GetSenderError::TopicNotFound(t) => {
                let mut r = owned("Topic not found: ");
                r.append(t.as_str());
                r
            },
        }
    }
}

/// The channel of a topic: its sender, and its receiver until it is handed out.
#[verifier::reject_recursive_types(T)]
pub struct TopicChannel<T: Clone + Send + Sync> {
    sender: SendHandle<T>,
    receiver: Option<ReceiveHandle<T>>,
}

/// The receiver of a topic's channel, while held, belongs to the same channel
/// as its sender.
spec fn channel_paired<T: Clone + Send + Sync>(c: TopicChannel<T>) -> bool {
    c.receiver matches Some(rx) ==> rx.channel() == c.sender.channel()
}

/// A bus of topics named by strings of at most `STR_CAP` bytes.
#[verifier::reject_recursive_types(T)]
pub struct DataBus<T: Clone + Send + Sync, const STR_CAP: usize> {
    topics: Vec<(String, TopicChannel<T>)>,
    channel_capacity: usize,
    is_closed: bool,
}

impl<T: Clone + Send + Sync, const STR_CAP: usize> View for DataBus<T, STR_CAP> {
    type V = BusState;

    closed spec fn view(&self) -> BusState {
        (
            self.is_closed,
            Map::new(
                |k: Seq<char>| key_index(self.topics@, k) >= 0,
                |k: Seq<char>| self.topics@[key_index(self.topics@, k)].1.receiver is Some,
            ),
        )
    }
}

impl<T: Clone + Send + Sync, const STR_CAP: usize> DataBus<T, STR_CAP> {
    #[verifier::type_invariant]
    closed spec fn inv(self) -> bool {
        &&& keys_unique(self.topics@)
        &&& self.is_closed ==> self.topics@.len() == 0
        &&& forall|i: int| 0 <= i < self.topics@.len() ==> channel_paired(#[trigger] self.topics@[i].1)
    }

    /// The label of the channel of `topic` (meaningful when the bus has it):
    /// its senders send into that channel, and its receiver, while the bus
    /// still holds it, receives from it.
    pub closed spec fn channel_of(self, topic: Seq<char>) -> int {
        self.topics@[key_index(self.topics@, topic)].1.sender.channel()
    }

    /// The room of each topic's channel, in messages.
    pub closed spec fn capacity(self) -> usize {
        self.channel_capacity
    }

    /// An open bus without topics whose channels hold `channel_capacity` messages.
    pub fn new(channel_capacity: usize) -> (r: Self)
        ensures
            r@ == (false, Map::<Seq<char>, bool>::empty()),
            r.capacity() == channel_capacity,
    {
        let r = DataBus { topics: Vec::new(), channel_capacity, is_closed: false };
        assert(r@.1 =~= Map::<Seq<char>, bool>::empty());
        r
    }

    /// Whether the bus was shut down.
    pub fn is_closed(&self) -> (r: bool)
        ensures
            r == self@.0,
    {
        self.is_closed
    }

    /// Closes the bus and drops every topic with its channel.
    pub fn shutdown(&mut self)
        ensures
            final(self)@ == bus_after_shutdown(old(self)@),
            final(self).capacity() == old(self).capacity(),
    {
        self.topics = Vec::new();
        self.is_closed = true;
        assert(self@.1 =~= Map::<Seq<char>, bool>::empty());
    }

    /// Adds `topic` with a new channel, replacing any channel it had; a closed
    /// bus is left unchanged.
    pub fn add_topic(&mut self, topic: &str)
        requires
            utf8_len(topic@) <= STR_CAP,
            !old(self)@.0 ==> valid_buffer(old(self).capacity()),
        ensures
            final(self)@ == bus_after_add(old(self)@, topic@),
            final(self).capacity() == old(self).capacity(),
            forall|q: Seq<char>|
                #![trigger final(self).channel_of(q)]
                q != topic@ && old(self)@.1.dom().contains(q) ==> final(self).channel_of(q) == old(self).channel_of(q),
            !old(self)@.0 && old(self)@.1.dom().contains(topic@) ==> final(self).channel_of(topic@)
                != old(self).channel_of(topic@),
    {
        proof {
            use_type_invariant(&*self);
        }
        if self.is_closed {
            return;
        }
        let key = owned(topic);
        proof {
            lemma_key_index(self.topics@, key@);
        }
        let (sender, receiver) = match find_key(&self.topics, &key) {
            Some(i) => mpsc_channel(self.channel_capacity, Some(&self.topics[i].1.sender)),
            None => mpsc_channel(self.channel_capacity, None),
        };
        let ghost before = self@;
        let mut topics: Vec<(String, TopicChannel<T>)> = Vec::new();
        std::mem::swap(&mut topics, &mut self.topics);
        let ghost old_topics = topics@;
        let ghost new_label = sender.channel();
        upsert(&mut topics, key, TopicChannel { sender, receiver: Some(receiver) });
        proof {
            if before.1.dom().contains(topic@) {
                assert(old_topics[key_index(old_topics, topic@)].1.sender.channel() != new_label);
                assert(topics@[key_index(topics@, topic@)].1.sender.channel() == new_label);
            }
        }
        proof {
            let nm = Map::new(
                |k: Seq<char>| key_index(topics@, k) >= 0,
                |k: Seq<char>| topics@[key_index(topics@, k)].1.receiver is Some,
            );
            assert(before.1 =~= Map::new(
                |k: Seq<char>| key_index(old_topics, k) >= 0,
                |k: Seq<char>| old_topics[key_index(old_topics, k)].1.receiver is Some,
            ));
            assert forall|q: Seq<char>| #![trigger nm.dom().contains(q)]
                nm.dom().contains(q) == before.1.insert(topic@, true).dom().contains(q)
                && (nm.dom().contains(q) ==> nm[q] == before.1.insert(topic@, true)[q]) by {
                lemma_key_index(topics@, q);
                lemma_key_index(old_topics, q);
                if q != topic@ && key_index(old_topics, q) >= 0 {
                    assert(topics@[key_index(old_topics, q)] == old_topics[key_index(old_topics, q)]);
                }
            }
            assert(nm =~= before.1.insert(topic@, true));
            assert forall|j: int| 0 <= j < topics@.len() implies channel_paired(#[trigger] topics@[j].1) by {
                let ki = key_index(topics@, topic@);
                if topics@[j].0@ == topic@ {
                    if j != ki {
                        if j < ki {
                            assert(topics@[j].0@ != topics@[ki].0@);
                        } else {
                            assert(topics@[ki].0@ != topics@[j].0@);
                        }
                    }
                } else {
                    assert(j < old_topics.len());
                    lemma_key_index(old_topics, topic@);
                    if old_topics[j].0@ == topic@ {
                        let oi = key_index(old_topics, topic@);
                        if oi < j {
                            assert(old_topics[oi].0@ != old_topics[j].0@);
                        }
                        assert(oi == j);
                    }
                    assert(topics@[j] == old_topics[j]);
                }
            }
            assert forall|q: Seq<char>| q != topic@ && before.1.dom().contains(q) implies
                topics@[key_index(topics@, q)].1.sender.channel() == old_topics[key_index(old_topics, q)].1.sender.channel() by {
                lemma_key_index(old_topics, q);
            }
        }
        self.topics = topics;
    }

    /// Hands out the receiver of `topic`, once.
    pub fn subscribe(&mut self, topic: &str) -> (r: Result<ReceiveHandle<T>, SubscribeError>)
        ensures
            final(self)@ == bus_after_subscribe(old(self)@, topic@),
            final(self).capacity() == old(self).capacity(),
            forall|q: Seq<char>|
                #![trigger final(self).channel_of(q)]
                old(self)@.1.dom().contains(q) ==> final(self).channel_of(q) == old(self).channel_of(q),
            match r {
                Ok(rx) => subscribe_succeeds(old(self)@, topic@) && rx.channel() == old(self).channel_of(topic@),
                Err(SubscribeError::BusClosed) => old(self)@.0,
                Err(SubscribeError::TopicNotFound(t)) => !old(self)@.0 && !old(self)@.1.dom().contains(
                    topic@,
                ) && t@ == topic@,
                Err(SubscribeError::OutOfReceivers) => !old(self)@.0 && old(self)@.1.dom().contains(
                    topic@,
                ) && !old(self)@.1[topic@],
            },
    {
        proof {
            use_type_invariant(&*self);
        }
        if self.is_closed {
            return Err(SubscribeError::BusClosed);
        }
        let key = owned(topic);
        proof {
            lemma_key_index(self.topics@, key@);
        }
        let i = match find_key(&self.topics, &key) {
            Some(i) => i,
            None => return Err(SubscribeError::TopicNotFound(key)),
        };
        if self.topics[i].1.receiver.is_none() {
            return Err(SubscribeError::OutOfReceivers);
        }
        let ghost before = self@;
        let mut topics: Vec<(String, TopicChannel<T>)> = Vec::new();
        std::mem::swap(&mut topics, &mut self.topics);
        let ghost old_topics = topics@;
        let mut taken: Option<ReceiveHandle<T>> = None;
        std::mem::swap(&mut taken, &mut topics[i].1.receiver);
        proof {
            let nm = Map::new(
                |k: Seq<char>| key_index(topics@, k) >= 0,
                |k: Seq<char>| topics@[key_index(topics@, k)].1.receiver is Some,
            );
            assert(before.1 =~= Map::new(
                |k: Seq<char>| key_index(old_topics, k) >= 0,
                |k: Seq<char>| old_topics[key_index(old_topics, k)].1.receiver is Some,
            ));
            assert(forall|j: int| 0 <= j < topics@.len() ==> #[trigger] topics@[j].0 == old_topics[j].0);
            assert forall|q: Seq<char>| #[trigger] key_index(topics@, q) == key_index(old_topics, q) by {
                lemma_key_index(topics@, q);
                lemma_key_index(old_topics, q);
                let x = key_index(topics@, q);
                let y = key_index(old_topics, q);
                if x >= 0 && y >= 0 && x < y {
                    assert(old_topics[x].0@ == q);
                }
                if x >= 0 && y >= 0 && y < x {
                    assert(topics@[y].0@ == q);
                }
                if x >= 0 && y < 0 {
                    assert(old_topics[x].0@ == q);
                }
                if y >= 0 && x < 0 {
                    assert(topics@[y].0@ == q);
                }
            }
            assert forall|q: Seq<char>| #![trigger nm.dom().contains(q)]
                nm.dom().contains(q) == before.1.insert(topic@, false).dom().contains(q)
                && (nm.dom().contains(q) ==> nm[q] == before.1.insert(topic@, false)[q]) by {
                lemma_key_index(topics@, q);
                if q != topic@ && key_index(old_topics, q) >= 0 {
                    assert(key_index(old_topics, q) != i);
                }
            }
            assert(nm =~= before.1.insert(topic@, false));
            assert(topics@[i as int].1.sender == old_topics[i as int].1.sender);
            assert forall|j: int| 0 <= j < topics@.len() implies channel_paired(#[trigger] topics@[j].1) by {
                if j != i {
                    assert(topics@[j] == old_topics[j]);
                }
            }
            assert forall|j: int| 0 <= j < topics@.len() implies #[trigger] topics@[j].1.sender == old_topics[j].1.sender by {
                if j != i {
                    assert(topics@[j] == old_topics[j]);
                }
            }
            assert(channel_paired(old_topics[i as int].1));
            assert forall|q: Seq<char>| before.1.dom().contains(q) implies
                topics@[key_index(topics@, q)].1.sender.channel() == old_topics[key_index(old_topics, q)].1.sender.channel() by {
                lemma_key_index(old_topics, q);
            }
        }
        self.topics = topics;
        match taken {
            Some(handle) => Ok(handle),
            None => Err(SubscribeError::OutOfReceivers),
        }
    }

    /// Hands out a sender into the channel of `topic`.
    pub fn get_sender(&self, topic: &str) -> (r: Result<SendHandle<T>, GetSenderError>)
        ensures
            match r {
                Ok(s) => sender_available(self@, topic@) && s.channel() == self.channel_of(topic@),
                Err(GetSenderError::BusClosed) => self@.0,
                Err(GetSenderError::TopicNotFound(t)) => !self@.0 && !self@.1.dom().contains(topic@)
                    && t@ == topic@,
            },
    {
        if self.is_closed {
            return Err(GetSenderError::BusClosed);
        }
        let key = owned(topic);
        proof {
            lemma_key_index(self.topics@, key@);
        }
        match find_key(&self.topics, &key) {
            Some(i) => Ok(self.topics[i].1.sender.clone()),
            None => Err(GetSenderError::TopicNotFound(key)),
        }
    }
}

} // verus!
