//! A bus that keeps, per topic, the senders of its subscribers.

use vstd::prelude::*;


use crate::channel::{labels, mpsc_channel, sender_is_closed, valid_buffer, ReceiveHandle, SendHandle};
use crate::text::{find_key, key_index, keys_unique, lemma_key_index, upsert};
use crate::topic::owned;

verus! {

/// The kind of a message.
#[derive(Debug, Clone, Copy, PartialEq, Eq, Structural)]
pub enum MessageType {
    Data,
    Error,
}

/// The header of a message: its topic and type.
#[derive(Debug, Clone, PartialEq, Eq)]
pub struct MessageHeader {
    pub topic: String,
    pub message_type: MessageType,
}

/// A message: a header and a payload.
#[derive(Debug, Clone, PartialEq, Eq)]
pub struct Message<T: Clone + Send + Sync> {
    pub header: MessageHeader,
    pub payload: T,
}

/// What the bus holds: whether it is closed, and for each topic the channel
/// labels of its subscribers' senders, in the order they subscribed.
pub type FanoutBusState = (bool, Map<Seq<char>, Seq<int>>);

/// A bus whose channels hold `channel_capacity` messages each.
#[verifier::reject_recursive_types(T)]
pub struct DataBus<T: Clone + Send + Sync> {
    topics: Vec<(String, Vec<SendHandle<Message<T>>>)>,
    channel_capacity: usize,
    is_closed: bool,
}

impl<T: Clone + Send + Sync> View for DataBus<T> {
    type V = FanoutBusState;

    closed spec fn view(&self) -> FanoutBusState {
        (
            self.is_closed,
            Map::new(
                |k: Seq<char>| key_index(self.topics@, k) >= 0,
                |k: Seq<char>| labels(self.topics@[key_index(self.topics@, k)].1@),
            ),
        )
    }
}

/// The channel labels of the subscribers of `topic` in `s` (none when it is absent).
pub open spec fn subscriber_channels(s: FanoutBusState, topic: Seq<char>) -> Seq<int> {
    if s.1.dom().contains(topic) {
        s.1[topic]
    } else {
        Seq::empty()
    }
}

/// The number of subscribers of `topic` in `s`.
pub open spec fn subscribers(s: FanoutBusState, topic: Seq<char>) -> nat {
    subscriber_channels(s, topic).len()
}

/// The labels of `channels` whose flag in `closed` is false, in order.
pub open spec fn kept(channels: Seq<int>, closed: Seq<bool>) -> Seq<int>
    decreases channels.len(),
{
    if channels.len() == 0 {
        Seq::empty()
    } else {
        let rest = kept(channels.drop_last(), closed.drop_last());
        if closed.last() {
            rest
        } else {
            rest.push(channels.last())
        }
    }
}

/// A publication reaches exactly the subscribers found listening: every
/// subscriber whose flag is false is kept, and everything kept is a
/// subscriber whose flag is false; when no flag is set, all are kept.
pub proof fn lemma_kept_exactly_open(channels: Seq<int>, closed: Seq<bool>)
    requires
        closed.len() == channels.len(),
    ensures
        forall|i: int| 0 <= i < channels.len() && !closed[i] ==> kept(channels, closed).contains(#[trigger] channels[i]),
        forall|j: int|
            #![trigger kept(channels, closed)[j]]
            0 <= j < kept(channels, closed).len() ==> exists|i: int|
                0 <= i < channels.len() && !closed[i] && #[trigger] channels[i] == kept(channels, closed)[j],
        (forall|i: int| 0 <= i < closed.len() ==> !#[trigger] closed[i]) ==> kept(channels, closed) == channels,
    decreases channels.len(),
{
    if channels.len() > 0 {
        let c0 = channels.drop_last();
        let f0 = closed.drop_last();
        lemma_kept_exactly_open(c0, f0);
        let rest = kept(c0, f0);
        let k = kept(channels, closed);
        let n = channels.len() - 1;
        assert forall|i: int| 0 <= i < channels.len() && !closed[i] implies k.contains(#[trigger] channels[i]) by {
            if i < n {
                assert(channels[i] == c0[i]);
                assert(closed[i] == f0[i]);
                assert(rest.contains(c0[i]));
                let p = choose|p: int| 0 <= p < rest.len() && rest[p] == c0[i];
                assert(k[p] == rest[p]);
            } else {
                assert(k[k.len() - 1] == channels[i]);
            }
        }
        assert forall|j: int| #![trigger k[j]] 0 <= j < k.len() implies exists|i: int|
            0 <= i < channels.len() && !closed[i] && #[trigger] channels[i] == k[j] by {
            if j < rest.len() {
                assert(k[j] == rest[j]);
                let i = choose|i: int| 0 <= i < c0.len() && !f0[i] && #[trigger] c0[i] == rest[j];
                assert(channels[i] == c0[i] && closed[i] == f0[i]);
            } else {
                assert(!closed[n] && channels[n] == k[j]);
            }
        }
        if forall|i: int| 0 <= i < closed.len() ==> !#[trigger] closed[i] {
            assert forall|i: int| 0 <= i < f0.len() implies !#[trigger] f0[i] by {
                assert(f0[i] == closed[i]);
            }
            assert(c0.push(channels.last()) =~= channels);
        }
    } else {
        assert(kept(channels, closed) =~= channels);
    }
}

/// The senders of `senders` whose flag in `closed` is false, in order, each
/// as another handle into the same channel.
pub fn keep_open<T: Clone + Send + Sync>(senders: &Vec<SendHandle<T>>, closed: &Vec<bool>) -> (live: Vec<
    SendHandle<T>,
>)
    requires
        closed@.len() == senders@.len(),
    ensures
        labels(live@) == kept(labels(senders@), closed@),
        forall|k: int|
            0 <= k < live@.len() ==> exists|j: int|
                0 <= j < senders@.len() && !closed@[j] && (#[trigger] live@[k]).channel() == senders@[j].channel()
                    && live@[k].checked() == senders@[j].checked(),
{
    let mut live: Vec<SendHandle<T>> = Vec::new();
    let mut j: usize = 0;
    while j < senders.len()
        invariant
            closed@.len() == senders@.len(),
            0 <= j <= senders@.len(),
            labels(live@) == kept(labels(senders@).take(j as int), closed@.take(j as int)),
            forall|k: int|
                0 <= k < live@.len() ==> exists|i: int|
                    0 <= i < j && !closed@[i] && (#[trigger] live@[k]).channel() == senders@[i].channel()
                        && live@[k].checked() == senders@[i].checked(),
        decreases senders@.len() - j,
    {
        proof {
            assert(labels(senders@).take(j + 1).drop_last() =~= labels(senders@).take(j as int));
            assert(closed@.take(j + 1).drop_last() =~= closed@.take(j as int));
        }
        if !closed[j] {
            let h = senders[j].clone();
            let ghost before = live@;
            live.push(h);
            assert(labels(live@) =~= labels(before).push(h.channel()));
            assert forall|k: int| 0 <= k < live@.len() implies exists|i: int|
                0 <= i < j + 1 && !closed@[i] && (#[trigger] live@[k]).channel() == senders@[i].channel()
                    && live@[k].checked() == senders@[i].checked() by {
                if k < before.len() {
                    assert(live@[k] == before[k]);
                } else {
                    assert(live@[k] == h);
                    assert(!closed@[j as int]);
                }
            }
        }
        j = j + 1;
    }
    assert(labels(senders@).take(senders@.len() as int) =~= labels(senders@));
    assert(closed@.take(closed@.len() as int) =~= closed@);
    live
}

/// Other handles into the same channels as `senders`, in order, with no
/// recorded answer.
fn copy_all<T: Clone + Send + Sync>(senders: &Vec<SendHandle<T>>) -> (r: Vec<SendHandle<T>>)
    ensures
        labels(r@) == labels(senders@),
        forall|k: int| 0 <= k < r@.len() ==> (#[trigger] r@[k]).checked() is None,
{
    let mut r: Vec<SendHandle<T>> = Vec::new();
    let mut j: usize = 0;
    while j < senders.len()
        invariant
            0 <= j <= senders@.len(),
            labels(r@) == labels(senders@).take(j as int),
            forall|k: int| 0 <= k < r@.len() ==> (#[trigger] r@[k]).checked() is None,
        decreases senders@.len() - j,
    {
        let h = senders[j].clone().forget_check();
        let ghost before = r@;
        r.push(h);
        assert(labels(r@) =~= labels(before).push(h.channel()));
        assert(labels(senders@).take(j + 1) =~= labels(senders@).take(j as int).push(h.channel()));
        j = j + 1;
    }
    assert(labels(senders@).take(senders@.len() as int) =~= labels(senders@));
    r
}

/// No sender the bus keeps has a recorded answer: every answer a
/// publication returns was given during that publication.
spec fn all_unchecked<T: Clone + Send + Sync>(entries: Seq<(String, Vec<SendHandle<Message<T>>>)>) -> bool {
    forall|i: int, k: int|
        0 <= i < entries.len() && 0 <= k < entries[i].1@.len() ==> (#[trigger] entries[i].1@[k]).checked() is None
}

/// After `upsert(entries, key, value)`, the entries are the old ones with
/// other keys, and the new one.
proof fn lemma_upsert_unchecked<T: Clone + Send + Sync>(
    old_entries: Seq<(String, Vec<SendHandle<Message<T>>>)>,
    new_entries: Seq<(String, Vec<SendHandle<Message<T>>>)>,
    key: Seq<char>,
    value: Vec<SendHandle<Message<T>>>,
)
    requires
        all_unchecked(old_entries),
        forall|k: int| 0 <= k < value@.len() ==> (#[trigger] value@[k]).checked() is None,
        keys_unique(new_entries),
        0 <= key_index(new_entries, key) < new_entries.len(),
        new_entries[key_index(new_entries, key)].1 == value,
        forall|i: int| 0 <= i < old_entries.len() && old_entries[i].0@ != key ==> #[trigger] new_entries[i] == old_entries[i],
        forall|i: int| 0 <= i < new_entries.len() && new_entries[i].0@ != key ==> i < old_entries.len(),
        forall|i: int| 0 <= i < old_entries.len() && (#[trigger] new_entries[i]).0@ != key ==> old_entries[i].0@ != key,
    ensures
        all_unchecked(new_entries),
{
    let ki = key_index(new_entries, key);
    lemma_key_index(new_entries, key);
    assert forall|i: int, k: int| 0 <= i < new_entries.len() && 0 <= k < new_entries[i].1@.len() implies (#[trigger] new_entries[i].1@[k]).checked() is None by {
        if new_entries[i].0@ == key {
            if i != ki {
                if i < ki {
                    assert(new_entries[i].0@ != new_entries[ki].0@);
                } else {
                    assert(new_entries[ki].0@ != new_entries[i].0@);
                }
            }
        } else {
            assert(new_entries[i] == old_entries[i]);
        }
    }
}

impl<T: Clone + Send + Sync> DataBus<T> {
    #[verifier::type_invariant]
    closed spec fn inv(self) -> bool {
        &&& keys_unique(self.topics@)
        &&& self.is_closed ==> self.topics@.len() == 0
        &&& all_unchecked(self.topics@)
    }

    /// The room of each channel, in messages.
    pub closed spec fn capacity(self) -> usize {
        self.channel_capacity
    }

    /// An open bus without topics.
    pub fn new(channel_capacity: usize) -> (r: Self)
        ensures
            r@ == (false, Map::<Seq<char>, Seq<int>>::empty()),
            r.capacity() == channel_capacity,
    {
        let r = DataBus { topics: Vec::new(), channel_capacity, is_closed: false };
        assert(r@.1 =~= Map::<Seq<char>, Seq<int>>::empty());
        r
    }

    /// Whether the bus was shut down.
    pub fn is_closed(&self) -> (r: bool)
        ensures
            r == self@.0,
    {
        self.is_closed
    }

    /// Closes the bus and drops every subscriber's sender.
    pub fn shutdown(&mut self)
        ensures
            final(self)@ == (true, Map::<Seq<char>, Seq<int>>::empty()),
            final(self).capacity() == old(self).capacity(),
    {
        self.topics = Vec::new();
        self.is_closed = true;
        assert(self@.1 =~= Map::<Seq<char>, Seq<int>>::empty());
    }

    /// Whether `topic` has an entry.
    pub fn has_topic(&self, topic: &str) -> (r: bool)
        ensures
            r == self@.1.dom().contains(topic@),
    {
        let key = owned(topic);
        find_key(&self.topics, &key).is_some()
    }

    /// A new subscriber of `topic`: the receiver of a channel of its own, whose
    /// sender the bus keeps for `topic`; none once the bus is closed.
    pub fn subscribe(&mut self, topic: &str) -> (r: Option<ReceiveHandle<Message<T>>>)
        requires
            !old(self)@.0 ==> valid_buffer(old(self).capacity()),
        ensures
            final(self).capacity() == old(self).capacity(),
            old(self)@.0 ==> r is None && final(self)@ == old(self)@,
            !old(self)@.0 ==> (r matches Some(rx) && final(self)@ == (false, old(self)@.1.insert(
                topic@,
                subscriber_channels(old(self)@, topic@).push(rx.channel()),
            ))),
    {
        proof {
            use_type_invariant(&*self);
        }
        if self.is_closed {
            return None;
        }
        let (tx, rx) = mpsc_channel(self.channel_capacity, None);
        let ghost before = self@;
        let mut topics: Vec<(String, Vec<SendHandle<Message<T>>>)> = Vec::new();
        std::mem::swap(&mut topics, &mut self.topics);
        let ghost old_topics = topics@;
        let key = owned(topic);
        proof {
            lemma_key_index(old_topics, key@);
        }
        let mut senders: Vec<SendHandle<Message<T>>> = match find_key(&topics, &key) {
            Some(i) => {
                let mut taken: Vec<SendHandle<Message<T>>> = Vec::new();
                std::mem::swap(&mut taken, &mut topics[i].1);
                proof {
                    assert forall|a: int, k: int| 0 <= a < topics@.len() && 0 <= k < topics@[a].1@.len() implies (#[trigger] topics@[a].1@[k]).checked() is None by {
                        if a != i {
                            assert(topics@[a] == old_topics[a]);
                        }
                    }
                    assert(taken@ == old_topics[i as int].1@);
                    assert forall|k: int| 0 <= k < taken@.len() implies (#[trigger] taken@[k]).checked() is None by {
                        assert(taken@[k] == old_topics[i as int].1@[k]);
                    }
                }
                taken
            },
            None => Vec::new(),
        };
        let ghost mid = topics@;
        assert(all_unchecked(mid));
        let ghost prior = labels(senders@);
        assert(before.1 =~= Map::new(
            |k: Seq<char>| key_index(old_topics, k) >= 0,
            |k: Seq<char>| labels(old_topics[key_index(old_topics, k)].1@),
        ));
        assert(prior == subscriber_channels(before, topic@));
        let ghost tx_channel = tx.channel();
        senders.push(tx);
        assert(labels(senders@) =~= prior.push(tx_channel));
        let ghost new_senders = senders;
        assert(forall|k: int| 0 <= k < senders@.len() ==> (#[trigger] senders@[k]).checked() is None);
        proof {
            assert(keys_unique(mid)) by {
                assert(forall|j: int| 0 <= j < mid.len() ==> #[trigger] mid[j].0 == old_topics[j].0);
            }
        }
        upsert(&mut topics, key, senders);
        proof {
            let nm = Map::new(
                |k: Seq<char>| key_index(topics@, k) >= 0,
                |k: Seq<char>| labels(topics@[key_index(topics@, k)].1@),
            );
            let want = before.1.insert(topic@, prior.push(tx_channel));
            assert forall|q: Seq<char>| #[trigger] key_index(mid, q) == key_index(old_topics, q) by {
                lemma_key_index(mid, q);
                lemma_key_index(old_topics, q);
                assert(forall|j: int| 0 <= j < mid.len() ==> #[trigger] mid[j].0 == old_topics[j].0);
                let x = key_index(mid, q);
                let y = key_index(old_topics, q);
                if x >= 0 && y >= 0 && x < y {
                    assert(old_topics[x].0@ == q);
                }
                if x >= 0 && y >= 0 && y < x {
                    assert(mid[y].0@ == q);
                }
                if x >= 0 && y < 0 {
                    assert(old_topics[x].0@ == q);
                }
                if y >= 0 && x < 0 {
                    assert(mid[y].0@ == q);
                }
            }
            assert forall|q: Seq<char>| #![trigger nm.dom().contains(q)]
                nm.dom().contains(q) == want.dom().contains(q) && (nm.dom().contains(q) ==> nm[q]
                    == want[q]) by {
                lemma_key_index(topics@, q);
                lemma_key_index(mid, q);
                if q != topic@ && key_index(mid, q) >= 0 {
                    assert(topics@[key_index(mid, q)] == mid[key_index(mid, q)]);
                    assert(mid[key_index(mid, q)] == old_topics[key_index(mid, q)]);
                }
            }
            assert(nm =~= want);
            assert forall|a: int| 0 <= a < topics@.len() && topics@[a].0@ != topic@ implies a < mid.len() by {
                if a >= mid.len() {
                    assert(topics@[a].0@ == key@);
                }
            }
            assert forall|a: int| 0 <= a < mid.len() && (#[trigger] topics@[a]).0@ != topic@ implies mid[a].0@ != topic@ by {
                lemma_key_index(mid, topic@);
                if mid[a].0@ == topic@ {
                    let mi = key_index(mid, topic@);
                    if mi < a {
                        assert(mid[mi].0@ != mid[a].0@);
                    }
                    assert(mi == a);
                }
            }
            lemma_upsert_unchecked(mid, topics@, topic@, new_senders);
        }
        self.topics = topics;
        Some(rx)
    }

    /// The first step of a publication on `topic`: refused once the bus is
    /// closed; else each of the topic's senders is asked whether its receiver
    /// was dropped, those that were are forgotten, a topic left without any is
    /// removed, and the senders still listening are returned, in order, to
    /// send the message to. Every returned sender is one that was asked
    /// during this call and answered that its receiver is still there (the
    /// senders the bus keeps carry no answer).
    pub fn prepare_publish(&mut self, topic: &str) -> (r: Result<Vec<SendHandle<Message<T>>>, &'static str>)
        ensures
            final(self).capacity() == old(self).capacity(),
            old(self)@.0 ==> (r matches Err(e) && e@ == "Bus is closed"@ && final(self)@ == old(self)@),
            !old(self)@.0 ==> (r matches Ok(live) && (forall|k: int|
                0 <= k < live@.len() ==> (#[trigger] live@[k]).checked() == Some(false)) && (exists|closed: Seq<bool>|
                closed.len() == subscribers(old(self)@, topic@) && #[trigger] kept(
                    subscriber_channels(old(self)@, topic@),
                    closed,
                ) == labels(live@)) && final(self)@ == (false, if live@.len() == 0 {
                old(self)@.1.remove(topic@)
            } else {
                old(self)@.1.insert(topic@, labels(live@))
            })),
    {
        proof {
            use_type_invariant(&*self);
        }
        if self.is_closed {
            return Err("Bus is closed");
        }
        let ghost before = self@;
        let mut topics: Vec<(String, Vec<SendHandle<Message<T>>>)> = Vec::new();
        std::mem::swap(&mut topics, &mut self.topics);
        let ghost old_topics = topics@;
        let key = owned(topic);
        proof {
            lemma_key_index(old_topics, key@);
            assert(before.1 =~= Map::new(
                |k: Seq<char>| key_index(old_topics, k) >= 0,
                |k: Seq<char>| labels(old_topics[key_index(old_topics, k)].1@),
            ));
        }
        let i = match find_key(&topics, &key) {
            Some(i) => i,
            None => {
                self.topics = topics;
                assert(before.1.remove(topic@) =~= before.1);
                let live: Vec<SendHandle<Message<T>>> = Vec::new();
                assert(subscriber_channels(before, topic@) =~= Seq::<int>::empty());
                assert(kept(subscriber_channels(before, topic@), Seq::<bool>::empty()) =~= labels(live@));
                return Ok(live);
            },
        };
        let (name, mut senders) = topics.remove(i);
        let ghost rest = topics@;
        proof {
            assert forall|a: int, k: int| 0 <= a < rest.len() && 0 <= k < rest[a].1@.len() implies (#[trigger] rest[a].1@[k]).checked() is None by {
                let a2 = if a < i { a } else { a + 1 };
                assert(rest[a] == old_topics[a2]);
            }
        }
        let ghost stored = senders@;
        let mut closed: Vec<bool> = Vec::new();
        let mut j: usize = 0;
        while j < senders.len()
            invariant
                0 <= j <= senders@.len(),
                senders@.len() == stored.len(),
                closed@.len() == j,
                forall|k: int| 0 <= k < senders@.len() ==> (#[trigger] senders@[k]).channel() == stored[k].channel(),
                forall|k: int| 0 <= k < j ==> (#[trigger] senders@[k]).checked() == Some(closed@[k]),
            decreases senders@.len() - j,
        {
            let mut h = senders.remove(j);
            let answer = sender_is_closed(&mut h);
            senders.insert(j, h);
            closed.push(answer);
            j = j + 1;
        }
        assert(labels(senders@) =~= labels(stored));
        let live = keep_open(&senders, &closed);
        let kept_senders = copy_all(&live);
        assert(kept_senders@.len() == labels(kept_senders@).len());
        assert(live@.len() == labels(live@).len());
        proof {
            assert(labels(senders@) == subscriber_channels(before, topic@));
            assert(labels(senders@).len() == senders@.len());
            assert(closed@.len() == subscribers(before, topic@));
            assert(kept(subscriber_channels(before, topic@), closed@) == labels(live@));
            assert(keys_unique(rest)) by {
                assert forall|a: int, b: int| 0 <= a < b < rest.len() implies #[trigger] rest[a].0@ != #[trigger] rest[b].0@ by {
                    let a2 = if a < i { a } else { a + 1 };
                    let b2 = if b < i { b } else { b + 1 };
                    assert(rest[a] == old_topics[a2]);
                    assert(rest[b] == old_topics[b2]);
                }
            }
            assert forall|q: Seq<char>| q != topic@ implies (#[trigger] key_index(rest, q) >= 0) == (key_index(old_topics, q) >= 0)
                && (key_index(rest, q) >= 0 ==> rest[key_index(rest, q)] == old_topics[key_index(old_topics, q)]) by {
                lemma_key_index(rest, q);
                lemma_key_index(old_topics, q);
                let y = key_index(old_topics, q);
                let x = key_index(rest, q);
                if y >= 0 {
                    assert(y != i);
                    let y2 = if y < i { y } else { y - 1 };
                    assert(rest[y2] == old_topics[y]);
                }
                if x >= 0 {
                    let x2 = if x < i { x } else { x + 1 };
                    assert(rest[x] == old_topics[x2]);
                }
            }
            lemma_key_index(rest, key@);
            assert(key_index(rest, key@) < 0) by {
                let x = key_index(rest, key@);
                if x >= 0 {
                    let x2 = if x < i { x } else { x + 1 };
                    assert(rest[x] == old_topics[x2]);
                }
            }
        }
        if kept_senders.len() > 0 {
            let ghost want_labels = labels(live@);
            let ghost kv = kept_senders;
            upsert(&mut topics, name, kept_senders);
            proof {
                assert forall|a: int| 0 <= a < rest.len() implies (#[trigger] rest[a]).0@ != topic@ by {}
                assert forall|a: int| 0 <= a < topics@.len() && topics@[a].0@ != topic@ implies a < rest.len() by {
                    if a >= rest.len() {
                        assert(topics@[a].0@ == key@);
                    }
                }
                lemma_upsert_unchecked(rest, topics@, topic@, kv);
                let nm = Map::new(
                    |k: Seq<char>| key_index(topics@, k) >= 0,
                    |k: Seq<char>| labels(topics@[key_index(topics@, k)].1@),
                );
                let want = before.1.insert(topic@, want_labels);
                assert forall|q: Seq<char>| #![trigger nm.dom().contains(q)]
                    nm.dom().contains(q) == want.dom().contains(q) && (nm.dom().contains(q) ==> nm[q]
                        == want[q]) by {
                    lemma_key_index(topics@, q);
                    lemma_key_index(rest, q);
                    if q != topic@ && key_index(rest, q) >= 0 {
                        assert(topics@[key_index(rest, q)] == rest[key_index(rest, q)]);
                    }
                }
                assert(nm =~= want);
            }
        } else {
            proof {
                let nm = Map::new(
                    |k: Seq<char>| key_index(topics@, k) >= 0,
                    |k: Seq<char>| labels(topics@[key_index(topics@, k)].1@),
                );
                let want = before.1.remove(topic@);
                assert(nm =~= want);
            }
        }
        self.topics = topics;
        assert(kept(subscriber_channels(before, topic@), closed@) == labels(live@));
        assert forall|k: int| 0 <= k < live@.len() implies (#[trigger] live@[k]).checked() == Some(false) by {
            let jj = choose|jj: int|
                0 <= jj < senders@.len() && !closed@[jj] && live@[k].channel() == senders@[jj].channel()
                    && live@[k].checked() == senders@[jj].checked();
        }
        Ok(live)
    }
}

} // verus!
