//! Scheduled producers: a producer publishes on one topic of the bus, once or
//! at a fixed interval.

use vstd::prelude::*;

use std::sync::{Arc, Mutex};
use std::time::Duration;

use crate::bus::{sender_available, DataBus};
use crate::channel::SendHandle;
use crate::shared::{read_shared, share};
use crate::topic::owned;

verus! {

/// The `Duration` that `Duration::from_millis` returns for `millis`.
pub uninterp spec fn duration_from_millis(millis: u64) -> Duration;

/// Calls `Duration::from_millis`.
#[verifier::external_body]
fn millis_to_duration(millis: u64) -> (r: Duration)
    ensures
        r == duration_from_millis(millis),
{
    Duration::from_millis(millis)
}

/// When a producer runs: once, or every so many milliseconds.
#[derive(Debug, Clone, Copy, PartialEq, Eq, Structural)]
pub enum Schedule {
    Once,
    Interval(u64),
}

impl Schedule {
    /// How long to wait before the next run; `None` when there is none.
    pub fn next_run(&self) -> (r: Option<Duration>)
        ensures
            match *self {
                Schedule::Once => r is None,
                Schedule::Interval(millis) => r == Some(duration_from_millis(millis)),
            },
    {
        match self {
            Schedule::Once => None,
            Schedule::Interval(millis) => Some(millis_to_duration(*millis)),
        }
    }
}

/// What can go wrong with a producer.
#[derive(Debug)]
pub enum ProducerError {
    PublishError(String),
    CreationError(String),
}

impl ProducerError {
    /// The text of the error.
    pub open spec fn message(&self) -> Seq<char> {
        match self {
            ProducerError::PublishError(m) => "Failed to publish message to topic: "@ + m@,
            ProducerError::CreationError(m) => "Error Creating Producer: "@ + m@,
        }
    }

    /// Renders the error as text.
    pub fn to_string(&self) -> (r: String)
        ensures
            r@ == self.message(),
    {
        match self {
            ProducerError::PublishError(m) => {
                let mut r = owned("Failed to publish message to topic: ");
                r.append(m.as_str());
                r
            },
            ProducerError::CreationError(m) => {
                let mut r = owned("Error Creating Producer: ");
                r.append(m.as_str());
                r
            },
        }
    }
}

/// A producer bound to a topic of the bus, with its state and schedule.
#[verifier::reject_recursive_types(T)]
#[verifier::reject_recursive_types(S)]
pub struct ScheduledProducer<T: Clone + Send + Sync, S: Clone + Send + Sync, const STR_CAP: usize, V> {
    producer: V,
    producer_state: Arc<Mutex<S>>,
    topic: String,
    sender: SendHandle<T>,
    schedule: Schedule,
}

impl<T: Clone + Send + Sync, S: Clone + Send + Sync, const STR_CAP: usize, V> ScheduledProducer<
    T,
    S,
    STR_CAP,
    V,
> {
    /// The topic it publishes on.
    pub closed spec fn topic_view(self) -> Seq<char> {
        self.topic@
    }

    /// Its schedule.
    pub closed spec fn schedule_view(self) -> Schedule {
        self.schedule
    }

    /// The producer's own code.
    pub closed spec fn producer_view(self) -> V {
        self.producer
    }

    /// The cell that holds the state.
    pub closed spec fn state_cell(self) -> Arc<Mutex<S>> {
        self.producer_state
    }

    /// The sender into the topic.
    pub closed spec fn sender_view(self) -> SendHandle<T> {
        self.sender
    }

    /// A producer publishing on `topic` of `bus`; refused for an empty topic or
    /// a topic the bus does not hand senders out for.
    pub fn new(
        producer: V,
        producer_state: S,
        bus: &DataBus<T, STR_CAP>,
        topic: &str,
        schedule: Schedule,
    ) -> (r: Result<Self, ProducerError>)
        ensures
            match r {
                Ok(p) => topic@.len() > 0 && sender_available(bus@, topic@) && p.topic_view() == topic@
                    && p.schedule_view() == schedule && p.producer_view() == producer
                    && p.sender_view().channel() == bus.channel_of(topic@),
                Err(ProducerError::CreationError(m)) => if topic@.len() == 0 {
                    m@ == "Topic cannot be empty"@
                } else {
                    !sender_available(bus@, topic@) && m@ == "Failed to get sender for topic: "@ + topic@
                },
                Err(_) => false,
            },
    {
        if topic.is_empty() {
            return Err(ProducerError::CreationError(owned("Topic cannot be empty")));
        }
        let sender = match bus.get_sender(topic) {
            Ok(s) => s,
            Err(_) => {
                let mut m = owned("Failed to get sender for topic: ");
                m.append(topic);
                return Err(ProducerError::CreationError(m));
            },
        };
        Ok(Self { producer, producer_state: share(producer_state), topic: owned(topic), sender, schedule })
    }

    /// A copy of the current state; `None` when the state is locked at this
    /// moment (a read never waits) or a panic left its lock poisoned.
    pub fn producer_state(&self) -> Option<S> {
        read_shared(&self.producer_state)
    }

    /// The state, shared with the producer's own code.
    pub fn shared_state(&self) -> (r: &Arc<Mutex<S>>)
        ensures
            *r == self.state_cell(),
    {
        &self.producer_state
    }

    /// The producer's own code.
    pub fn producer(&self) -> (r: &V)
        ensures
            *r == self.producer_view(),
    {
        &self.producer
    }

    /// The topic it publishes on.
    pub fn topic(&self) -> (r: &str)
        ensures
            r@ == self.topic_view(),
    {
        self.topic.as_str()
    }

    /// The sender into the topic.
    pub fn sender(&self) -> (r: &SendHandle<T>)
        ensures
            *r == self.sender_view(),
    {
        &self.sender
    }

    /// What to do after a run published (`sent`) or failed to publish: stop
    /// (`None`), or wait this long and run again.
    pub fn after_run(&self, sent: bool) -> (r: Option<Duration>)
        ensures
            !sent ==> r is None,
            sent ==> match self.schedule_view() {
                Schedule::Once => r is None,
                Schedule::Interval(millis) => r == Some(duration_from_millis(millis)),
            },
    {
        if !sent {
            return None;
        }
        self.schedule.next_run()
    }
}

} // verus!
