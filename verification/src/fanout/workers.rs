//! Producers, processors and storers of the fan-out bus: their constructors and
//! the first step of their run loops, which subscribes them to their input.

use vstd::prelude::*;

use std::time::Duration;
use tokio_util::sync::CancellationToken;

use crate::fanout::bus::{subscriber_channels, DataBus, Message};
use crate::channel::{valid_buffer, ReceiveHandle};
use crate::processor::BusProcessorError;
use crate::producer::{duration_from_millis, Schedule};
use crate::shared::{cancel_token, new_token};
use crate::storer::BusStorerError;
use crate::topic::owned;

verus! {

/// Why a processor is refused, in the order the checks are made.
pub open spec fn fanout_processor_refusal(input: Seq<char>, output: Seq<char>) -> Option<Seq<char>> {
    if input.len() == 0 {
        Some("Input topic cannot be empty"@)
    } else if output.len() == 0 {
        Some("Output topic cannot be empty"@)
    } else if input == output {
        Some("Input and output topics must be different"@)
    } else {
        None
    }
}

/// A processor of the fan-out bus is created exactly when its two topics
/// are non-empty and different; each refusal names the first check that
/// fails. Topics that merely share a prefix are not refused.
pub proof fn lemma_fanout_processor_created_iff(input: Seq<char>, output: Seq<char>)
    ensures
        (fanout_processor_refusal(input, output) is None) == (input.len() > 0 && output.len() > 0 && input
            != output),
        input.len() == 0 ==> fanout_processor_refusal(input, output) == Some("Input topic cannot be empty"@),
        input.len() > 0 && output.len() == 0 ==> fanout_processor_refusal(input, output) == Some(
            "Output topic cannot be empty"@,
        ),
        input.len() > 0 && output.len() > 0 && input == output ==> fanout_processor_refusal(input, output)
            == Some("Input and output topics must be different"@),
{
}

/// A processor of the fan-out bus: it subscribes to its input when it first runs.
#[verifier::reject_recursive_types(T)]
pub struct BusProcessor<T: Clone + Send + Sync, U, V> {
    processor: V,
    processor_state: U,
    input_topic: String,
    output_topic: String,
    receiver: Option<ReceiveHandle<Message<T>>>,
    cancellation_token: CancellationToken,
}

impl<T: Clone + Send + Sync, U, V> BusProcessor<T, U, V> {
    /// The topics it reads and publishes on, and whether it holds its receiver.
    pub closed spec fn topics(self) -> (Seq<char>, Seq<char>, bool) {
        (self.input_topic@, self.output_topic@, self.receiver is Some)
    }

    /// The user code and the state it keeps.
    pub closed spec fn user_view(self) -> (V, U) {
        (self.processor, self.processor_state)
    }

    /// The receiver, once subscribed.
    pub closed spec fn receiver_view(self) -> Option<ReceiveHandle<Message<T>>> {
        self.receiver
    }

    /// The token that stops the run loop.
    pub closed spec fn token_view(self) -> CancellationToken {
        self.cancellation_token
    }

    /// A processor from `input_topic` to `output_topic`, not yet subscribed.
    pub fn new(processor: V, processor_state: U, input_topic: String, output_topic: String) -> (r: Result<
        Self,
        BusProcessorError,
    >)
        ensures
            match fanout_processor_refusal(input_topic@, output_topic@) {
                None => r matches Ok(p) && p.topics() == (input_topic@, output_topic@, false)
                    && p.user_view() == (processor, processor_state),
                Some(why) => r matches Err(BusProcessorError::CreationError(m)) && m@ == why,
            },
    {
        if input_topic.as_str().is_empty() {
            return Err(BusProcessorError::CreationError(owned("Input topic cannot be empty")));
        }
        if output_topic.as_str().is_empty() {
            return Err(BusProcessorError::CreationError(owned("Output topic cannot be empty")));
        }
        if input_topic == output_topic {
            return Err(BusProcessorError::CreationError(owned("Input and output topics must be different")));
        }
        Ok(Self {
            processor,
            processor_state,
            input_topic,
            output_topic,
            receiver: None,
            cancellation_token: new_token(),
        })
    }

    /// Subscribes to the input when not yet subscribed; whether the processor
    /// can run (it cannot once the bus is closed).
    pub fn subscribe_input(&mut self, bus: &mut DataBus<T>) -> (r: bool)
        requires
            !old(bus)@.0 ==> valid_buffer(old(bus).capacity()),
        ensures
            final(self).topics().0 == old(self).topics().0,
            final(self).topics().1 == old(self).topics().1,
            final(self).user_view() == old(self).user_view(),
            final(self).token_view() == old(self).token_view(),
            final(bus).capacity() == old(bus).capacity(),
            r == final(self).topics().2,
            old(self).topics().2 ==> r && final(bus)@ == old(bus)@ && final(self).receiver_view()
                == old(self).receiver_view(),
            !old(self).topics().2 ==> r == !old(bus)@.0,
            !old(self).topics().2 && old(bus)@.0 ==> final(bus)@ == old(bus)@,
            !old(self).topics().2 && !old(bus)@.0 ==> (final(self).receiver_view() matches Some(rx)
                && final(bus)@ == (false, old(bus)@.1.insert(
                old(self).topics().0,
                subscriber_channels(old(bus)@, old(self).topics().0).push(rx.channel()),
            ))),
    {
        if self.receiver.is_some() {
            return true;
        }
        match bus.subscribe(self.input_topic.as_str()) {
            Some(rx) => {
                self.receiver = Some(rx);
                true
            },
            None => false,
        }
    }

    /// The user code, its state, the topics, and the receiver once subscribed.
    pub fn parts(&mut self) -> (r: (&V, &U, &str, &str, &mut Option<ReceiveHandle<Message<T>>>))
        ensures
            (*r.0, *r.1) == old(self).user_view(),
            r.2@ == old(self).topics().0,
            r.3@ == old(self).topics().1,
            *r.4 == old(self).receiver_view(),
            final(self).receiver_view() == *final(r.4),
            final(self).user_view() == old(self).user_view(),
            final(self).topics().0 == old(self).topics().0,
            final(self).topics().1 == old(self).topics().1,
            final(self).token_view() == old(self).token_view(),
    {
        (&self.processor, &self.processor_state, self.input_topic.as_str(), self.output_topic.as_str(), &mut self.receiver)
    }

    /// The token that stops the run loop.
    pub fn cancellation_token(&self) -> (r: &CancellationToken)
        ensures
            *r == self.token_view(),
    {
        &self.cancellation_token
    }

    /// Tells the run loop to stop.
    pub fn stop(&self) {
        cancel_token(&self.cancellation_token)
    }
}

/// A storer of the fan-out bus: it subscribes to its input when it first runs.
#[verifier::reject_recursive_types(T)]
pub struct BusStorer<T: Clone + Send + Sync, U, V> {
    processor: V,
    processor_state: U,
    input_topic: String,
    receiver: Option<ReceiveHandle<Message<T>>>,
    cancellation_token: CancellationToken,
}

impl<T: Clone + Send + Sync, U, V> BusStorer<T, U, V> {
    /// The topic it reads, and whether it holds its receiver.
    pub closed spec fn topics(self) -> (Seq<char>, bool) {
        (self.input_topic@, self.receiver is Some)
    }

    /// The user code and the state it keeps.
    pub closed spec fn user_view(self) -> (V, U) {
        (self.processor, self.processor_state)
    }

    /// The receiver, once subscribed.
    pub closed spec fn receiver_view(self) -> Option<ReceiveHandle<Message<T>>> {
        self.receiver
    }

    /// The token that stops the run loop.
    pub closed spec fn token_view(self) -> CancellationToken {
        self.cancellation_token
    }

    /// A storer of `input_topic`, not yet subscribed; refused for an empty topic.
    pub fn new(processor: V, processor_state: U, input_topic: String) -> (r: Result<Self, BusStorerError>)
        ensures
            input_topic@.len() == 0 ==> (r matches Err(BusStorerError::CreationError(m)) && m@
                == "Input topic cannot be empty"@),
            input_topic@.len() > 0 ==> (r matches Ok(s) && s.topics() == (input_topic@, false)
                && s.user_view() == (processor, processor_state)),
    {
        if input_topic.as_str().is_empty() {
            return Err(BusStorerError::CreationError(owned("Input topic cannot be empty")));
        }
        Ok(Self { processor, processor_state, input_topic, receiver: None, cancellation_token: new_token() })
    }

    /// Subscribes to the input when not yet subscribed; whether the storer can
    /// run (it cannot once the bus is closed).
    pub fn subscribe_input(&mut self, bus: &mut DataBus<T>) -> (r: bool)
        requires
            !old(bus)@.0 ==> valid_buffer(old(bus).capacity()),
        ensures
            final(self).topics().0 == old(self).topics().0,
            final(self).user_view() == old(self).user_view(),
            final(self).token_view() == old(self).token_view(),
            final(bus).capacity() == old(bus).capacity(),
            r == final(self).topics().1,
            old(self).topics().1 ==> r && final(bus)@ == old(bus)@ && final(self).receiver_view()
                == old(self).receiver_view(),
            !old(self).topics().1 ==> r == !old(bus)@.0,
            !old(self).topics().1 && old(bus)@.0 ==> final(bus)@ == old(bus)@,
            !old(self).topics().1 && !old(bus)@.0 ==> (final(self).receiver_view() matches Some(rx)
                && final(bus)@ == (false, old(bus)@.1.insert(
                old(self).topics().0,
                subscriber_channels(old(bus)@, old(self).topics().0).push(rx.channel()),
            ))),
    {
        if self.receiver.is_some() {
            return true;
        }
        match bus.subscribe(self.input_topic.as_str()) {
            Some(rx) => {
                self.receiver = Some(rx);
                true
            },
            None => false,
        }
    }

    /// The user code, its state, the topic, and the receiver once subscribed.
    pub fn parts(&mut self) -> (r: (&V, &U, &str, &mut Option<ReceiveHandle<Message<T>>>))
        ensures
            (*r.0, *r.1) == old(self).user_view(),
            r.2@ == old(self).topics().0,
            *r.3 == old(self).receiver_view(),
            final(self).receiver_view() == *final(r.3),
            final(self).user_view() == old(self).user_view(),
            final(self).topics().0 == old(self).topics().0,
            final(self).token_view() == old(self).token_view(),
    {
        (&self.processor, &self.processor_state, self.input_topic.as_str(), &mut self.receiver)
    }

    /// The token that stops the run loop.
    pub fn cancellation_token(&self) -> (r: &CancellationToken)
        ensures
            *r == self.token_view(),
    {
        &self.cancellation_token
    }

    /// Tells the run loop to stop.
    pub fn stop(&self) {
        cancel_token(&self.cancellation_token)
    }
}

/// A producer of the fan-out bus, publishing on a topic on a schedule.
pub struct ScheduledProducer<S> {
    schedule: Schedule,
    topic: String,
    producer: S,
}

impl<S> ScheduledProducer<S> {
    /// The schedule and the topic.
    pub closed spec fn config(self) -> (Schedule, Seq<char>) {
        (self.schedule, self.topic@)
    }

    /// The producer's own code.
    pub closed spec fn producer_view(self) -> S {
        self.producer
    }

    /// A producer publishing on `topic`.
    pub fn new(schedule: Schedule, topic: String, producer: S) -> (r: Self)
        ensures
            r.config() == (schedule, topic@),
            r.producer_view() == producer,
    {
        ScheduledProducer { schedule, topic, producer }
    }

    /// The producer's own code.
    pub fn producer(&self) -> (r: &S)
        ensures
            *r == self.producer_view(),
    {
        &self.producer
    }

    /// The topic it publishes on.
    pub fn topic(&self) -> (r: &str)
        ensures
            r@ == self.config().1,
    {
        self.topic.as_str()
    }

    /// What to do after a publication succeeded (`published`) or was refused:
    /// stop (`None`), or wait this long and produce again.
    pub fn after_publish(&self, published: bool) -> (r: Option<Duration>)
        ensures
            !published ==> r is None,
            published ==> match self.config().0 {
                Schedule::Once => r is None,
                Schedule::Interval(millis) => r == Some(duration_from_millis(millis)),
            },
    {
        if !published {
            return None;
        }
        self.schedule.next_run()
    }
}

} // verus!
