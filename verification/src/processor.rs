//! Bus processors: a processor reads one topic of the bus and publishes what
//! it makes of each message on another topic.

use vstd::prelude::*;

use std::sync::{Arc, Mutex};
use tokio_util::sync::CancellationToken;

use crate::bus::{bus_after_subscribe, sender_available, subscribe_succeeds, DataBus};
use crate::channel::{ReceiveHandle, SendHandle};
use crate::shared::{cancel_token, new_token, read_shared, share};
use crate::topic::owned;

verus! {

/// What can go wrong with a processor.
#[derive(Debug)]
pub enum BusProcessorError {
    SubscriptionError(String),
    PublishError(String),
    CreationError(String),
}

impl BusProcessorError {
    /// The text of the error.
    pub open spec fn message(&self) -> Seq<char> {
        match self {
            BusProcessorError::SubscriptionError(m) => "Failed to subscribe to topic: "@ + m@,
            BusProcessorError::PublishError(m) => "Failed to publish message to topic: "@ + m@,
            BusProcessorError::CreationError(m) => "Error Creating BusProcessor: "@ + m@,
        }
    }

    /// Renders the error as text.
    pub fn to_string(&self) -> (r: String)
        ensures
            r@ == self.message(),
    {
        let (prefix, m) = match self {
            BusProcessorError::SubscriptionError(m) => (owned("Failed to subscribe to topic: "), m),
            BusProcessorError::PublishError(m) => (owned("Failed to publish message to topic: "), m),
            BusProcessorError::CreationError(m) => (owned("Error Creating BusProcessor: "), m),
        };
        let mut r = prefix;
        r.append(m.as_str());
        r
    }
}

/// Why a creation is refused, in the order the checks are made; `None` when
/// it is not.
pub open spec fn processor_refusal(
    bus: crate::bus::BusState,
    input: Seq<char>,
    output: Seq<char>,
) -> Option<Seq<char>> {
    if input.len() == 0 {
        Some("Input topic cannot be empty"@)
    } else if output.len() == 0 {
        Some("Output topic cannot be empty"@)
    } else if input == output {
        Some("Input index cannot contain output topic to avoid infinite loops"@)
    } else if !sender_available(bus, output) {
        Some("Output topic '"@ + output + "' does not exist in DataBus"@)
    } else if !subscribe_succeeds(bus, input) {
        Some("Input topic '"@ + input + "' does not exist in DataBus"@)
    } else {
        None
    }
}

/// A processor is created exactly when its two topics are non-empty and
/// different, the output topic hands out senders and the input topic's
/// receiver is available; each refusal names the first of these that fails
/// (empty input, empty output, same topic, missing output, unavailable
/// input). Topics that merely share a prefix are not refused.
pub proof fn lemma_processor_created_iff(bus: crate::bus::BusState, input: Seq<char>, output: Seq<char>)
    ensures
        (processor_refusal(bus, input, output) is None) == (input.len() > 0 && output.len() > 0 && input != output
            && sender_available(bus, output) && subscribe_succeeds(bus, input)),
        input.len() == 0 ==> processor_refusal(bus, input, output) == Some("Input topic cannot be empty"@),
        input.len() > 0 && output.len() == 0 ==> processor_refusal(bus, input, output) == Some(
            "Output topic cannot be empty"@,
        ),
        input.len() > 0 && output.len() > 0 && input == output ==> processor_refusal(bus, input, output)
            == Some("Input index cannot contain output topic to avoid infinite loops"@),
        input.len() > 0 && output.len() > 0 && input != output && !sender_available(bus, output)
            ==> processor_refusal(bus, input, output) == Some(
            "Output topic '"@ + output + "' does not exist in DataBus"@,
        ),
        input.len() > 0 && output.len() > 0 && input != output && sender_available(bus, output)
            && !subscribe_succeeds(bus, input) ==> processor_refusal(bus, input, output) == Some(
            "Input topic '"@ + input + "' does not exist in DataBus"@,
        ),
{
}

/// What happens in the run loop of a worker.
#[derive(Debug, Clone, Copy, PartialEq, Eq, Structural)]
pub enum RunEvent {
    /// The worker was told to stop.
    Cancelled,
    /// Its input channel is closed.
    InputClosed,
    /// A message arrived.
    Received,
    /// Its result was published.
    Sent,
    /// Its result could not be published.
    SendFailed,
}

/// What the run loop does next.
#[derive(Debug, Clone, Copy, PartialEq, Eq, Structural)]
pub enum RunAction {
    /// Leave the loop.
    Stop,
    /// Handle the message that arrived.
    Handle,
    /// Wait for the next message.
    Wait,
}

/// Leaves on cancellation, a closed input or a failed publication; handles
/// each message; waits after each publication.
pub fn processor_step(event: RunEvent) -> (r: RunAction)
    ensures
        r == match event {
            RunEvent::Received => RunAction::Handle,
            RunEvent::Sent => RunAction::Wait,
            _ => RunAction::Stop,
        },
{
    match event {
        RunEvent::Cancelled => RunAction::Stop,
        RunEvent::InputClosed => RunAction::Stop,
        RunEvent::Received => RunAction::Handle,
        RunEvent::Sent => RunAction::Wait,
        RunEvent::SendFailed => RunAction::Stop,
    }
}

/// A processor bound to an input and an output topic of the bus.
#[verifier::reject_recursive_types(T)]
#[verifier::reject_recursive_types(S)]
pub struct BusProcessor<T: Clone + Send + Sync, S: Clone + Send + Sync, const STR_CAP: usize, V> {
    processor: V,
    processor_state: Arc<Mutex<S>>,
    input_topic: String,
    output_topic: String,
    sender: SendHandle<T>,
    receiver: ReceiveHandle<T>,
    cancellation_token: CancellationToken,
}

impl<T: Clone + Send + Sync, S: Clone + Send + Sync, const STR_CAP: usize, V> BusProcessor<
    T,
    S,
    STR_CAP,
    V,
> {
    /// The topic it reads.
    pub closed spec fn input_view(self) -> Seq<char> {
        self.input_topic@
    }

    /// The topic it publishes on.
    pub closed spec fn output_view(self) -> Seq<char> {
        self.output_topic@
    }

    /// The processor's own code.
    pub closed spec fn processor_view(self) -> V {
        self.processor
    }

    /// The cell that holds the state.
    pub closed spec fn state_cell(self) -> Arc<Mutex<S>> {
        self.processor_state
    }

    /// The sender into the output topic.
    pub closed spec fn sender_view(self) -> SendHandle<T> {
        self.sender
    }

    /// The receiver of the input topic.
    pub closed spec fn receiver_view(self) -> ReceiveHandle<T> {
        self.receiver
    }

    /// The token that stops the run loop.
    pub closed spec fn token_view(self) -> CancellationToken {
        self.cancellation_token
    }

    /// A processor reading `input_topic` and publishing on `output_topic`: it
    /// takes a sender into the output and the receiver of the input.
    pub fn new(
        processor: V,
        processor_state: S,
        bus: &mut DataBus<T, STR_CAP>,
        input_topic: &str,
        output_topic: &str,
    ) -> (r: Result<Self, BusProcessorError>)
        ensures
            match processor_refusal(old(bus)@, input_topic@, output_topic@) {
                None => r matches Ok(p) && p.input_view() == input_topic@ && p.output_view()
                    == output_topic@ && p.processor_view() == processor && final(bus)@ == bus_after_subscribe(
                    old(bus)@,
                    input_topic@,
                ) && p.sender_view().channel() == old(bus).channel_of(output_topic@)
                    && p.receiver_view().channel() == old(bus).channel_of(input_topic@),
                Some(why) => r matches Err(BusProcessorError::CreationError(m)) && m@ == why
                    && final(bus)@ == old(bus)@,
            },
            final(bus).capacity() == old(bus).capacity(),
    {
        if input_topic.is_empty() {
            return Err(BusProcessorError::CreationError(owned("Input topic cannot be empty")));
        }
        if output_topic.is_empty() {
            return Err(BusProcessorError::CreationError(owned("Output topic cannot be empty")));
        }
        let input = owned(input_topic);
        let output = owned(output_topic);
        if input == output {
            return Err(BusProcessorError::CreationError(
                owned("Input index cannot contain output topic to avoid infinite loops"),
            ));
        }
        let sender = match bus.get_sender(output_topic) {
            Ok(s) => s,
            Err(_) => {
                let mut m = owned("Output topic '");
                m.append(output_topic);
                m.append("' does not exist in DataBus");
                return Err(BusProcessorError::CreationError(m));
            },
        };
        let receiver = match bus.subscribe(input_topic) {
            Ok(r) => r,
            Err(_) => {
                let mut m = owned("Input topic '");
                m.append(input_topic);
                m.append("' does not exist in DataBus");
                return Err(BusProcessorError::CreationError(m));
            },
        };
        Ok(Self {
            processor,
            processor_state: share(processor_state),
            input_topic: input,
            output_topic: output,
            sender,
            receiver,
            cancellation_token: new_token(),
        })
    }

    /// A copy of the current state; `None` when the state is locked at this
    /// moment (a read never waits) or a panic left its lock poisoned.
    pub fn processor_state(&self) -> Option<S> {
        read_shared(&self.processor_state)
    }

    /// The state, shared with the processor's own code.
    pub fn shared_state(&self) -> (r: &Arc<Mutex<S>>)
        ensures
            *r == self.state_cell(),
    {
        &self.processor_state
    }

    /// The processor's own code.
    pub fn processor(&self) -> (r: &V)
        ensures
            *r == self.processor_view(),
    {
        &self.processor
    }

    /// The topic it reads.
    pub fn input_topic(&self) -> (r: &str)
        ensures
            r@ == self.input_view(),
    {
        self.input_topic.as_str()
    }

    /// The topic it publishes on.
    pub fn output_topic(&self) -> (r: &str)
        ensures
            r@ == self.output_view(),
    {
        self.output_topic.as_str()
    }

    /// The sender into the output topic.
    pub fn sender(&self) -> (r: &SendHandle<T>)
        ensures
            *r == self.sender_view(),
    {
        &self.sender
    }

    /// The receiver of the input topic.
    pub fn receiver(&mut self) -> (r: &mut ReceiveHandle<T>)
        ensures
            *r == old(self).receiver_view(),
            final(self).receiver_view() == *final(r),
            final(self).input_view() == old(self).input_view(),
            final(self).output_view() == old(self).output_view(),
            final(self).processor_view() == old(self).processor_view(),
            final(self).state_cell() == old(self).state_cell(),
            final(self).sender_view() == old(self).sender_view(),
            final(self).token_view() == old(self).token_view(),
    {
        &mut self.receiver
    }

    /// The token that stops the run loop.
    pub fn cancellation_token(&self) -> (r: &CancellationToken)
        ensures
            *r == self.token_view(),
    {
        &self.cancellation_token
    }

    /// Tells the run loop to stop.
    pub fn stop(&self) {
        cancel_token(&self.cancellation_token)
    }
}

} // verus!
