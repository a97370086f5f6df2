//! Bus storers: a storer reads one topic of the bus and keeps what arrives.

use vstd::prelude::*;

use std::sync::{Arc, Mutex};

use crate::bus::{bus_after_subscribe, subscribe_succeeds, DataBus};
use crate::channel::ReceiveHandle;
use crate::processor::{RunAction, RunEvent};
use crate::shared::{read_shared, share};
use crate::topic::owned;

verus! {

/// What can go wrong with a storer.
#[derive(Debug)]
pub enum BusStorerError {
    SubscriptionError(String),
    PublishError(String),
    CreationError(String),
}

impl BusStorerError {
    /// The text of the error.
    pub open spec fn message(&self) -> Seq<char> {
        match self {
            BusStorerError::SubscriptionError(m) => "Failed to subscribe to topic: "@ + m@,
            BusStorerError::PublishError(m) => "Failed to publish message to topic: "@ + m@,
            BusStorerError::CreationError(m) => "Error Creating BusStorer: "@ + m@,
        }
    }

    /// Renders the error as text.
    pub fn to_string(&self) -> (r: String)
        ensures
            r@ == self.message(),
    {
        let (prefix, m) = match self {
            BusStorerError::SubscriptionError(m) => (owned("Failed to subscribe to topic: "), m),
            BusStorerError::PublishError(m) => (owned("Failed to publish message to topic: "), m),
            BusStorerError::CreationError(m) => (owned("Error Creating BusStorer: "), m),
        };
        let mut r = prefix;
        r.append(m.as_str());
        r
    }
}

/// Leaves when the input channel is closed; handles each message; waits
/// after each one is stored.
pub fn storer_step(event: RunEvent) -> (r: RunAction)
    ensures
        r == match event {
            RunEvent::Received => RunAction::Handle,
            RunEvent::Sent => RunAction::Wait,
            RunEvent::SendFailed => RunAction::Wait,
            RunEvent::Cancelled => RunAction::Wait,
            RunEvent::InputClosed => RunAction::Stop,
        },
{
    match event {
        RunEvent::Received => RunAction::Handle,
        RunEvent::InputClosed => RunAction::Stop,
        _ => RunAction::Wait,
    }
}

/// A storer bound to an input topic of the bus.
#[verifier::reject_recursive_types(T)]
#[verifier::reject_recursive_types(S)]
pub struct BusStorer<T: Clone + Send + Sync, S: Clone + Send + Sync, const STR_CAP: usize, V> {
    processor: V,
    processor_state: Arc<Mutex<S>>,
    input_topic: String,
    receiver: ReceiveHandle<T>,
}

impl<T: Clone + Send + Sync, S: Clone + Send + Sync, const STR_CAP: usize, V> BusStorer<
    T,
    S,
    STR_CAP,
    V,
> {
    /// The topic it reads.
    pub closed spec fn input_view(self) -> Seq<char> {
        self.input_topic@
    }

    /// The storer's own code.
    pub closed spec fn processor_view(self) -> V {
        self.processor
    }

    /// The cell that holds the state.
    pub closed spec fn state_cell(self) -> Arc<Mutex<S>> {
        self.processor_state
    }

    /// The receiver of the input topic.
    pub closed spec fn receiver_view(self) -> ReceiveHandle<T> {
        self.receiver
    }

    /// A storer reading `input_topic`: it takes the receiver of that topic.
    pub fn new(
        processor: V,
        processor_state: S,
        bus: &mut DataBus<T, STR_CAP>,
        input_topic: &str,
    ) -> (r: Result<Self, BusStorerError>)
        ensures
            final(bus).capacity() == old(bus).capacity(),
            input_topic@.len() == 0 ==> (r matches Err(BusStorerError::CreationError(m)) && m@
                == "Input topic cannot be empty"@ && final(bus)@ == old(bus)@),
            input_topic@.len() > 0 && !subscribe_succeeds(old(bus)@, input_topic@) ==> (r matches Err(
                BusStorerError::SubscriptionError(m),
            ) && m@ == "Failed to subscribe to topic: "@ + input_topic@ && final(bus)@ == old(bus)@),
            input_topic@.len() > 0 && subscribe_succeeds(old(bus)@, input_topic@) ==> (r matches Ok(s)
                && s.input_view() == input_topic@ && s.processor_view() == processor
                && s.receiver_view().channel() == old(bus).channel_of(input_topic@) && final(bus)@
                == bus_after_subscribe(
                old(bus)@,
                input_topic@,
            )),
    {
        if input_topic.is_empty() {
            return Err(BusStorerError::CreationError(owned("Input topic cannot be empty")));
        }
        let receiver = match bus.subscribe(input_topic) {
            Ok(r) => r,
            Err(_) => {
                let mut m = owned("Failed to subscribe to topic: ");
                m.append(input_topic);
                return Err(BusStorerError::SubscriptionError(m));
            },
        };
        Ok(Self { processor, processor_state: share(processor_state), input_topic: owned(input_topic), receiver })
    }

    /// A copy of the current state; `None` when the state is locked at this
    /// moment (a read never waits) or a panic left its lock poisoned.
    pub fn processor_state(&self) -> Option<S> {
        read_shared(&self.processor_state)
    }

    /// The state, shared with the storer's own code.
    pub fn shared_state(&self) -> (r: &Arc<Mutex<S>>)
        ensures
            *r == self.state_cell(),
    {
        &self.processor_state
    }

    /// The storer's own code.
    pub fn processor(&self) -> (r: &V)
        ensures
            *r == self.processor_view(),
    {
        &self.processor
    }

    /// The topic it reads.
    pub fn input_topic(&self) -> (r: &str)
        ensures
            r@ == self.input_view(),
    {
        self.input_topic.as_str()
    }

    /// The receiver of the input topic.
    pub fn receiver(&mut self) -> (r: &mut ReceiveHandle<T>)
        ensures
            *r == old(self).receiver_view(),
            final(self).receiver_view() == *final(r),
            final(self).input_view() == old(self).input_view(),
            final(self).processor_view() == old(self).processor_view(),
            final(self).state_cell() == old(self).state_cell(),
    {
        &mut self.receiver
    }
}

} // verus!
