use std::sync::Arc;
use std::time::Duration;

use databus::bus::{DataBus, GetSenderError, SubscribeError};
use databus::channel::{create_send_receive_handles, SendError};
use databus::message::Message;
use databus::processor::{processor_step, BusProcessor, BusProcessorError, RunAction, RunEvent};
use databus::producer::{ProducerError, Schedule, ScheduledProducer};
use databus::storer::{storer_step, BusStorer, BusStorerError};

fn runtime() -> tokio::runtime::Runtime {
    tokio::runtime::Builder::new_current_thread().build().unwrap()
}

fn test_message(payload: &str) -> Arc<Message<String>> {
    Arc::new(Message::new_data(payload.to_string()))
}

struct MockProcessor;
struct MockStorer;
struct TestProducer;

#[test]
fn test_data_bus() {
    let mut bus = DataBus::<Arc<Message<String>>, 20>::new(10);
    let topic = "test_topic";
    bus.add_topic(topic);
    let mut rx = bus.subscribe(topic).unwrap();
    let tx = bus.get_sender(topic).unwrap();
    runtime().block_on(async {
        tx.sender().send(test_message("Hello, DataBus!")).await.unwrap();
        let received = rx.receiver().recv().await.expect("Failed to receive message");
        assert_eq!(received.payload(), "Hello, DataBus!");
    });
}

#[test]
fn test_multiple_listeners() {
    let mut bus = DataBus::<Arc<Message<String>>, 20>::new(10);
    let topic = "test";
    bus.add_topic(topic);
    let mut rx1 = bus.subscribe(topic).unwrap();
    let tx = bus.get_sender(topic).unwrap();
    runtime().block_on(async {
        tx.sender().send(test_message("test")).await.unwrap();
        assert_eq!(rx1.receiver().recv().await.unwrap().payload(), "test");
    });
}

#[test]
fn test_graceful_shutdown() {
    let mut bus = DataBus::<Arc<Message<String>>, 20>::new(10);
    let shutdown_topic = "shutdown";
    let another_topic = "another";
    bus.add_topic(shutdown_topic);
    bus.add_topic(another_topic);
    let mut rx = bus.subscribe(shutdown_topic).unwrap();
    bus.shutdown();
    assert!(bus.subscribe(another_topic).is_err());
    assert!(bus.get_sender(another_topic).is_err());
    runtime().block_on(async {
        assert!(rx.receiver().recv().await.is_none());
    });
}

#[test]
fn receiver_is_handed_out_once_and_senders_many_times() {
    let mut bus = DataBus::<u32, 8>::new(2);
    bus.add_topic("t");
    assert!(bus.subscribe("t").is_ok());
    assert!(matches!(bus.subscribe("t"), Err(SubscribeError::OutOfReceivers)));
    assert!(bus.get_sender("t").is_ok());
    assert!(bus.get_sender("t").is_ok());
    assert!(matches!(bus.subscribe("missing"), Err(SubscribeError::TopicNotFound(t)) if t == "missing"));
    assert!(matches!(bus.get_sender("missing"), Err(GetSenderError::TopicNotFound(t)) if t == "missing"));
    // Adding the topic again opens a new channel with a receiver.
    bus.add_topic("t");
    assert!(bus.subscribe("t").is_ok());
}

#[test]
fn closed_bus_refuses_and_ignores_new_topics() {
    let mut bus = DataBus::<u32, 8>::new(2);
    bus.shutdown();
    bus.add_topic("late");
    assert!(matches!(bus.subscribe("late"), Err(SubscribeError::BusClosed)));
    assert!(matches!(bus.get_sender("late"), Err(GetSenderError::BusClosed)));
    assert_eq!(SubscribeError::BusClosed.to_string(), "DataBus is closed");
    assert_eq!(SubscribeError::OutOfReceivers.to_string(), "All available receivers are leased");
    assert_eq!(GetSenderError::TopicNotFound("x".to_string()).to_string(), "Topic not found: x");
}

#[test]
fn handles_carry_messages_between_their_ends() {
    let (tx, mut rx) = create_send_receive_handles::<u32>(1);
    let tx2 = tx.clone();
    runtime().block_on(async {
        tx2.sender().send(5).await.unwrap();
        assert_eq!(rx.receiver().recv().await, Some(5));
    });
    assert_eq!(
        SendError::SendError("channel closed".to_string()).to_string(),
        "Failed to send message: channel closed"
    );
}

#[test]
fn processor_test_bus_processor_initialization() {
    let mut bus = DataBus::<Arc<Message<String>>, 20>::new(10);
    bus.add_topic("test.input");
    bus.add_topic("test.output");
    let bus_processor =
        BusProcessor::<_, i32, 20, _>::new(MockProcessor, 0, &mut bus, "test.input", "test.output").unwrap();
    assert_eq!(bus_processor.input_topic(), "test.input");
    assert_eq!(bus_processor.output_topic(), "test.output");
    assert_eq!(bus_processor.processor_state(), Some(0));
}

#[test]
fn test_bus_processor_rejects_empty_input_topic() {
    let mut bus = DataBus::<Arc<Message<String>>, 20>::new(10);
    bus.add_topic("input.topic");
    bus.add_topic("output.topic");

    let err = BusProcessorError::CreationError("Input topic cannot be empty".into());
    assert!(matches!(err, BusProcessorError::CreationError(_)));
    assert_eq!(err.to_string(), "Error Creating BusProcessor: Input topic cannot be empty");

    let valid = BusProcessor::<_, i32, 20, _>::new(MockProcessor, 0, &mut bus, "input.topic", "output.topic");
    assert!(valid.is_ok());

    let empty = BusProcessor::<_, i32, 20, _>::new(MockProcessor, 0, &mut bus, "", "output.topic");
    assert!(matches!(empty, Err(BusProcessorError::CreationError(m)) if m == "Input topic cannot be empty"));
}

#[test]
fn test_bus_processor_rejects_same_input_and_output_topics() {
    let mut bus = DataBus::<Arc<Message<String>>, 20>::new(10);
    let err = match BusProcessor::<_, i32, 20, _>::new(MockProcessor, 0, &mut bus, "topic", "topic") {
        Ok(_) => panic!("expected matching topic validation error"),
        Err(err) => err,
    };
    assert!(matches!(err, BusProcessorError::CreationError(_)));
    assert_eq!(
        err.to_string(),
        "Error Creating BusProcessor: Input index cannot contain output topic to avoid infinite loops"
    );
}

#[test]
fn processor_refuses_topics_missing_from_the_bus() {
    let mut bus = DataBus::<Arc<Message<String>>, 20>::new(10);
    bus.add_topic("in");
    let missing_output = BusProcessor::<_, i32, 20, _>::new(MockProcessor, 0, &mut bus, "in", "out");
    assert!(matches!(missing_output, Err(BusProcessorError::CreationError(m))
        if m == "Output topic 'out' does not exist in DataBus"));
    bus.add_topic("out");
    let first = BusProcessor::<_, i32, 20, _>::new(MockProcessor, 0, &mut bus, "in", "out");
    assert!(first.is_ok());
    // The input's receiver is taken: a second processor on it is refused.
    let second = BusProcessor::<_, i32, 20, _>::new(MockProcessor, 0, &mut bus, "in", "out");
    assert!(matches!(second, Err(BusProcessorError::CreationError(m))
        if m == "Input topic 'in' does not exist in DataBus"));
}

#[test]
fn run_loops_stop_and_continue_as_decided() {
    assert_eq!(processor_step(RunEvent::Cancelled), RunAction::Stop);
    assert_eq!(processor_step(RunEvent::InputClosed), RunAction::Stop);
    assert_eq!(processor_step(RunEvent::SendFailed), RunAction::Stop);
    assert_eq!(processor_step(RunEvent::Received), RunAction::Handle);
    assert_eq!(processor_step(RunEvent::Sent), RunAction::Wait);
    assert_eq!(storer_step(RunEvent::InputClosed), RunAction::Stop);
    assert_eq!(storer_step(RunEvent::Received), RunAction::Handle);
    assert_eq!(storer_step(RunEvent::Sent), RunAction::Wait);
}

#[test]
fn test_bus_storer_rejects_empty_input_topic() {
    let err = BusStorerError::CreationError("Input topic cannot be empty".into());
    assert!(matches!(err, BusStorerError::CreationError(_)));
    assert_eq!(err.to_string(), "Error Creating BusStorer: Input topic cannot be empty");
}

#[test]
fn test_bus_storer_initialization() {
    let mut bus = DataBus::<Arc<Message<String>>, 20>::new(10);
    bus.add_topic("test.input.topic");
    let storer = BusStorer::<_, Vec<String>, 20, _>::new(MockStorer, Vec::new(), &mut bus, "test.input.topic").unwrap();
    assert_eq!(storer.input_topic(), "test.input.topic");
    let again = BusStorer::<_, Vec<String>, 20, _>::new(MockStorer, Vec::new(), &mut bus, "test.input.topic");
    assert!(matches!(again, Err(BusStorerError::SubscriptionError(m))
        if m == "Failed to subscribe to topic: test.input.topic"));
    let empty = BusStorer::<_, Vec<String>, 20, _>::new(MockStorer, Vec::new(), &mut bus, "");
    assert!(matches!(empty, Err(BusStorerError::CreationError(_))));
}

#[test]
fn test_scheduled_producer_rejects_empty_topic() {
    let err = ProducerError::CreationError("Topic cannot be empty".into());
    assert!(matches!(err, ProducerError::CreationError(_)));
    assert_eq!(err.to_string(), "Error Creating Producer: Topic cannot be empty");
}

#[test]
fn scheduled_producer_needs_a_topic_with_a_sender() {
    let mut bus = DataBus::<Arc<Message<String>>, 20>::new(10);
    let empty = ScheduledProducer::<_, i32, 20, _>::new(TestProducer, 0, &bus, "", Schedule::Once);
    assert!(matches!(empty, Err(ProducerError::CreationError(m)) if m == "Topic cannot be empty"));
    let missing = ScheduledProducer::<_, i32, 20, _>::new(TestProducer, 0, &bus, "testtopic", Schedule::Once);
    assert!(matches!(missing, Err(ProducerError::CreationError(m))
        if m == "Failed to get sender for topic: testtopic"));
    bus.add_topic("testtopic");
    let producer =
        ScheduledProducer::<_, i32, 20, _>::new(TestProducer, 3, &bus, "testtopic", Schedule::Interval(10)).unwrap();
    assert_eq!(producer.topic(), "testtopic");
    assert_eq!(producer.producer_state(), Some(3));
    assert_eq!(producer.after_run(true), Some(Duration::from_millis(10)));
    assert_eq!(producer.after_run(false), None);
}

#[test]
fn test_schedule_next_run() {
    assert_eq!(Schedule::Once.next_run(), None);
    assert_eq!(Schedule::Interval(25).next_run(), Some(Duration::from_millis(25)));
}

#[test]
fn public_constructor_validation_errors_are_exposed() {
    let mut bus = DataBus::<String, 32>::new(4);
    let t = "input";
    bus.add_topic(t);

    let producer_error = match ScheduledProducer::<_, i32, 32, _>::new(TestProducer, 0, &bus, t, Schedule::Once) {
        Ok(_) => ProducerError::CreationError("Topic cannot be empty".into()),
        Err(err) => err,
    };

    let processor_error = match BusProcessor::<_, i32, 32, _>::new(MockProcessor, 0, &mut bus, t, t) {
        Ok(_) => panic!("expected processor creation to fail"),
        Err(err) => err,
    };

    let storer_error = match BusStorer::<_, Vec<String>, 32, _>::new(MockStorer, Vec::new(), &mut bus, t) {
        Ok(_) => BusStorerError::CreationError("Input topic cannot be empty".into()),
        Err(err) => err,
    };

    assert!(matches!(producer_error, ProducerError::CreationError(_)));
    assert_eq!(producer_error.to_string(), "Error Creating Producer: Topic cannot be empty");

    assert!(matches!(processor_error, BusProcessorError::CreationError(_)));
    assert_eq!(
        processor_error.to_string(),
        "Error Creating BusProcessor: Input index cannot contain output topic to avoid infinite loops"
    );

    assert!(matches!(storer_error, BusStorerError::CreationError(_)));
    assert_eq!(storer_error.to_string(), "Error Creating BusStorer: Input topic cannot be empty");
}

#[test]
fn state_read_does_not_wait_for_a_held_lock() {
    let mut bus = DataBus::<Arc<Message<String>>, 20>::new(10);
    bus.add_topic("in");
    bus.add_topic("out");
    let processor = BusProcessor::<_, i32, 20, _>::new(MockProcessor, 7, &mut bus, "in", "out").unwrap();
    {
        let _guard = processor.shared_state().lock().unwrap();
        assert_eq!(processor.processor_state(), None);
    }
    assert_eq!(processor.processor_state(), Some(7));
}
