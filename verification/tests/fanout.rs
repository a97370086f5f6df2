use databus::fanout::bus::{keep_open, DataBus, Message, MessageHeader, MessageType};
use databus::channel::create_send_receive_handles;
use databus::fanout::workers::{BusProcessor, BusStorer, ScheduledProducer};
use databus::processor::BusProcessorError;
use databus::producer::Schedule;
use databus::storer::BusStorerError;

fn runtime() -> tokio::runtime::Runtime {
    tokio::runtime::Builder::new_current_thread().build().unwrap()
}

fn message(topic: &str, payload: &str) -> Message<String> {
    Message {
        header: MessageHeader { topic: topic.to_string(), message_type: MessageType::Data },
        payload: payload.to_string(),
    }
}

fn clone_message(m: &Message<String>) -> Message<String> {
    Message {
        header: MessageHeader { topic: m.header.topic.clone(), message_type: m.header.message_type },
        payload: m.payload.clone(),
    }
}

#[test]
fn databus_test_data_bus() {
    let mut bus = DataBus::<String>::new(10);
    let mut rx = bus.subscribe("test_topic").unwrap();
    let senders = bus.prepare_publish("test_topic").unwrap();
    runtime().block_on(async {
        for tx in senders {
            tx.sender().send(message("test_topic", "Hello, DataBus!")).await.unwrap();
        }
        let received = rx.receiver().recv().await.expect("Failed to receive message");
        assert_eq!(received.payload, "Hello, DataBus!");
    });
}

#[test]
fn databus_test_multiple_listeners() {
    let mut bus = DataBus::<String>::new(10);
    let mut rx1 = bus.subscribe("global_events").unwrap();
    let mut rx2 = bus.subscribe("global_events").unwrap();
    let mut rx3 = bus.subscribe("global_events").unwrap();
    let senders = bus.prepare_publish("global_events").unwrap();
    assert_eq!(senders.len(), 3);
    let msg = message("global_events", "test");
    runtime().block_on(async {
        for tx in senders {
            tx.sender().send(clone_message(&msg)).await.unwrap();
        }
        assert_eq!(rx1.receiver().recv().await.unwrap().payload, "test");
        assert_eq!(rx2.receiver().recv().await.unwrap().payload, "test");
        assert_eq!(rx3.receiver().recv().await.unwrap().payload, "test");
    });
}

#[test]
fn test_topic_pruning() {
    let mut bus = DataBus::<String>::new(10);
    {
        let _rx = bus.subscribe("temporary_topic").unwrap();
        assert!(bus.has_topic("temporary_topic"));
    }
    let senders = bus.prepare_publish("temporary_topic").unwrap();
    assert!(senders.is_empty());
    assert!(!bus.has_topic("temporary_topic"), "Topic should have been pruned");
}

#[test]
fn databus_test_graceful_shutdown() {
    let mut bus = DataBus::<String>::new(10);
    let mut rx = bus.subscribe("shutdown_topic").unwrap();
    bus.shutdown();
    assert!(bus.subscribe("another_topic").is_none());
    assert_eq!(bus.prepare_publish("shutdown_topic").err(), Some("Bus is closed"));
    runtime().block_on(async {
        assert!(rx.receiver().recv().await.is_none());
    });
}

#[test]
fn test_publish_without_subscribers_is_ok() {
    let mut bus = DataBus::<String>::new(10);
    assert!(bus.prepare_publish("missing_topic").is_ok());
    assert!(!bus.has_topic("missing_topic"));
}

#[test]
fn fanout_workers_check_their_topics() {
    let err = BusProcessor::<String, i32, ()>::new((), 0, "a".to_string(), "a".to_string()).err().unwrap();
    assert!(matches!(err, BusProcessorError::CreationError(m) if m == "Input and output topics must be different"));
    let err = BusProcessor::<String, i32, ()>::new((), 0, "".to_string(), "b".to_string()).err().unwrap();
    assert!(matches!(err, BusProcessorError::CreationError(m) if m == "Input topic cannot be empty"));
    let err = BusProcessor::<String, i32, ()>::new((), 0, "a".to_string(), "".to_string()).err().unwrap();
    assert!(matches!(err, BusProcessorError::CreationError(m) if m == "Output topic cannot be empty"));

    let mut bus = DataBus::<String>::new(4);
    let mut processor = BusProcessor::<String, i32, ()>::new((), 0, "in".to_string(), "out".to_string()).ok().unwrap();
    assert!(processor.subscribe_input(&mut bus));
    assert!(processor.subscribe_input(&mut bus));
    assert_eq!(bus.prepare_publish("in").unwrap().len(), 1);

    let err = BusStorer::<String, i32, ()>::new((), 0, "".to_string()).err().unwrap();
    assert!(matches!(err, BusStorerError::CreationError(_)));
    let mut storer = BusStorer::<String, i32, ()>::new((), 0, "in".to_string()).ok().unwrap();
    bus.shutdown();
    assert!(!storer.subscribe_input(&mut bus));

    let producer = ScheduledProducer::new(Schedule::Interval(5), "t".to_string(), ());
    assert_eq!(producer.topic(), "t");
    assert_eq!(producer.after_publish(true), Some(std::time::Duration::from_millis(5)));
    assert_eq!(producer.after_publish(false), None);
}

#[test]
fn keep_open_keeps_exactly_the_senders_flagged_open_in_order() {
    let (a, mut rx_a) = create_send_receive_handles::<u8>(1);
    let (b, _rx_b) = create_send_receive_handles::<u8>(1);
    let (c, mut rx_c) = create_send_receive_handles::<u8>(1);
    let senders = vec![a, b, c];
    let live = keep_open(&senders, &vec![false, true, false]);
    assert_eq!(live.len(), 2);
    runtime().block_on(async {
        live[0].sender().send(1).await.unwrap();
        live[1].sender().send(3).await.unwrap();
        assert_eq!(rx_a.receiver().recv().await, Some(1));
        assert_eq!(rx_c.receiver().recv().await, Some(3));
    });
    assert!(keep_open(&senders, &vec![true, true, true]).is_empty());
}

#[test]
fn publication_reaches_every_live_subscriber_only() {
    let mut bus = DataBus::<String>::new(4);
    let mut rx1 = bus.subscribe("t").unwrap();
    let rx2 = bus.subscribe("t").unwrap();
    let mut rx3 = bus.subscribe("t").unwrap();
    drop(rx2);
    let senders = bus.prepare_publish("t").unwrap();
    assert_eq!(senders.len(), 2);
    runtime().block_on(async {
        for tx in senders {
            tx.sender().send(message("t", "m")).await.unwrap();
        }
        assert_eq!(rx1.receiver().recv().await.unwrap().payload, "m");
        assert_eq!(rx3.receiver().recv().await.unwrap().payload, "m");
    });
    assert_eq!(bus.prepare_publish("t").unwrap().len(), 2);
}
