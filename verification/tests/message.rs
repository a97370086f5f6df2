use databus::message::{Message, MessageBuilder, MessageError, MessageHeader, MessageMeta, MessageType};

#[test]
fn constructors_set_the_type_and_payload() {
    assert_eq!(*Message::new_data(1u8).message_type(), MessageType::Data);
    assert_eq!(*Message::new_error(1u8).message_type(), MessageType::Error);
    assert_eq!(Message::new_empty(1u8).into_message_type(), MessageType::Empty);
    assert_eq!(Message::new_data(7u8).into_payload(), 7);
    assert!(Message::new_data(7u8).into_meta().is_none());
}

#[test]
fn add_meta_reads_back_and_replaces() {
    let header = MessageHeader::new(MessageType::Data)
        .add_meta("filename", "a.csv")
        .add_meta("other", "x")
        .add_meta("filename", "b.csv");
    assert_eq!(header.meta_by_key("filename"), Some("b.csv"));
    assert_eq!(header.meta_by_key("other"), Some("x"));
    assert_eq!(header.meta_by_key("missing"), None);
    let mut keys = header.meta_keys();
    keys.sort();
    assert_eq!(keys, vec!["filename", "other"]);
    assert_eq!(header.into_meta_by_key("other"), Some("x".to_string()));
}

#[test]
fn add_meta_cuts_keys_and_values_to_their_capacities() {
    let header = MessageHeader::new(MessageType::Data)
        .add_meta("abcdefghijklmnopqrstuvwxyz", "0123456789012345678901234567890123456789");
    assert_eq!(header.meta_by_key("abcdefghijklmnop"), Some("012345678901234567890123"));
    assert_eq!(header.meta_keys(), vec!["abcdefghijklmnop"]);
}

#[test]
fn builder_builds_what_it_was_given() {
    let message = MessageBuilder::new_data("payload".to_string())
        .unwrap()
        .add_meta("k", "v")
        .build();
    assert_eq!(*message.message_type(), MessageType::Data);
    assert_eq!(message.payload(), "payload");
    assert_eq!(message.meta_by_key("k"), Some("v"));

    let rebuilt = MessageBuilder::new_from_message(message).add_meta("k", "w").build();
    assert_eq!(rebuilt.meta_by_key("k"), Some("w"));
    assert_eq!(rebuilt.into_meta_by_key("k"), Some("w".to_string()));

    let empty = MessageBuilder::new_empty(0u8).unwrap().build();
    assert_eq!(*empty.message_type(), MessageType::Empty);
    assert!(empty.meta_keys().is_empty());
    let error = MessageBuilder::new_error(0u8).unwrap().build();
    assert_eq!(*error.message_type(), MessageType::Error);
    let data = MessageBuilder::new_data_from_topic(0u8).build();
    assert_eq!(*data.message_type(), MessageType::Data);
    let typed = MessageBuilder::new_from_topic(0u8, MessageType::Error).build();
    assert_eq!(*typed.message_type(), MessageType::Error);
}

#[test]
fn header_with_given_metadata() {
    let mut meta = MessageMeta::new();
    meta.insert("a", "1");
    let header = MessageHeader::new_with_meta(MessageType::Error, meta);
    assert_eq!(header.meta_by_key("a"), Some("1"));
    let message = Message::new(header, 3u8);
    assert_eq!(*message.payload(), 3);
    let meta = message.into_meta().unwrap();
    assert_eq!(meta.get("a"), Some("1"));
    assert_eq!(meta.remove("a"), Some("1".to_string()));
    assert_eq!(
        MessageError::CreationError("x".to_string()).to_string(),
        "Invalid topic: x"
    );
}

#[test]
fn clones_keep_metadata_and_payload() {
    let mut meta = MessageMeta::new();
    meta.insert("a", "1");
    meta.insert("b", "2");
    let copy = meta.clone();
    meta.insert("a", "changed");
    assert_eq!(copy.get("a"), Some("1"));
    assert_eq!(copy.get("b"), Some("2"));
    let message = MessageBuilder::new_data(5u8).unwrap().add_meta("k", "v").build();
    let again = message.clone();
    assert_eq!(again.meta_by_key("k"), Some("v"));
    assert_eq!(*again.payload(), 5);
}

#[test]
fn rebuilding_a_clone_gives_the_message_back() {
    let message = MessageBuilder::new_data("p".to_string()).unwrap().add_meta("filename", "dataset-1.csv").build();
    let rebuilt = MessageBuilder::new_from_message(message.clone()).build();
    assert_eq!(*rebuilt.message_type(), *message.message_type());
    assert_eq!(rebuilt.payload(), message.payload());
    assert_eq!(rebuilt.meta_by_key("filename"), Some("dataset-1.csv"));
    let empty = MessageBuilder::new_empty(0u8).unwrap().build();
    assert!(empty.clone().into_meta().is_none());
}
