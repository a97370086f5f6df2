use databus::index::{HierarchicalIndex, HierarchicalIndexError, IndexLevel, IndexLevelError};
use databus::topic::{HierarchicalTopic, HierarchicalTopicError};

#[test]
fn test_index_level_from_str() {
    let level = IndexLevel::<12>::from_str("test").unwrap();
    assert!(matches!(level, IndexLevel::String(s) if s.as_str() == "test"));

    let wildcard = IndexLevel::<12>::from_str("*").unwrap();
    assert!(matches!(wildcard, IndexLevel::Wildcard));

    assert!(matches!(
        IndexLevel::<12>::from_str("thisisaverylongpart"),
        Err(IndexLevelError::PartCapacityExceeded)
    ));
}

#[test]
fn test_hierarchical_index_creation() {
    let index = HierarchicalIndex::<3, 12>::new("root").unwrap();
    assert_eq!(index.to_string(), "root");
}

#[test]
fn test_hierarchical_index_add_part() {
    let mut index = HierarchicalIndex::<3, 12>::new("root").unwrap();
    index.add_part("child").unwrap();
    assert_eq!(index.to_string(), "root.child");
}

#[test]
fn test_hierarchical_index_from_str() {
    let index = HierarchicalIndex::<3, 12>::from_str("root.child").unwrap();
    assert_eq!(index.to_string(), "root.child");
}

#[test]
fn test_hierarchical_index_errors() {
    assert!(matches!(
        HierarchicalIndex::<3, 12>::new("thisisaverylongroot"),
        Err(HierarchicalIndexError::PartCapacityExceeded)
    ));

    let mut index = HierarchicalIndex::<3, 12>::new("root").unwrap();
    assert!(matches!(
        index.add_part("thisisaverylongchild"),
        Err(HierarchicalIndexError::PartCapacityExceeded)
    ));

    assert!(matches!(
        HierarchicalIndex::<3, 12>::from_str("part1.part2.part3.part4"),
        Err(HierarchicalIndexError::MaxDepthExceeded)
    ));

    let mut index = HierarchicalIndex::<3, 12>::new("root").unwrap();
    assert!(matches!(index.add_part("child1"), Ok(())));
    assert!(matches!(index.add_part("child2"), Ok(())));
    assert!(matches!(
        index.add_part("child3"),
        Err(HierarchicalIndexError::MaxDepthExceeded)
    ));
}

#[test]
fn test_hierarchical_index_partial_eq() {
    let index1 = HierarchicalIndex::<3, 12>::from_str("root.child.a").unwrap();
    let index2 = HierarchicalIndex::<3, 12>::from_str("root.child.a").unwrap();
    let index3 = HierarchicalIndex::<3, 12>::from_str("root.*.a").unwrap();

    assert_eq!(index1, index2);
    assert_ne!(index1, index3);
}

#[test]
fn test_hierarchical_index_matches_topic() {
    let index = HierarchicalIndex::<3, 12>::from_str("root.*.a").unwrap();
    let topic1 = HierarchicalTopic::<3, 12>::from_str("root.child.a").unwrap();
    let topic2 = HierarchicalTopic::<3, 12>::from_str("root.child.b").unwrap();
    let topic3 = HierarchicalTopic::<3, 12>::from_str("root.child.extra").unwrap();

    assert!(index.matches_topic(&topic1));
    assert!(!index.matches_topic(&topic2));
    assert!(!index.matches_topic(&topic3));
}

#[test]
fn shorter_index_matches_longer_topic_by_prefix() {
    let index = HierarchicalIndex::<3, 12>::from_str("root.*").unwrap();
    let topic = HierarchicalTopic::<3, 12>::from_str("root.child.a").unwrap();
    assert!(index.matches_topic(&topic));
}

#[test]
fn topic_from_str_round_trips_through_to_string() {
    let topic = HierarchicalTopic::<4, 8>::from_str("a.bb.ccc").unwrap();
    assert_eq!(topic.to_string(), "a.bb.ccc");
    assert_eq!(topic.parts_as_strings(), vec!["a".to_string(), "bb".to_string(), "ccc".to_string()]);
    assert_eq!(topic.clone().into_string(), "a.bb.ccc");
    assert!(!topic.is_empty());
}

#[test]
fn topic_rejects_wildcards_empty_parts_and_punctuation() {
    assert!(matches!(
        HierarchicalTopic::<3, 12>::from_str("a.*.c"),
        Err(HierarchicalTopicError::InvalidCharacter(_))
    ));
    assert!(matches!(
        HierarchicalTopic::<3, 12>::from_str("a..c"),
        Err(HierarchicalTopicError::InvalidCharacter(_))
    ));
    assert!(matches!(
        HierarchicalTopic::<3, 12>::from_str(""),
        Err(HierarchicalTopicError::InvalidCharacter(_))
    ));
    let err = HierarchicalTopic::<3, 12>::new("a-b").unwrap_err();
    assert_eq!(
        err.to_string(),
        "Disallowed character - only letters and numbers are allowed: Root topic must be non-empty, alphanumeric or wildcard"
    );
}

#[test]
fn topic_first_bad_part_decides_the_error() {
    // The long part comes before the invalid one.
    assert!(matches!(
        HierarchicalTopic::<3, 4>::from_str("abcdef.x-y"),
        Err(HierarchicalTopicError::PartCapacityExceeded)
    ));
    // The invalid part comes before the long one.
    assert!(matches!(
        HierarchicalTopic::<3, 4>::from_str("x-y.abcdef"),
        Err(HierarchicalTopicError::InvalidCharacter(_))
    ));
    assert!(matches!(
        HierarchicalTopic::<2, 4>::from_str("a.b.c"),
        Err(HierarchicalTopicError::MaxDepthExceeded)
    ));
}

#[test]
fn topic_add_part_checks_depth_then_characters_then_size() {
    let mut topic = HierarchicalTopic::<2, 3>::new("a").unwrap();
    assert!(matches!(topic.add_part("b*"), Err(HierarchicalTopicError::InvalidCharacter(_))));
    assert!(matches!(topic.add_part("bbbb"), Err(HierarchicalTopicError::PartCapacityExceeded)));
    assert!(topic.add_part("bbb").is_ok());
    assert!(matches!(topic.add_part("c"), Err(HierarchicalTopicError::MaxDepthExceeded)));
    assert_eq!(topic.to_string(), "a.bbb");
}

#[test]
fn topic_parts_are_measured_in_bytes() {
    // "ä" takes two bytes in UTF-8.
    assert!(HierarchicalTopic::<1, 2>::from_str("ä").is_ok());
    assert!(matches!(
        HierarchicalTopic::<1, 1>::from_str("ä"),
        Err(HierarchicalTopicError::PartCapacityExceeded)
    ));
}

#[test]
fn index_allows_wildcards_and_renders_them() {
    let index = HierarchicalIndex::<3, 4>::from_str("a.*.c").unwrap();
    assert_eq!(index.parts_as_strings(), vec!["a".to_string(), "*".to_string(), "c".to_string()]);
    assert_eq!(index.clone().into_string(), "a.*.c");
    assert!(matches!(
        HierarchicalIndex::<3, 4>::from_str("a.b-c"),
        Err(HierarchicalIndexError::InvalidFormat(_))
    ));
    let err = HierarchicalIndex::<3, 4>::new("a/b").unwrap_err();
    assert_eq!(
        err.to_string(),
        "Invalid format: Root index must be non-empty, alphanumeric or wildcard"
    );
    assert_eq!(IndexLevel::<4>::Wildcard.into_string(), "*");
    assert_eq!(IndexLevelError::PartCapacityExceeded.to_string(), "Capacity exceeded for part");
}

#[test]
fn longer_index_that_differs_early_does_not_match() {
    let index = HierarchicalIndex::<3, 12>::from_str("other.b.c").unwrap();
    let topic = HierarchicalTopic::<3, 12>::from_str("root").unwrap();
    assert!(!index.matches_topic(&topic));
}

#[test]
fn add_part_extends_the_text_with_a_dot() {
    let mut topic = HierarchicalTopic::<3, 8>::from_str("a.b").unwrap();
    assert!(!topic.is_empty());
    topic.add_part("c").unwrap();
    assert_eq!(topic.to_string(), "a.b.c");
    let mut index = HierarchicalIndex::<3, 8>::from_str("a").unwrap();
    index.add_part("*").unwrap();
    assert_eq!(index.to_string(), "a.*");
    assert!(!index.is_empty());
}
