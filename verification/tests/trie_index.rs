use databus::index::HierarchicalIndex;
use databus::topic::HierarchicalTopic;
use databus::trie::TrieIndexInternal;
use databus::trie_index::{TrieIndex, TrieSnapshot};
use std::sync::Arc;

#[test]
fn test_trie_index() {
    let mut trie_index = TrieIndexInternal::<String, 3, 3>::new();

    trie_index.insert_and_set_at_index(
        &HierarchicalIndex::<3, 3>::from_str("a.b.c").unwrap(),
        "value1".to_string(),
    );

    let result = trie_index.get_at_index(&HierarchicalTopic::<3, 3>::from_str("a.b.c").unwrap());
    assert_eq!(result, vec!["value1".to_string()]);
}

#[test]
fn test_trie_index_with_wildcard() {
    let mut trie_index = TrieIndexInternal::<String, 3, 3>::new();

    trie_index.insert_and_set_at_index(
        &HierarchicalIndex::<3, 3>::from_str("a.*.c").unwrap(),
        "value1".to_string(),
    );

    let result = trie_index.get_at_index(&HierarchicalTopic::<3, 3>::from_str("a.b.c").unwrap());
    assert_eq!(result, vec!["value1".to_string()]);

    let result_nomatch =
        trie_index.get_at_index(&HierarchicalTopic::<3, 3>::from_str("a.b.d").unwrap());
    assert_eq!(result_nomatch.len(), 0);

    let result_nomatch_too_short =
        trie_index.get_at_index(&HierarchicalTopic::<3, 3>::from_str("a.b").unwrap());
    assert_eq!(result_nomatch_too_short.len(), 0);

    let result_nomatch_too_short2 =
        trie_index.get_at_index(&HierarchicalTopic::<3, 3>::from_str("a").unwrap());
    assert_eq!(result_nomatch_too_short2.len(), 0);
}

#[test]
fn test_trie_index_clear() {
    let mut trie_index = TrieIndexInternal::<String, 3, 3>::new();

    trie_index.insert_and_set_at_index(
        &HierarchicalIndex::<3, 3>::from_str("a.b.c").unwrap(),
        "value1".to_string(),
    );
    trie_index.insert_and_set_at_index(
        &HierarchicalIndex::<3, 3>::from_str("a.b.*").unwrap(),
        "value1".to_string(),
    );
    trie_index.insert_and_set_at_index(
        &HierarchicalIndex::<3, 3>::from_str("a.*.*").unwrap(),
        "value1".to_string(),
    );

    trie_index.clear();

    let result = trie_index.get_at_index(&HierarchicalTopic::<3, 3>::from_str("a.b.c").unwrap());
    assert_eq!(result.len(), 0);
}

#[test]
fn wildcard_matches_come_before_exact_matches() {
    let mut trie = TrieIndexInternal::<u32, 3, 4>::new();
    trie.insert_and_set_at_index(&HierarchicalIndex::<3, 4>::from_str("a.b.c").unwrap(), 1);
    trie.insert_and_set_at_index(&HierarchicalIndex::<3, 4>::from_str("a.*.c").unwrap(), 2);
    trie.insert_and_set_at_index(&HierarchicalIndex::<3, 4>::from_str("*.b.c").unwrap(), 3);
    let result = trie.get_at_index(&HierarchicalTopic::<3, 4>::from_str("a.b.c").unwrap());
    assert_eq!(result, vec![3, 2, 1]);
}

#[test]
fn storing_again_at_an_index_replaces_the_value() {
    let mut trie = TrieIndexInternal::<u32, 3, 4>::new();
    let index = HierarchicalIndex::<3, 4>::from_str("x.y").unwrap();
    trie.insert_and_set_at_index(&index, 1);
    trie.insert_and_set_at_index(&index, 7);
    let result = trie.get_at_index(&HierarchicalTopic::<3, 4>::from_str("x.y").unwrap());
    assert_eq!(result, vec![7]);
}

#[test]
fn value_on_the_path_answers_when_no_deeper_level_exists() {
    let mut trie = TrieIndexInternal::<u32, 4, 4>::new();
    trie.insert_and_set_at_index(&HierarchicalIndex::<4, 4>::from_str("a.b").unwrap(), 5);
    let deeper = trie.get_at_index(&HierarchicalTopic::<4, 4>::from_str("a.b.c").unwrap());
    assert_eq!(deeper, vec![5]);
    trie.insert_and_set_at_index(&HierarchicalIndex::<4, 4>::from_str("a.b.c.d").unwrap(), 6);
    let through_child = trie.get_at_index(&HierarchicalTopic::<4, 4>::from_str("a.b.c").unwrap());
    assert_eq!(through_child, Vec::<u32>::new());
    let other = trie.get_at_index(&HierarchicalTopic::<4, 4>::from_str("a.b.x").unwrap());
    assert_eq!(other, vec![5]);
}

#[test]
fn read_after_write_for_distinct_topics() {
    let mut trie = TrieIndexInternal::<String, 2, 4>::new();
    for i in 0..20 {
        let index = HierarchicalIndex::<2, 4>::from_str(&format!("t.{}", i)).unwrap();
        trie.insert_and_set_at_index(&index, format!("val_{}", i));
    }
    for i in 0..20 {
        let topic = HierarchicalTopic::<2, 4>::from_str(&format!("t.{}", i)).unwrap();
        assert_eq!(trie.get_at_index(&topic), vec![format!("val_{}", i)]);
    }
}

fn runtime() -> tokio::runtime::Runtime {
    tokio::runtime::Builder::new_current_thread().build().unwrap()
}

#[test]
fn test_async_basic_insert_and_get() {
    runtime().block_on(async {
        let trie = TrieIndex::<String, 5, 10>::new();

        trie.insert_and_set_at_index(
            HierarchicalIndex::<5, 10>::from_str("a.b.c").unwrap(),
            "async_value".to_string(),
        );

        let result = trie.get_at_index(HierarchicalTopic::<5, 10>::from_str("a.b.c").unwrap());

        assert_eq!(result, vec!["async_value".to_string()]);
    });
}

#[test]
fn test_concurrent_inserts_prevent_lost_updates() {
    runtime().block_on(async {
        let trie = Arc::new(TrieIndex::<String, 5, 10>::new());
        let mut handles = Vec::new();

        for i in 0..50 {
            let trie_clone = Arc::clone(&trie);
            let handle = tokio::spawn(async move {
                let topic_str = format!("t.{}", i);
                let insert_topic = HierarchicalIndex::<5, 10>::from_str(&topic_str).unwrap();
                trie_clone.insert_and_set_at_index(insert_topic, format!("val_{}", i));
            });
            handles.push(handle);
        }

        for handle in handles {
            handle.await.expect("Task panicked");
        }

        for i in 0..50 {
            let topic_str = format!("t.{}", i);
            let search_topic = HierarchicalTopic::<5, 10>::from_str(&topic_str).unwrap();
            let results = trie.get_at_index(search_topic);
            assert_eq!(results.len(), 1, "Missing value for topic: {}", topic_str);
            assert_eq!(results[0], format!("val_{}", i));
        }
    });
}

#[test]
fn test_concurrent_reads_during_writes() {
    runtime().block_on(async {
        let trie = Arc::new(TrieIndex::<String, 5, 10>::new());

        trie.insert_and_set_at_index(
            HierarchicalIndex::<5, 10>::from_str("a.*.c").unwrap(),
            "seed_value".to_string(),
        );

        let mut write_handles = Vec::new();
        let mut read_handles = Vec::new();

        for i in 0..50 {
            let trie_clone = Arc::clone(&trie);
            write_handles.push(tokio::spawn(async move {
                let topic_str = format!("w.{}", i);
                let insert_topic = HierarchicalIndex::<5, 10>::from_str(&topic_str).unwrap();
                trie_clone.insert_and_set_at_index(insert_topic, format!("val_{}", i));
            }));
        }

        for _ in 0..50 {
            let trie_clone = Arc::clone(&trie);
            read_handles.push(tokio::spawn(async move {
                let search_topic = HierarchicalTopic::<5, 10>::from_str("a.b.c").unwrap();
                let results = trie_clone.get_at_index(search_topic);
                assert!(
                    results.contains(&"seed_value".to_string()),
                    "Reader failed to see seed value during concurrent writes"
                );
            }));
        }

        for handle in write_handles {
            handle.await.expect("Writer panicked");
        }
        for handle in read_handles {
            handle.await.expect("Reader panicked");
        }
    });
}

#[test]
fn shared_index_overwrites_and_keeps_other_paths() {
    let trie = TrieIndex::<u64, 4, 8>::new();
    trie.insert_and_set_at_index(HierarchicalIndex::<4, 8>::from_str("a.b").unwrap(), 1);
    trie.insert_and_set_at_index(HierarchicalIndex::<4, 8>::from_str("a.c").unwrap(), 2);
    trie.insert_and_set_at_index(HierarchicalIndex::<4, 8>::from_str("a.b").unwrap(), 3);
    assert_eq!(trie.get_at_index(HierarchicalTopic::<4, 8>::from_str("a.b").unwrap()), vec![3]);
    assert_eq!(trie.get_at_index(HierarchicalTopic::<4, 8>::from_str("a.c").unwrap()), vec![2]);
    assert_eq!(trie.get_at_index(HierarchicalTopic::<4, 8>::from_str("x.y").unwrap()), Vec::<u64>::new());
}

#[test]
fn internal_clone_is_independent_copy() {
    let mut original = TrieIndexInternal::<String, 3, 3>::default();
    original.insert_and_set_at_index(&HierarchicalIndex::<3, 3>::from_str("a.b").unwrap(), "one".to_string());
    let copy = original.clone();
    original.clear();
    assert_eq!(copy.get_at_index(&HierarchicalTopic::<3, 3>::from_str("a.b").unwrap()), vec!["one".to_string()]);
    assert_eq!(original.get_at_index(&HierarchicalTopic::<3, 3>::from_str("a.b").unwrap()), Vec::<String>::new());
}

#[test]
fn snapshot_insert_leaves_the_current_state_unchanged() {
    let empty = Arc::new(TrieSnapshot::<String, 3, 3>::empty());
    let index = HierarchicalIndex::<3, 3>::from_str("a.*").unwrap();
    let next = TrieSnapshot::inserted(&empty, &index, &"v".to_string());
    let topic = HierarchicalTopic::<3, 3>::from_str("a.b").unwrap();
    assert_eq!(next.get_at_index(&topic), vec!["v".to_string()]);
    assert_eq!(empty.get_at_index(&topic), Vec::<String>::new());
}

#[test]
fn each_index_contributes_at_most_once() {
    let mut trie = TrieIndexInternal::<u8, 3, 3>::new();
    trie.insert_and_set_at_index(&HierarchicalIndex::<3, 3>::from_str("a.*").unwrap(), 1);
    trie.insert_and_set_at_index(&HierarchicalIndex::<3, 3>::from_str("a.b").unwrap(), 2);
    trie.insert_and_set_at_index(&HierarchicalIndex::<3, 3>::from_str("*.b").unwrap(), 3);
    let mut got = trie.get_at_index(&HierarchicalTopic::<3, 3>::from_str("a.b").unwrap());
    got.sort();
    assert_eq!(got, vec![1, 2, 3]);
}
