//! A topic-based data bus: hierarchical topics and indices, a wildcard trie,
//! message headers with metadata, the topic registry of the bus and the
//! decisions of its producers, processors and storers.

pub mod text;
pub mod topic;
pub mod index;
pub mod trie;
pub mod message;
pub mod channel;
pub mod bus;
pub mod shared;
pub mod producer;
pub mod processor;
pub mod storer;
pub mod html_list;
pub mod fanout;
pub mod trie_index;
