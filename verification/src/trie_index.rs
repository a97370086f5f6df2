//! A trie index that readers and writers share across threads: readers take
//! the trie as it stands, writers replace it by an updated copy.

use vstd::prelude::*;

use arc_swap::ArcSwap;
use std::sync::Arc;

use crate::index::HierarchicalIndex;
use crate::topic::HierarchicalTopic;
use crate::trie::{clones_of, lookup, TrieIndexInternal};

verus! {

/// One state of the shared trie; every state is well formed.
pub struct TrieSnapshot<T, const VEC_CAP: usize, const STR_CAP: usize> {
    trie: TrieIndexInternal<T, VEC_CAP, STR_CAP>,
}

impl<T, const VEC_CAP: usize, const STR_CAP: usize> TrieSnapshot<T, VEC_CAP, STR_CAP> {
    #[verifier::type_invariant]
    spec fn well_formed(self) -> bool {
        self.trie.wf()
    }

    /// What this state holds.
    pub closed spec fn view(self) -> Map<Seq<Seq<char>>, T> {
        self.trie.view()
    }

    /// The empty state.
    pub fn empty() -> (r: Self)
        ensures
            r.view() == Map::<Seq<Seq<char>>, T>::empty(),
    {
        TrieSnapshot { trie: TrieIndexInternal::new() }
    }

    /// A new state: a copy of `current` with `value` cloned and stored at the
    /// path of `topic`.
    pub fn inserted(current: &Arc<Self>, topic: &HierarchicalIndex<VEC_CAP, STR_CAP>, value: &T) -> (r: Arc<Self>) where
        T: Clone,
        ensures
            r.view().dom() == current.view().dom().insert(topic@),
            cloned(*value, r.view()[topic@]),
            forall|k: Seq<Seq<char>>|
                #[trigger] current.view().dom().contains(k) && k != topic@ ==> cloned(current.view()[k], r.view()[k]),
    {
        let snapshot: &Self = &**current;
        proof {
            use_type_invariant(snapshot);
        }
        let mut trie = snapshot.trie.clone();
        proof {
            trie.lemma_clone_view(snapshot.trie);
        }
        trie.insert_and_set_at_index(topic, value.clone());
        assert(trie.view().dom() =~= current.view().dom().insert(topic@));
        Arc::new(TrieSnapshot { trie })
    }

    /// The values that `topic` reaches in this state, each cloned: see `lookup`.
    pub fn get_at_index(&self, topic: &HierarchicalTopic<VEC_CAP, STR_CAP>) -> (r: Vec<T>) where T: Clone
        ensures
            clones_of(lookup(self.view(), topic@), r@),
    {
        proof {
            use_type_invariant(self);
        }
        self.trie.get_at_index(topic)
    }
}

/// The lock-free cell that holds the current state. Only the wrappers below
/// touch it; what it holds at a given moment depends on the other threads.
#[verifier::external_body]
#[verifier::reject_recursive_types(T)]
struct TrieCell<T, const VEC_CAP: usize, const STR_CAP: usize> {
    cell: ArcSwap<TrieSnapshot<T, VEC_CAP, STR_CAP>>,
}

/// Calls `ArcSwap::from_pointee`: a cell that holds `initial`.
#[verifier::external_body]
fn new_cell<T, const VEC_CAP: usize, const STR_CAP: usize>(
    initial: TrieSnapshot<T, VEC_CAP, STR_CAP>,
) -> TrieCell<T, VEC_CAP, STR_CAP> {
    TrieCell { cell: ArcSwap::from_pointee(initial) }
}

/// Calls `ArcSwap::load_full`: the state the cell holds at this moment,
/// which other threads may have stored; nothing is stated of it beyond what
/// every state satisfies.
#[verifier::external_body]
fn load_state<T, const VEC_CAP: usize, const STR_CAP: usize>(
    cell: &TrieCell<T, VEC_CAP, STR_CAP>,
) -> Arc<TrieSnapshot<T, VEC_CAP, STR_CAP>> {
    cell.cell.load_full()
}

/// Calls `ArcSwap::rcu` with `TrieSnapshot::inserted`: the cell's state is
/// replaced by a copy with `value` stored at `topic`, retried until no other
/// writer came in between. The previous state that `rcu` returns is dropped.
#[verifier::external_body]
fn update_state<T: Clone, const VEC_CAP: usize, const STR_CAP: usize>(
    cell: &TrieCell<T, VEC_CAP, STR_CAP>,
    topic: &HierarchicalIndex<VEC_CAP, STR_CAP>,
    value: &T,
) {
    cell.cell.rcu(|current| TrieSnapshot::inserted(current, topic, value));
}

/// A trie index shared between threads.
#[verifier::reject_recursive_types(T)]
pub struct TrieIndex<T: Clone, const VEC_CAP: usize, const STR_CAP: usize> {
    internal: TrieCell<T, VEC_CAP, STR_CAP>,
}

impl<T: Clone, const VEC_CAP: usize, const STR_CAP: usize> TrieIndex<T, VEC_CAP, STR_CAP> {
    /// An index that holds nothing.
    pub fn new() -> (r: Self) {
        TrieIndex { internal: new_cell(TrieSnapshot::empty()) }
    }

    /// Stores `value` at the path of `topic`, on a copy of the current state
    /// that then replaces it; concurrent writers do not lose each other's updates.
    pub fn insert_and_set_at_index(&self, topic: HierarchicalIndex<VEC_CAP, STR_CAP>, value: T) {
        update_state(&self.internal, &topic, &value);
    }

    /// The values that `topic` reaches in the state the index holds when the
    /// call reads it.
    pub fn get_at_index(&self, topic: HierarchicalTopic<VEC_CAP, STR_CAP>) -> (r: Vec<T>)
        ensures
            exists|state: TrieSnapshot<T, VEC_CAP, STR_CAP>| clones_of(lookup(state.view(), topic@), r@),
    {
        let state = load_state(&self.internal);
        state.get_at_index(&topic)
    }
}

} // verus!
