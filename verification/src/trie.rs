//! A trie from index paths to values, answering which values a topic reaches,
//! where a `*` level of an index matches any part of a topic.

use vstd::prelude::*;

use crate::index::{index_matches, wildcard, HierarchicalIndex};
use crate::text::{find_key, key_index, lemma_key_index};
use crate::topic::HierarchicalTopic;

verus! {

/// A node of the trie: the value stored at this path, and one child per next level.
pub struct TrieIndexInternal<T, const VEC_CAP: usize, const STR_CAP: usize> {
    next: Vec<(String, TrieIndexInternal<T, VEC_CAP, STR_CAP>)>,
    value: Option<T>,
}

impl<T, const VEC_CAP: usize, const STR_CAP: usize> TrieIndexInternal<T, VEC_CAP, STR_CAP> {
    /// The value stored at `path` below this node, if any.
    pub closed spec fn get_path(self, path: Seq<Seq<char>>) -> Option<T>
        decreases path.len(),
    {
        if path.len() == 0 {
            self.value
        } else {
            let i = key_index(self.next@, path[0]);
            if 0 <= i < self.next@.len() {
                self.next@[i].1.get_path(path.drop_first())
            } else {
                None
            }
        }
    }

    /// What the trie holds: each index path that has a value, with that value.
    pub closed spec fn view(self) -> Map<Seq<Seq<char>>, T> {
        Map::new(|k: Seq<Seq<char>>| self.get_path(k) is Some, |k: Seq<Seq<char>>| self.get_path(k)->Some_0)
    }

    /// No two children share a key, every child holds some value, and so on down.
    pub closed spec fn wf(self) -> bool
        decreases self,
    {
        &&& forall|i: int, j: int|
            0 <= i < j < self.next@.len() ==> #[trigger] self.next@[i].0@ != #[trigger] self.next@[j].0@
        &&& forall|i: int| 0 <= i < self.next@.len() ==> (#[trigger] self.next@[i]).1.wf()
        &&& forall|i: int| 0 <= i < self.next@.len() ==> (#[trigger] self.next@[i]).1.view().dom() != Set::<Seq<Seq<char>>>::empty()
    }
}

/// Two non-empty sequences with the same first element and the same rest are equal.
pub proof fn lemma_same_head_tail<A>(a: Seq<A>, b: Seq<A>)
    requires
        a.len() > 0,
        b.len() > 0,
        a[0] == b[0],
        a.drop_first() == b.drop_first(),
    ensures
        a == b,
{
    assert(a.drop_first().len() == a.len() - 1);
    assert(b.drop_first().len() == b.len() - 1);
    assert(a.len() == b.len());
    assert forall|j: int| 0 <= j < a.len() implies a[j] == b[j] by {
        if j > 0 {
            assert(j < b.len());
            assert(a[j] == a.drop_first()[j - 1]);
            assert(b[j] == b.drop_first()[j - 1]);
        }
    }
    assert(a =~= b);
}

/// The entries of `m` whose path starts with level `q`, with that level removed.
pub open spec fn below<T>(m: Map<Seq<Seq<char>>, T>, q: Seq<char>) -> Map<Seq<Seq<char>>, T> {
    Map::new(|k: Seq<Seq<char>>| m.dom().contains(seq![q] + k), |k: Seq<Seq<char>>| m[seq![q] + k])
}

/// The value of `m` at the empty path, as a sequence of zero or one value.
pub open spec fn here<T>(m: Map<Seq<Seq<char>>, T>) -> Seq<T> {
    if m.dom().contains(Seq::empty()) {
        seq![m[Seq::empty()]]
    } else {
        Seq::empty()
    }
}

/// Whether some path of `m` starts with level `q`.
pub open spec fn has_below<T>(m: Map<Seq<Seq<char>>, T>, q: Seq<char>) -> bool {
    below(m, q).dom() != Set::<Seq<Seq<char>>>::empty()
}

/// The values that the topic (by its parts) reaches in `m`, in order. At each
/// level, the entries under the wildcard come first, then those under the
/// topic's own part; when neither level exists, the value held at the path
/// reached so far answers; when the topic is used up, that value answers.
pub open spec fn lookup<T>(m: Map<Seq<Seq<char>>, T>, topic: Seq<Seq<char>>) -> Seq<T>
    decreases topic.len(),
{
    if topic.len() == 0 {
        here(m)
    } else {
        let rest = topic.drop_first();
        let has_w = has_below(m, wildcard());
        let has_e = has_below(m, topic[0]);
        if !has_w && !has_e {
            here(m)
        } else {
            (if has_w {
                lookup(below(m, wildcard()), rest)
            } else {
                Seq::empty()
            }) + (if has_e {
                lookup(below(m, topic[0]), rest)
            } else {
                Seq::empty()
            })
        }
    }
}

/// Entries under a level after a store: those from before, plus the stored
/// one when its path starts with that level.
proof fn lemma_below_insert<T>(m: Map<Seq<Seq<char>>, T>, index: Seq<Seq<char>>, value: T)
    requires
        index.len() > 0,
    ensures
        below(m.insert(index, value), index[0]) == below(m, index[0]).insert(index.drop_first(), value),
{
    let q = index[0];
    assert(seq![q] + index.drop_first() =~= index);
    assert forall|k: Seq<Seq<char>>| (seq![q] + k == index) == (k == index.drop_first()) by {
        if seq![q] + k == index {
            assert(k =~= (seq![q] + k).drop_first());
        }
    }
    assert(below(m.insert(index, value), q) =~= below(m, q).insert(index.drop_first(), value));
}

/// What a topic reaches after a store: a topic that the stored index matches
/// part for part, at the same depth, reaches the stored value.
pub proof fn lemma_lookup_after_insert<T>(
    m: Map<Seq<Seq<char>>, T>,
    index: Seq<Seq<char>>,
    value: T,
    topic: Seq<Seq<char>>,
)
    requires
        index.len() == topic.len(),
        index_matches(index, topic),
    ensures
        lookup(m.insert(index, value), topic).contains(value),
    decreases topic.len(),
{
    let m2 = m.insert(index, value);
    if topic.len() == 0 {
        assert(index =~= Seq::<Seq<char>>::empty());
        assert(here(m2)[0] == value);
    } else {
        let q = index[0];
        let rest = topic.drop_first();
        lemma_below_insert(m, index, value);
        assert(below(m2, q).dom().contains(index.drop_first()));
        assert(has_below(m2, q));
        assert(index_matches(index.drop_first(), rest)) by {
            assert forall|i: int| 0 <= i < index.drop_first().len() implies #[trigger] index.drop_first()[i]
                == wildcard() || index.drop_first()[i] == rest[i] by {
                assert(index.drop_first()[i] == index[i + 1]);
                assert(rest[i] == topic[i + 1]);
            }
        }
        lemma_lookup_after_insert(below(m, q), index.drop_first(), value, rest);
        let inner = lookup(below(m2, q), rest);
        let j = choose|j: int| 0 <= j < inner.len() && inner[j] == value;
        let w = if has_below(m2, wildcard()) { lookup(below(m2, wildcard()), rest) } else { Seq::empty() };
        let e = if has_below(m2, topic[0]) { lookup(below(m2, topic[0]), rest) } else { Seq::empty() };
        assert(lookup(m2, topic) == w + e);
        if q == wildcard() {
            assert((w + e)[j] == value);
        } else {
            assert(q == topic[0]);
            assert((w + e)[w.len() + j] == value);
        }
    }
}

/// Every value a topic reaches is held at an index path that matches the
/// topic and is no deeper than it.
pub proof fn lemma_lookup_sound<T>(m: Map<Seq<Seq<char>>, T>, topic: Seq<Seq<char>>, j: int)
    requires
        0 <= j < lookup(m, topic).len(),
    ensures
        exists|k: Seq<Seq<char>>|
            #![trigger m.dom().contains(k)]
            m.dom().contains(k) && m[k] == lookup(m, topic)[j] && k.len() <= topic.len()
                && index_matches(k, topic),
    decreases topic.len(),
{
    let r = lookup(m, topic);
    let empty = Seq::<Seq<char>>::empty();
    if topic.len() == 0 || (!has_below(m, wildcard()) && !has_below(m, topic[0])) {
        assert(m.dom().contains(empty) && m[empty] == r[j] && index_matches(empty, topic));
    } else {
        let rest = topic.drop_first();
        let has_w = has_below(m, wildcard());
        let has_e = has_below(m, topic[0]);
        let w = if has_w { lookup(below(m, wildcard()), rest) } else { Seq::empty() };
        let e = if has_e { lookup(below(m, topic[0]), rest) } else { Seq::empty() };
        assert(r == w + e);
        let (q, jj) = if j < w.len() { (wildcard(), j) } else { (topic[0], j - w.len()) };
        let sub = below(m, q);
        assert(lookup(sub, rest)[jj] == r[j]);
        lemma_lookup_sound(sub, rest, jj);
        let k2 = choose|k: Seq<Seq<char>>|
            #![trigger sub.dom().contains(k)]
            sub.dom().contains(k) && sub[k] == lookup(sub, rest)[jj] && k.len() <= rest.len()
                && index_matches(k, rest);
        let k = seq![q] + k2;
        assert forall|i: int| 0 <= i < k.len() implies #[trigger] k[i] == wildcard() || k[i] == topic[i] by {
            if i > 0 {
                assert(k[i] == k2[i - 1]);
                assert(rest[i - 1] == topic[i]);
            }
        }
        assert(m.dom().contains(k) && m[k] == r[j]);
    }
}

/// The paths `keys`, each with `q` put in front.
pub open spec fn under(q: Seq<char>, keys: Seq<Seq<Seq<char>>>) -> Seq<Seq<Seq<char>>> {
    Seq::new(keys.len(), |j: int| seq![q] + keys[j])
}

/// Each value that a topic without `*` parts reaches comes from an index
/// path of its own: the returned paths, one per value and in the same order,
/// are distinct, hold those values, match the topic and are no deeper than
/// it. So an index contributes at most once to a lookup.
pub proof fn lemma_lookup_sources<T>(m: Map<Seq<Seq<char>>, T>, topic: Seq<Seq<char>>) -> (keys: Seq<
    Seq<Seq<char>>,
>)
    requires
        forall|i: int| 0 <= i < topic.len() ==> #[trigger] topic[i] != wildcard(),
    ensures
        keys.len() == lookup(m, topic).len(),
        forall|j: int|
            0 <= j < keys.len() ==> m.dom().contains(#[trigger] keys[j]) && m[keys[j]] == lookup(m, topic)[j]
                && keys[j].len() <= topic.len() && index_matches(keys[j], topic),
        forall|a: int, b: int| 0 <= a < b < keys.len() ==> #[trigger] keys[a] != #[trigger] keys[b],
    decreases topic.len(),
{
    let empty = Seq::<Seq<char>>::empty();
    if topic.len() == 0 || (!has_below(m, wildcard()) && !has_below(m, topic[0])) {
        if m.dom().contains(empty) {
            let keys = seq![empty];
            assert(index_matches(empty, topic));
            keys
        } else {
            Seq::empty()
        }
    } else {
        let rest = topic.drop_first();
        assert forall|i: int| 0 <= i < rest.len() implies #[trigger] rest[i] != wildcard() by {
            assert(rest[i] == topic[i + 1]);
        }
        let has_w = has_below(m, wildcard());
        let has_e = has_below(m, topic[0]);
        let w = if has_w { lookup(below(m, wildcard()), rest) } else { Seq::empty() };
        let e = if has_e { lookup(below(m, topic[0]), rest) } else { Seq::empty() };
        assert(lookup(m, topic) == w + e);
        let mut iw: Seq<Seq<Seq<char>>> = Seq::empty();
        if has_w {
            iw = lemma_lookup_sources(below(m, wildcard()), rest);
        }
        let mut ie: Seq<Seq<Seq<char>>> = Seq::empty();
        if has_e {
            ie = lemma_lookup_sources(below(m, topic[0]), rest);
        }
        assert(iw.len() == w.len());
        assert(ie.len() == e.len());
        let kw = under(wildcard(), iw);
        let ke = under(topic[0], ie);
        let keys = kw + ke;
        assert forall|j: int| 0 <= j < keys.len() implies m.dom().contains(#[trigger] keys[j]) && m[keys[j]]
            == lookup(m, topic)[j] && keys[j].len() <= topic.len() && index_matches(keys[j], topic) by {
            let (q, jj, inner, vals) = if j < kw.len() {
                (wildcard(), j, iw, w)
            } else {
                (topic[0], j - kw.len(), ie, e)
            };
            assert(keys[j] == seq![q] + inner[jj]);
            assert(lookup(m, topic)[j] == vals[jj]);
            let k = keys[j];
            assert forall|i: int| 0 <= i < k.len() implies #[trigger] k[i] == wildcard() || k[i] == topic[i] by {
                if i > 0 {
                    assert(k[i] == inner[jj][i - 1]);
                    assert(rest[i - 1] == topic[i]);
                }
            }
        }
        assert forall|a: int, b: int| 0 <= a < b < keys.len() implies #[trigger] keys[a] != #[trigger] keys[b] by {
            if keys[a] == keys[b] {
                assert(keys[a][0] == keys[b][0]);
                if a < kw.len() && b >= kw.len() {
                    assert(keys[a][0] == wildcard());
                    assert(keys[b][0] == topic[0]);
                } else {
                    let (q, inner, aa, bb) = if b < kw.len() {
                        (wildcard(), iw, a, b)
                    } else {
                        (topic[0], ie, a - kw.len(), b - kw.len())
                    };
                    assert(keys[a] == seq![q] + inner[aa]);
                    assert(keys[b] == seq![q] + inner[bb]);
                    assert(inner[aa] =~= keys[a].drop_first());
                    assert(inner[bb] =~= keys[b].drop_first());
                }
            }
        }
        keys
    }
}

/// Nothing is reached in an empty trie.
pub proof fn lemma_lookup_empty<T>(topic: Seq<Seq<char>>)
    ensures
        lookup(Map::<Seq<Seq<char>>, T>::empty(), topic) == Seq::<T>::empty(),
{
    let m = Map::<Seq<Seq<char>>, T>::empty();
    assert(here(m) =~= Seq::<T>::empty());
    if topic.len() > 0 {
        assert(below(m, wildcard()).dom() =~= Set::<Seq<Seq<char>>>::empty());
        assert(below(m, topic[0]).dom() =~= Set::<Seq<Seq<char>>>::empty());
    }
}

impl<T, const VEC_CAP: usize, const STR_CAP: usize> Default for TrieIndexInternal<T, VEC_CAP, STR_CAP> {
    /// An empty trie.
    fn default() -> (r: Self)
        ensures
            r.wf(),
            r.view() == Map::<Seq<Seq<char>>, T>::empty(),
    {
        Self::new()
    }
}

/// `b` holds clones of the values of `a`, one for one.
pub open spec fn clones_of<T: Clone>(a: Seq<T>, b: Seq<T>) -> bool {
    &&& a.len() == b.len()
    &&& forall|i: int| 0 <= i < a.len() ==> cloned(a[i], #[trigger] b[i])
}

/// The levels named by `parts`, as text.
pub open spec fn path_of(parts: Seq<String>) -> Seq<Seq<char>> {
    parts.map_values(|s: String| s@)
}

impl<T, const VEC_CAP: usize, const STR_CAP: usize> TrieIndexInternal<T, VEC_CAP, STR_CAP> {
    /// An empty trie.
    pub fn new() -> (r: Self)
        ensures
            r.wf(),
            r.view() == Map::<Seq<Seq<char>>, T>::empty(),
    {
        let r = TrieIndexInternal { next: Vec::new(), value: None };
        assert(r.view() =~= Map::<Seq<Seq<char>>, T>::empty());
        r
    }

    /// Removes every value.
    pub fn clear(&mut self)
        ensures
            final(self).wf(),
            final(self).view() == Map::<Seq<Seq<char>>, T>::empty(),
    {
        self.next = Vec::new();
        self.value = None;
        assert(self.view() =~= Map::<Seq<Seq<char>>, T>::empty());
    }

    /// Stores `value` at the path `parts[pos..]` below this node.
    fn insert_next(&mut self, value: T, parts: &Vec<String>, pos: usize)
        requires
            old(self).wf(),
            pos <= parts@.len(),
        ensures
            final(self).wf(),
            final(self).view() == old(self).view().insert(path_of(parts@).skip(pos as int), value),
        decreases parts@.len() - pos,
    {
        let ghost path = path_of(parts@).skip(pos as int);
        let ghost before = *self;
        if pos == parts.len() {
            self.value = Some(value);
            proof {
                assert(path =~= Seq::<Seq<char>>::empty());
                assert forall|k: Seq<Seq<char>>| #![trigger self.view().dom().contains(k)] #![trigger before.view().insert(path, value).dom().contains(k)]
                    self.view().dom().contains(k) == before.view().insert(path, value).dom().contains(k)
                    && (self.view().dom().contains(k) ==> self.view()[k] == before.view().insert(path, value)[k]) by {
                    if k.len() == 0 {
                        assert(k =~= path);
                    } else {
                        assert(self.next == before.next);
                        assert(self.get_path(k) == before.get_path(k));
                        assert(k != path);
                    }
                }
                assert(self.view() =~= before.view().insert(path, value));
            }
            return;
        }
        let key = &parts[pos];
        assert(path[0] == key@);
        assert(path.drop_first() =~= path_of(parts@).skip(pos + 1));
        match find_key(&self.next, key) {
            Some(i) => {
                proof {
                    lemma_key_index(self.next@, key@);
                }
                self.next[i].1.insert_next(value, parts, pos + 1);
                proof {
                    assert forall|a: int, b: int| 0 <= a < b < self.next@.len() implies
                        #[trigger] self.next@[a].0@ != #[trigger] self.next@[b].0@ by {
                        assert(self.next@[a].0 == before.next@[a].0);
                        assert(self.next@[b].0 == before.next@[b].0);
                    }
                    assert forall|a: int| 0 <= a < self.next@.len() implies
                        (#[trigger] self.next@[a]).1.view().dom() != Set::<Seq<Seq<char>>>::empty() by {
                        if a == i {
                            assert(self.next@[a].1.view().dom().contains(path.drop_first()));
                        } else {
                            assert(self.next@[a] == before.next@[a]);
                        }
                    }
                    assert forall|a: int| 0 <= a < self.next@.len() implies (#[trigger] self.next@[a]).1.wf() by {
                        if a != i {
                            assert(self.next@[a] == before.next@[a]);
                        }
                    }
                    assert(forall|a: int| 0 <= a < self.next@.len() ==> #[trigger] self.next@[a].0@ == before.next@[a].0@);
                    self.lemma_same_keys_index(before);
                    assert forall|k: Seq<Seq<char>>| #![trigger self.view().dom().contains(k)] #![trigger before.view().insert(path, value).dom().contains(k)]
                        self.view().dom().contains(k) == before.view().insert(path, value).dom().contains(k)
                        && (self.view().dom().contains(k) ==> self.view()[k] == before.view().insert(path, value)[k]) by {
                        if k.len() > 0 {
                            let ci = key_index(self.next@, k[0]);
                            lemma_key_index(self.next@, k[0]);
                            self.lemma_view_step(k);
                            before.lemma_view_step(k);
                            assert(self.next@[i as int].0@ == key@);
                            if ci != i {
                                if 0 <= ci {
                                    assert(self.next@[ci] == before.next@[ci]);
                                }
                                if k == path {
                                    assert(k[0] == key@);
                                }
                            } else {
                                assert(k[0] == key@);
                                if k != path {
                                    assert(k.drop_first() != path.drop_first()) by {
                                        if k.drop_first() == path.drop_first() {
                                            lemma_same_head_tail(k, path);
                                        }
                                    }
                                }
                            }
                        } else {
                            self.lemma_view_here();
                            before.lemma_view_here();
                            assert(k =~= Seq::<Seq<char>>::empty());
                            assert(k != path);
                        }
                    }
                    assert(self.view() =~= before.view().insert(path, value));
                }
            },
            None => {
                let mut child = Self::new();
                child.insert_next(value, parts, pos + 1);
                self.next.push((key.clone(), child));
                proof {
                    lemma_key_index(before.next@, key@);
                    lemma_key_index(self.next@, key@);
                    let n = self.next@.len() - 1;
                    assert(self.next@[n].1.view().dom().contains(path.drop_first()));
                    assert forall|a: int| 0 <= a < n implies #[trigger] self.next@[a] == before.next@[a] by {}
                    assert(key_index(self.next@, key@) == n) by {
                        let ci = key_index(self.next@, key@);
                        if ci < 0 {
                            assert(self.next@[n].0@ == key@);
                        } else if ci < n {
                            assert(self.next@[ci] == before.next@[ci]);
                            assert(before.next@[ci].0@ == key@);
                        }
                    }
                    self.lemma_extended_index(before, key@);
                    assert forall|k: Seq<Seq<char>>| #![trigger self.view().dom().contains(k)] #![trigger before.view().insert(path, value).dom().contains(k)]
                        self.view().dom().contains(k) == before.view().insert(path, value).dom().contains(k)
                        && (self.view().dom().contains(k) ==> self.view()[k] == before.view().insert(path, value)[k]) by {
                        if k.len() > 0 {
                            self.lemma_view_step(k);
                            before.lemma_view_step(k);
                            if k[0] == key@ {
                                if k != path {
                                    assert(k.drop_first() != path.drop_first()) by {
                                        if k.drop_first() == path.drop_first() {
                                            lemma_same_head_tail(k, path);
                                        }
                                    }
                                }
                            } else {
                                let ci = key_index(self.next@, k[0]);
                                lemma_key_index(self.next@, k[0]);
                                if 0 <= ci {
                                    assert(self.next@[ci] == before.next@[ci]);
                                }
                            }
                        } else {
                            self.lemma_view_here();
                            before.lemma_view_here();
                            assert(k =~= Seq::<Seq<char>>::empty());
                            assert(k != path);
                        }
                    }
                    assert(self.view() =~= before.view().insert(path, value));
                }
            },
        }
    }

    /// The entries under the child for `q` are those of that child; there are
    /// none when there is no such child.
    proof fn lemma_below(self, q: Seq<char>)
        requires
            self.wf(),
        ensures
            ({
                let ci = key_index(self.next@, q);
                &&& 0 <= ci < self.next@.len() ==> below(self.view(), q) == self.next@[ci].1.view()
                    && has_below(self.view(), q)
                &&& ci < 0 ==> !has_below(self.view(), q)
            }),
    {
        let ci = key_index(self.next@, q);
        lemma_key_index(self.next@, q);
        assert forall|k: Seq<Seq<char>>| #![trigger below(self.view(), q).dom().contains(k)]
            below(self.view(), q).dom().contains(k) == (0 <= ci < self.next@.len()
                && self.next@[ci].1.view().dom().contains(k))
            && (below(self.view(), q).dom().contains(k) ==> below(self.view(), q)[k] == self.next@[ci].1.view()[k]) by {
            let full = seq![q] + k;
            assert(full.len() > 0);
            assert(full[0] == q);
            assert(full.drop_first() =~= k);
            self.lemma_view_step(full);
        }
        if 0 <= ci < self.next@.len() {
            assert(below(self.view(), q) =~= self.next@[ci].1.view());
            assert(self.next@[ci].1.view().dom() != Set::<Seq<Seq<char>>>::empty());
            if !(exists|k: Seq<Seq<char>>| self.next@[ci].1.view().dom().contains(k)) {
                assert(self.next@[ci].1.view().dom() =~= Set::<Seq<Seq<char>>>::empty());
            }
            let w = choose|k: Seq<Seq<char>>| self.next@[ci].1.view().dom().contains(k);
            assert(self.next@[ci].1.view().dom().contains(w));
            assert(below(self.view(), q).dom().contains(w));
        } else {
            assert(below(self.view(), q).dom() =~= Set::<Seq<Seq<char>>>::empty());
        }
    }

    /// A non-empty path is held exactly when the child for its first level holds the rest.
    proof fn lemma_view_step(self, k: Seq<Seq<char>>)
        requires
            k.len() > 0,
        ensures
            ({
                let ci = key_index(self.next@, k[0]);
                &&& self.view().dom().contains(k) == (0 <= ci < self.next@.len()
                    && self.next@[ci].1.view().dom().contains(k.drop_first()))
                &&& self.view().dom().contains(k) ==> self.view()[k] == self.next@[ci].1.view()[k.drop_first()]
            }),
    {
    }

    /// The empty path is held exactly when this node has a value.
    proof fn lemma_view_here(self)
        ensures
            self.view().dom().contains(Seq::empty()) == self.value is Some,
            self.value is Some ==> self.view()[Seq::empty()] == self.value->Some_0,
    {
    }

    /// Stores `value` at the index path of `topic`, replacing what was there.
    pub fn insert_and_set_at_index(&mut self, topic: &HierarchicalIndex<VEC_CAP, STR_CAP>, value: T)
        requires
            old(self).wf(),
        ensures
            final(self).wf(),
            final(self).view() == old(self).view().insert(topic@, value),
    {
        let parts = topic.parts_as_strings();
        assert(path_of(parts@).skip(0) =~= topic@);
        self.insert_next(value, &parts, 0);
    }

    /// The values that `parts[pos..]` reaches below this node.
    fn get_next(&self, parts: &Vec<String>, pos: usize) -> (r: Vec<T>) where T: Clone
        requires
            self.wf(),
            pos <= parts@.len(),
        ensures
            clones_of(lookup(self.view(), path_of(parts@).skip(pos as int)), r@),
        decreases parts@.len() - pos,
    {
        let ghost topic = path_of(parts@).skip(pos as int);
        let mut results: Vec<T> = Vec::new();
        proof {
            self.lemma_view_here();
        }
        if pos == parts.len() {
            assert(topic.len() == 0);
            if let Some(v) = &self.value {
                results.push(v.clone());
            }
            return results;
        }
        let part = &parts[pos];
        let star = crate::topic::owned("*");
        assert(topic[0] == part@);
        assert(topic.drop_first() =~= path_of(parts@).skip(pos + 1));
        proof {
            self.lemma_below(wildcard());
            self.lemma_below(part@);
            lemma_key_index(self.next@, wildcard());
            lemma_key_index(self.next@, part@);
        }
        let wildcard_found = find_key(&self.next, &star);
        let part_found = find_key(&self.next, part);
        if wildcard_found.is_none() && part_found.is_none() {
            if let Some(v) = &self.value {
                results.push(v.clone());
            }
            return results;
        }
        if let Some(i) = wildcard_found {
            let mut found = self.next[i].1.get_next(parts, pos + 1);
            results.append(&mut found);
        }
        let ghost first = results@;
        if let Some(i) = part_found {
            let mut found = self.next[i].1.get_next(parts, pos + 1);
            results.append(&mut found);
        }
        proof {
            let w = if has_below(self.view(), wildcard()) {
                lookup(below(self.view(), wildcard()), topic.drop_first())
            } else {
                Seq::empty()
            };
            let e = if has_below(self.view(), topic[0]) {
                lookup(below(self.view(), topic[0]), topic.drop_first())
            } else {
                Seq::empty()
            };
            assert(lookup(self.view(), topic) == w + e);
            assert(clones_of(w, first));
            assert forall|j: int| 0 <= j < (w + e).len() implies cloned((w + e)[j], #[trigger] results@[j]) by {
                if j >= w.len() {
                    assert((w + e)[j] == e[j - w.len()]);
                    assert(results@[j] == (results@.subrange(first.len() as int, results@.len() as int))[j - w.len()]);
                }
            }
        }
        results
    }

    /// The values that `topic` reaches: see `lookup`.
    pub fn get_at_index(&self, topic: &HierarchicalTopic<VEC_CAP, STR_CAP>) -> (r: Vec<T>) where T: Clone
        requires
            self.wf(),
        ensures
            clones_of(lookup(self.view(), topic@), r@),
    {
        let parts = topic.parts_as_strings();
        assert(path_of(parts@).skip(0) =~= topic@);
        self.get_next(&parts, 0)
    }

    /// `self` is a copy of `orig`: the same keys in the same order, children that
    /// are copies, and a clone of its value where it has one.
    pub closed spec fn is_clone_of(self, orig: Self) -> bool where T: Clone
        decreases orig,
    {
        &&& self.next@.len() == orig.next@.len()
        &&& forall|i: int| 0 <= i < orig.next@.len() ==> #[trigger] self.next@[i].0@ == orig.next@[i].0@
        &&& forall|i: int| 0 <= i < orig.next@.len() ==> (#[trigger] self.next@[i]).1.is_clone_of(orig.next@[i].1)
        &&& (self.value is Some) == (orig.value is Some)
        &&& orig.value is Some ==> cloned(orig.value->Some_0, self.value->Some_0)
    }

    /// A copy holds a value at exactly the paths the original does, each a
    /// clone of the original's.
    proof fn lemma_clone_path(self, orig: Self, path: Seq<Seq<char>>) where T: Clone
        requires
            self.is_clone_of(orig),
        ensures
            (self.get_path(path) is Some) == (orig.get_path(path) is Some),
            orig.get_path(path) is Some ==> cloned(orig.get_path(path)->Some_0, self.get_path(path)->Some_0),
        decreases path.len(),
    {
        if path.len() > 0 {
            self.lemma_same_keys_index(orig);
            let i = key_index(orig.next@, path[0]);
            lemma_key_index(orig.next@, path[0]);
            if 0 <= i < orig.next@.len() {
                self.next@[i].1.lemma_clone_path(orig.next@[i].1, path.drop_first());
            }
        }
    }

    /// A copy holds what the original holds, value for value cloned, and is
    /// well formed when the original is.
    pub proof fn lemma_clone_view(self, orig: Self) where T: Clone
        requires
            self.is_clone_of(orig),
        ensures
            self.view().dom() == orig.view().dom(),
            forall|k: Seq<Seq<char>>| #[trigger] orig.view().dom().contains(k) ==> cloned(orig.view()[k], self.view()[k]),
            orig.wf() ==> self.wf(),
        decreases orig,
    {
        assert forall|k: Seq<Seq<char>>| #![trigger orig.view().dom().contains(k)] #![trigger self.view().dom().contains(k)]
            self.view().dom().contains(k) == orig.view().dom().contains(k)
            && (orig.view().dom().contains(k) ==> cloned(orig.view()[k], self.view()[k])) by {
            self.lemma_clone_path(orig, k);
        }
        assert(self.view().dom() =~= orig.view().dom());
        if orig.wf() {
            assert forall|i: int| 0 <= i < self.next@.len() implies (#[trigger] self.next@[i]).1.wf()
                && self.next@[i].1.view().dom() != Set::<Seq<Seq<char>>>::empty() by {
                self.next@[i].1.lemma_clone_view(orig.next@[i].1);
            }
            assert forall|i: int, j: int| 0 <= i < j < self.next@.len() implies
                #[trigger] self.next@[i].0@ != #[trigger] self.next@[j].0@ by {
                assert(self.next@[i].0@ == orig.next@[i].0@);
                assert(self.next@[j].0@ == orig.next@[j].0@);
            }
        }
    }

    /// A copy of this trie, each value cloned.
    pub fn clone(&self) -> (r: Self) where T: Clone
        ensures
            r.is_clone_of(*self),
        decreases self,
    {
        let mut next: Vec<(String, Self)> = Vec::new();
        let mut i: usize = 0;
        while i < self.next.len()
            invariant
                i <= self.next@.len(),
                next@.len() == i,
                forall|j: int| 0 <= j < i ==> #[trigger] next@[j].0@ == self.next@[j].0@,
                forall|j: int| 0 <= j < i ==> (#[trigger] next@[j]).1.is_clone_of(self.next@[j].1),
            decreases self.next@.len() - i,
        {
            let child = self.next[i].1.clone();
            let key = self.next[i].0.clone();
            next.push((key, child));
            i = i + 1;
        }
        let value = match &self.value {
            Some(v) => Some(v.clone()),
            None => None,
        };
        TrieIndexInternal { next, value }
    }

    /// Children at the same positions with the same keys are found at the same positions.
    proof fn lemma_same_keys_index(self, other: Self)
        requires
            self.next@.len() == other.next@.len(),
            forall|a: int| 0 <= a < self.next@.len() ==> #[trigger] self.next@[a].0@ == other.next@[a].0@,
        ensures
            forall|q: Seq<char>| #[trigger] key_index(self.next@, q) == key_index(other.next@, q),
    {
        assert forall|q: Seq<char>| #[trigger] key_index(self.next@, q) == key_index(other.next@, q) by {
            lemma_key_index(self.next@, q);
            lemma_key_index(other.next@, q);
            let x = key_index(self.next@, q);
            let y = key_index(other.next@, q);
            if x >= 0 && y >= 0 && x < y {
                assert(other.next@[x].0@ == q);
            }
            if x >= 0 && y >= 0 && y < x {
                assert(self.next@[y].0@ == q);
            }
            if x >= 0 && y < 0 {
                assert(other.next@[x].0@ == q);
            }
            if y >= 0 && x < 0 {
                assert(self.next@[y].0@ == q);
            }
        }
    }

    /// After one child was appended, other keys are found where they were before.
    proof fn lemma_extended_index(self, before: Self, key: Seq<char>)
        requires
            self.next@.len() == before.next@.len() + 1,
            forall|a: int| 0 <= a < before.next@.len() ==> #[trigger] self.next@[a] == before.next@[a],
            self.next@.last().0@ == key,
        ensures
            forall|q: Seq<char>| q != key ==> #[trigger] key_index(self.next@, q) == key_index(before.next@, q),
    {
        assert forall|q: Seq<char>| q != key implies #[trigger] key_index(self.next@, q) == key_index(before.next@, q) by {
            lemma_key_index(self.next@, q);
            lemma_key_index(before.next@, q);
            let x = key_index(self.next@, q);
            let y = key_index(before.next@, q);
            if x >= 0 && y >= 0 && x < y {
                assert(before.next@[x].0@ == q);
            }
            if x >= 0 && y >= 0 && y < x {
                assert(self.next@[y].0@ == q);
            }
            if x >= 0 && y < 0 {
                assert(x < before.next@.len());
                assert(before.next@[x].0@ == q);
            }
            if y >= 0 && x < 0 {
                assert(self.next@[y].0@ == q);
            }
        }
    }
}

} // verus!
