//! Messages: a payload with a header that carries the message's type and
//! optional metadata, whose keys and values are cut to 16 and 24 bytes.

use vstd::prelude::*;
use vstd::utf8::{decode_utf8, encode_utf8, is_char_boundary};

use crate::text::{byte_len, find_key, key_index, lemma_key_index, utf8_len};
use crate::topic::owned;

verus! {

/// Largest number of bytes of a metadata key.
pub const META_KEY_CAP: usize = 16;

/// Largest number of bytes of a metadata value.
pub const META_VALUE_CAP: usize = 24;

/// `s` cut to its first `n` bytes when it is longer.
pub open spec fn truncated(s: Seq<char>, n: nat) -> Seq<char> {
    if utf8_len(s) > n {
        decode_utf8(encode_utf8(s).subrange(0, n as int))
    } else {
        s
    }
}

/// Whether `s` can be cut to `n` bytes without splitting a character (always,
/// when it is no longer than that).
pub open spec fn cuttable(s: Seq<char>, n: nat) -> bool {
    utf8_len(s) > n ==> is_char_boundary(encode_utf8(s), n as int)
}

/// `s` cut to its first `n` bytes when it is longer.
pub fn truncate(s: &str, n: usize) -> (r: &str)
    requires
        cuttable(s@, n as nat),
    ensures
        r@ == truncated(s@, n as nat),
        utf8_len(r@) <= n,
{
    if byte_len(s) > n {
        let (a, _b) = s.split_at(n);
        proof {
            vstd::utf8::encode_utf8_decode_utf8(a@);
        }
        a
    } else {
        s
    }
}

/// The kind of a message.
#[derive(Debug, Clone, Copy, PartialEq, Eq, Structural)]
pub enum MessageType {
    Data,
    Error,
    Empty,
}

/// Metadata of a message: keys of at most 16 bytes, each with a value of at
/// most 24 bytes.
#[derive(Debug)]
pub struct MessageMeta {
    entries: Vec<(String, String)>,
}

impl View for MessageMeta {
    type V = Map<Seq<char>, Seq<char>>;

    closed spec fn view(&self) -> Map<Seq<char>, Seq<char>> {
        Map::new(
            |k: Seq<char>| key_index(self.entries@, k) >= 0,
            |k: Seq<char>| self.entries@[key_index(self.entries@, k)].1@,
        )
    }
}

impl Clone for MessageMeta {
    /// The same keys with the same values, in the same order.
    fn clone(&self) -> (r: Self)
        ensures
            r@ == self@,
    {
        proof {
            use_type_invariant(self);
        }
        let mut entries: Vec<(String, String)> = Vec::new();
        let mut i: usize = 0;
        while i < self.entries.len()
            invariant
                i <= self.entries@.len(),
                entries@.len() == i,
                forall|j: int| 0 <= j < i ==> (#[trigger] entries@[j]).0@ == self.entries@[j].0@
                    && entries@[j].1@ == self.entries@[j].1@,
            decreases self.entries@.len() - i,
        {
            let key = self.entries[i].0.clone();
            let value = self.entries[i].1.clone();
            entries.push((key, value));
            i = i + 1;
        }
        proof {
            assert forall|k: Seq<char>| #[trigger] key_index(entries@, k) == key_index(self.entries@, k) by {
                lemma_key_index(entries@, k);
                lemma_key_index(self.entries@, k);
                let x = key_index(entries@, k);
                let y = key_index(self.entries@, k);
                if x >= 0 && y >= 0 && x < y {
                    assert(self.entries@[x].0@ == k);
                }
                if x >= 0 && y >= 0 && y < x {
                    assert(entries@[y].0@ == k);
                }
                if x >= 0 && y < 0 {
                    assert(self.entries@[x].0@ == k);
                }
                if y >= 0 && x < 0 {
                    assert(entries@[y].0@ == k);
                }
            }
        }
        let ghost copied = entries@;
        let r = MessageMeta { entries };
        assert forall|k: Seq<char>| #![trigger r@.dom().contains(k)]
            r@.dom().contains(k) == self@.dom().contains(k) && (r@.dom().contains(k) ==> r@[k] == self@[k]) by {
            assert(key_index(copied, k) == key_index(self.entries@, k));
            lemma_key_index(self.entries@, k);
        }
        assert(r@ =~= self@);
        r
    }
}

/// Keys are distinct and fit their capacities, and so do values.
pub open spec fn meta_entries_ok(entries: Seq<(String, String)>) -> bool {
    &&& forall|i: int, j: int| 0 <= i < j < entries.len() ==> #[trigger] entries[i].0@ != #[trigger] entries[j].0@
    &&& forall|i: int| 0 <= i < entries.len() ==> utf8_len((#[trigger] entries[i]).0@) <= META_KEY_CAP
    &&& forall|i: int| 0 <= i < entries.len() ==> utf8_len((#[trigger] entries[i]).1@) <= META_VALUE_CAP
}

/// Every key and value of a metadata map fits its capacity.
pub open spec fn meta_fits(m: Map<Seq<char>, Seq<char>>) -> bool {
    forall|k: Seq<char>| #[trigger] m.dom().contains(k) ==> utf8_len(k) <= META_KEY_CAP
        && utf8_len(m[k]) <= META_VALUE_CAP
}

impl MessageMeta {
    #[verifier::type_invariant]
    closed spec fn inv(self) -> bool {
        meta_entries_ok(self.entries@)
    }

    /// The keys, in the order they were first inserted.
    pub closed spec fn key_order(self) -> Seq<Seq<char>> {
        self.entries@.map_values(|e: (String, String)| e.0@)
    }

    /// No metadata.
    pub fn new() -> (r: Self)
        ensures
            r@ == Map::<Seq<char>, Seq<char>>::empty(),
    {
        let r = MessageMeta { entries: Vec::new() };
        assert(r@ =~= Map::<Seq<char>, Seq<char>>::empty());
        r
    }

    /// Sets `key` to `value`, each first cut to its capacity in bytes.
    pub fn insert(&mut self, key: &str, value: &str)
        requires
            cuttable(key@, META_KEY_CAP as nat),
            cuttable(value@, META_VALUE_CAP as nat),
        ensures
            final(self)@ == old(self)@.insert(
                truncated(key@, META_KEY_CAP as nat),
                truncated(value@, META_VALUE_CAP as nat),
            ),
    {
        proof {
            use_type_invariant(&*self);
        }
        let k = owned(truncate(key, META_KEY_CAP));
        let v = owned(truncate(value, META_VALUE_CAP));
        let ghost before = self@;
        let mut entries: Vec<(String, String)> = Vec::new();
        std::mem::swap(&mut entries, &mut self.entries);
        let ghost old_entries = entries@;
        assert(meta_entries_ok(old_entries));
        proof {
            lemma_key_index(old_entries, k@);
        }
        match find_key(&entries, &k) {
            Some(i) => {
                entries.set(i, (k, v));
                proof {
                    assert forall|q: Seq<char>| #[trigger] key_index(entries@, q) == key_index(old_entries, q) by {
                        lemma_key_index(entries@, q);
                        lemma_key_index(old_entries, q);
                        let x = key_index(entries@, q);
                        let y = key_index(old_entries, q);
                        if x >= 0 && y >= 0 && x < y {
                            assert(old_entries[x].0@ == q);
                        }
                        if x >= 0 && y >= 0 && y < x {
                            assert(entries@[y].0@ == q);
                        }
                        if x >= 0 && y < 0 {
                            assert(old_entries[x].0@ == q);
                        }
                        if y >= 0 && x < 0 {
                            assert(entries@[y].0@ == q);
                        }
                    }
                }
            },
            None => {
                entries.push((k, v));
                proof {
                    let n = old_entries.len() as int;
                    assert forall|q: Seq<char>| #![trigger key_index(entries@, q)]
                        key_index(entries@, q) == if q == k@ { n } else { key_index(old_entries, q) } by {
                        lemma_key_index(entries@, q);
                        lemma_key_index(old_entries, q);
                        let x = key_index(entries@, q);
                        let y = key_index(old_entries, q);
                        if x >= 0 && x < n {
                            assert(entries@[x] == old_entries[x]);
                        }
                        if y >= 0 {
                            assert(entries@[y] == old_entries[y]);
                        }
                        if q == k@ && x < 0 {
                            assert(entries@[n].0@ == q);
                        }
                        if q != k@ && x < 0 && y >= 0 {
                            assert(entries@[y].0@ == q);
                        }
                        if q != k@ && x == n {
                            assert(entries@[n].0@ == k@);
                        }
                    }
                }
            },
        }
        let ghost nm = Map::new(
            |q: Seq<char>| key_index(entries@, q) >= 0,
            |q: Seq<char>| entries@[key_index(entries@, q)].1@,
        );
        proof {
            assert forall|q: Seq<char>| #![trigger before.insert(k@, v@).dom().contains(q)]
                (key_index(entries@, q) >= 0) == before.insert(k@, v@).dom().contains(q)
                && (key_index(entries@, q) >= 0 ==> entries@[key_index(entries@, q)].1@
                    == before.insert(k@, v@)[q]) by {
                lemma_key_index(entries@, q);
                lemma_key_index(old_entries, q);
                let x = key_index(entries@, q);
                if x >= 0 && q != k@ {
                    assert(entries@[x] == old_entries[x]);
                }
            }
        }
        assert(before =~= Map::new(
            |q: Seq<char>| key_index(old_entries, q) >= 0,
            |q: Seq<char>| old_entries[key_index(old_entries, q)].1@,
        ));
        assert(forall|q: Seq<char>| nm.dom().contains(q) == before.insert(k@, v@).dom().contains(q));
        assert(forall|q: Seq<char>| nm.dom().contains(q) ==> nm[q] == before.insert(k@, v@)[q]);
        assert(nm =~= before.insert(k@, v@));
        self.entries = entries;
        assert(self@ == nm);
    }

    /// The value of `key`, if it is present.
    pub fn get(&self, key: &str) -> (r: Option<&str>)
        ensures
            match r {
                Some(v) => self@.dom().contains(key@) && v@ == self@[key@],
                None => !self@.dom().contains(key@),
            },
    {
        let k = owned(key);
        proof {
            lemma_key_index(self.entries@, k@);
        }
        match find_key(&self.entries, &k) {
            Some(i) => Some(self.entries[i].1.as_str()),
            None => None,
        }
    }

    /// The keys, each once.
    pub fn keys(&self) -> (r: Vec<&str>)
        ensures
            forall|i: int| 0 <= i < r@.len() ==> self@.dom().contains(#[trigger] r@[i]@),
            forall|k: Seq<char>| self@.dom().contains(k) ==> exists|i: int| 0 <= i < r@.len() && #[trigger] r@[i]@ == k,
            forall|i: int, j: int| 0 <= i < j < r@.len() ==> #[trigger] r@[i]@ != #[trigger] r@[j]@,
    {
        proof {
            use_type_invariant(self);
        }
        let mut r: Vec<&str> = Vec::new();
        let mut i: usize = 0;
        while i < self.entries.len()
            invariant
                0 <= i <= self.entries@.len(),
                meta_entries_ok(self.entries@),
                r@.len() == i,
                forall|j: int| 0 <= j < i ==> #[trigger] r@[j]@ == self.entries@[j].0@,
            decreases self.entries@.len() - i,
        {
            r.push(self.entries[i].0.as_str());
            i = i + 1;
        }
        proof {
            assert forall|j: int| 0 <= j < r@.len() implies self@.dom().contains(#[trigger] r@[j]@) by {
                lemma_key_index(self.entries@, r@[j]@);
            }
            assert forall|k: Seq<char>| self@.dom().contains(k) implies exists|j: int| 0 <= j < r@.len() && #[trigger] r@[j]@ == k by {
                lemma_key_index(self.entries@, k);
                let j = key_index(self.entries@, k);
                assert(r@[j]@ == k);
            }
        }
        r
    }

    /// Removes `key`, giving back its value if it was present.
    pub fn remove(self, key: &str) -> (r: Option<String>)
        ensures
            match r {
                Some(v) => self@.dom().contains(key@) && v@ == self@[key@],
                None => !self@.dom().contains(key@),
            },
    {
        let k = owned(key);
        proof {
            lemma_key_index(self.entries@, k@);
        }
        match find_key(&self.entries, &k) {
            Some(i) => {
                let mut entries = self.entries;
                let (_key, v) = entries.remove(i);
                Some(v)
            },
            None => None,
        }
    }
}

/// What can go wrong when a message is built.
#[derive(Debug)]
pub enum MessageError {
    CreationError(String),
}

impl MessageError {
    /// Renders the error as text.
    pub fn to_string(&self) -> (r: String)
        ensures
            r@ == match self {
                MessageError::CreationError(m) => "Invalid topic: "@ + m@,
            },
    {
        match self {
            MessageError::CreationError(m) => {
                let mut r = owned("Invalid topic: ");
                r.append(m.as_str());
                r
            },
        }
    }
}

/// A header's metadata after setting `key` to `value` (cut to their capacities).
pub open spec fn with_meta(
    meta: Option<Map<Seq<char>, Seq<char>>>,
    key: Seq<char>,
    value: Seq<char>,
) -> Option<Map<Seq<char>, Seq<char>>> {
    let base = match meta {
        Some(m) => m,
        None => Map::empty(),
    };
    Some(base.insert(truncated(key, META_KEY_CAP as nat), truncated(value, META_VALUE_CAP as nat)))
}

/// Metadata read back after a key is set: the key, cut to 16 bytes, maps to
/// the value, cut to 24 bytes; every other key keeps what it had; a key or a
/// value that already fits is kept as it is.
pub proof fn lemma_meta_read_after_write(
    meta: Option<Map<Seq<char>, Seq<char>>>,
    key: Seq<char>,
    value: Seq<char>,
    other: Seq<char>,
)
    ensures
        with_meta(meta, key, value) is Some,
        with_meta(meta, key, value)->Some_0.dom().contains(truncated(key, META_KEY_CAP as nat)),
        with_meta(meta, key, value)->Some_0[truncated(key, META_KEY_CAP as nat)]
            == truncated(value, META_VALUE_CAP as nat),
        other != truncated(key, META_KEY_CAP as nat) ==> (with_meta(meta, key, value)->Some_0.dom().contains(other)
            <==> (meta is Some && meta->Some_0.dom().contains(other))),
        other != truncated(key, META_KEY_CAP as nat) && meta is Some && meta->Some_0.dom().contains(other)
            ==> with_meta(meta, key, value)->Some_0[other] == meta->Some_0[other],
        utf8_len(key) <= META_KEY_CAP ==> truncated(key, META_KEY_CAP as nat) == key,
        utf8_len(value) <= META_VALUE_CAP ==> truncated(value, META_VALUE_CAP as nat) == value,
{
}

/// Sets `key` to `value` in `meta`, creating the metadata when there is none.
fn add_to_meta(meta: Option<MessageMeta>, key: &str, value: &str) -> (r: MessageMeta)
    requires
        cuttable(key@, META_KEY_CAP as nat),
        cuttable(value@, META_VALUE_CAP as nat),
    ensures
        Some(r@) == with_meta(
            match meta {
                Some(m) => Some(m@),
                None => None,
            },
            key@,
            value@,
        ),
{
    let mut m = match meta {
        Some(m) => m,
        None => MessageMeta::new(),
    };
    m.insert(key, value);
    m
}

/// The header of a message: its type and optional metadata.
#[derive(Debug)]
pub struct MessageHeader {
    message_type: MessageType,
    message_meta: Option<MessageMeta>,
}

impl View for MessageHeader {
    type V = (MessageType, Option<Map<Seq<char>, Seq<char>>>);

    closed spec fn view(&self) -> (MessageType, Option<Map<Seq<char>, Seq<char>>>) {
        (
            self.message_type,
            match self.message_meta {
                Some(m) => Some(m@),
                None => None,
            },
        )
    }
}

impl MessageHeader {
    /// A header of the given type, without metadata.
    pub fn new(message_type: MessageType) -> (r: Self)
        ensures
            r@ == (message_type, None::<Map<Seq<char>, Seq<char>>>),
    {
        Self { message_type, message_meta: None }
    }

    /// A header of the given type with the given metadata.
    pub fn new_with_meta(message_type: MessageType, message_meta: MessageMeta) -> (r: Self)
        ensures
            r@ == (message_type, Some(message_meta@)),
    {
        Self { message_type, message_meta: Some(message_meta) }
    }

    /// The type of the message.
    pub fn message_type(&self) -> (r: &MessageType)
        ensures
            *r == self@.0,
    {
        &self.message_type
    }

    /// The type of the message, taking the header.
    pub fn into_message_type(self) -> (r: MessageType)
        ensures
            r == self@.0,
    {
        self.message_type
    }

    /// The metadata value of `key`, if any.
    pub fn meta_by_key(&self, key: &str) -> (r: Option<&str>)
        ensures
            match self@.1 {
                Some(m) => match r {
                    Some(v) => m.dom().contains(key@) && v@ == m[key@],
                    None => !m.dom().contains(key@),
                },
                None => r is None,
            },
    {
        match &self.message_meta {
            Some(m) => m.get(key),
            None => None,
        }
    }

    /// The metadata keys, each once (none without metadata).
    pub fn meta_keys(&self) -> (r: Vec<&str>)
        ensures
            forall|i: int, j: int| 0 <= i < j < r@.len() ==> #[trigger] r@[i]@ != #[trigger] r@[j]@,
            match self@.1 {
                Some(m) => (forall|i: int| 0 <= i < r@.len() ==> m.dom().contains(#[trigger] r@[i]@))
                    && (forall|k: Seq<char>| m.dom().contains(k) ==> exists|i: int| 0 <= i < r@.len() && #[trigger] r@[i]@ == k),
                None => r@.len() == 0,
            },
    {
        match &self.message_meta {
            Some(m) => m.keys(),
            None => Vec::new(),
        }
    }

    /// The metadata, taking the header.
    pub fn into_meta(self) -> (r: Option<MessageMeta>)
        ensures
            match r {
                Some(m) => self@.1 == Some(m@),
                None => self@.1 is None,
            },
    {
        self.message_meta
    }

    /// The metadata value of `key`, taking the header.
    pub fn into_meta_by_key(self, key: &str) -> (r: Option<String>)
        ensures
            match self@.1 {
                Some(m) => match r {
                    Some(v) => m.dom().contains(key@) && v@ == m[key@],
                    None => !m.dom().contains(key@),
                },
                None => r is None,
            },
    {
        match self.message_meta {
            Some(m) => m.remove(key),
            None => None,
        }
    }

    /// The header with `key` set to `value`, each cut to its capacity in bytes
    /// (16 for keys, 24 for values); metadata is created when there is none.
    pub fn add_meta(self, key: &str, value: &str) -> (r: Self)
        requires
            cuttable(key@, META_KEY_CAP as nat),
            cuttable(value@, META_VALUE_CAP as nat),
        ensures
            r@ == (self@.0, with_meta(self@.1, key@, value@)),
    {
        let meta = add_to_meta(self.message_meta, key, value);
        Self { message_type: self.message_type, message_meta: Some(meta) }
    }
}

impl Clone for MessageHeader {
    /// The same type and the same metadata.
    fn clone(&self) -> (r: Self)
        ensures
            r@ == self@,
    {
        let message_meta = match &self.message_meta {
            Some(m) => Some(m.clone()),
            None => None,
        };
        MessageHeader { message_type: self.message_type, message_meta }
    }
}

/// A message: a header and a payload.
#[derive(Debug)]
pub struct Message<T: Clone + Send + Sync> {
    header: MessageHeader,
    payload: T,
}

impl<T: Clone + Send + Sync> Clone for Message<T> {
    /// The same header, and a clone of the payload.
    fn clone(&self) -> (r: Self)
        ensures
            r.head() == self.head(),
            cloned(self.body(), r.body()),
    {
        Message { header: self.header.clone(), payload: self.payload.clone() }
    }
}

impl<T: Clone + Send + Sync> Message<T> {
    /// The header of the message.
    pub closed spec fn head(self) -> (MessageType, Option<Map<Seq<char>, Seq<char>>>) {
        self.header@
    }

    /// The payload of the message.
    pub closed spec fn body(self) -> T {
        self.payload
    }

    /// A message with the given header and payload.
    pub fn new(header: MessageHeader, payload: T) -> (r: Self)
        ensures
            r.head() == header@,
            r.body() == payload,
    {
        Self { header, payload }
    }

    /// A data message without metadata.
    pub fn new_data(payload: T) -> (r: Self)
        ensures
            r.head() == (MessageType::Data, None::<Map<Seq<char>, Seq<char>>>),
            r.body() == payload,
    {
        Self { header: MessageHeader::new(MessageType::Data), payload }
    }

    /// An error message without metadata.
    pub fn new_error(payload: T) -> (r: Self)
        ensures
            r.head() == (MessageType::Error, None::<Map<Seq<char>, Seq<char>>>),
            r.body() == payload,
    {
        Self { header: MessageHeader::new(MessageType::Error), payload }
    }

    /// An empty message without metadata.
    pub fn new_empty(payload: T) -> (r: Self)
        ensures
            r.head() == (MessageType::Empty, None::<Map<Seq<char>, Seq<char>>>),
            r.body() == payload,
    {
        Self { header: MessageHeader::new(MessageType::Empty), payload }
    }

    /// The payload.
    pub fn payload(&self) -> (r: &T)
        ensures
            *r == self.body(),
    {
        &self.payload
    }

    /// The payload, taking the message.
    pub fn into_payload(self) -> (r: T)
        ensures
            r == self.body(),
    {
        self.payload
    }

    /// The type of the message.
    pub fn message_type(&self) -> (r: &MessageType)
        ensures
            *r == self.head().0,
    {
        self.header.message_type()
    }

    /// The type of the message, taking it.
    pub fn into_message_type(self) -> (r: MessageType)
        ensures
            r == self.head().0,
    {
        self.header.into_message_type()
    }

    /// The metadata value of `key`, if any.
    pub fn meta_by_key(&self, key: &str) -> (r: Option<&str>)
        ensures
            match self.head().1 {
                Some(m) => match r {
                    Some(v) => m.dom().contains(key@) && v@ == m[key@],
                    None => !m.dom().contains(key@),
                },
                None => r is None,
            },
    {
        self.header.meta_by_key(key)
    }

    /// The metadata keys, each once (none without metadata).
    pub fn meta_keys(&self) -> (r: Vec<&str>)
        ensures
            forall|i: int, j: int| 0 <= i < j < r@.len() ==> #[trigger] r@[i]@ != #[trigger] r@[j]@,
            match self.head().1 {
                Some(m) => (forall|i: int| 0 <= i < r@.len() ==> m.dom().contains(#[trigger] r@[i]@))
                    && (forall|k: Seq<char>| m.dom().contains(k) ==> exists|i: int| 0 <= i < r@.len() && #[trigger] r@[i]@ == k),
                None => r@.len() == 0,
            },
    {
        self.header.meta_keys()
    }

    /// The metadata, taking the message.
    pub fn into_meta(self) -> (r: Option<MessageMeta>)
        ensures
            match r {
                Some(m) => self.head().1 == Some(m@),
                None => self.head().1 is None,
            },
    {
        self.header.into_meta()
    }

    /// The metadata value of `key`, taking the message.
    pub fn into_meta_by_key(self, key: &str) -> (r: Option<String>)
        ensures
            match self.head().1 {
                Some(m) => match r {
                    Some(v) => m.dom().contains(key@) && v@ == m[key@],
                    None => !m.dom().contains(key@),
                },
                None => r is None,
            },
    {
        self.header.into_meta_by_key(key)
    }
}

/// Builds a message step by step.
pub struct MessageBuilder<T: Clone + Send + Sync> {
    message_type: MessageType,
    message_meta: Option<MessageMeta>,
    payload: T,
}

impl<T: Clone + Send + Sync> MessageBuilder<T> {
    /// The header the message will have.
    pub closed spec fn head(self) -> (MessageType, Option<Map<Seq<char>, Seq<char>>>) {
        (
            self.message_type,
            match self.message_meta {
                Some(m) => Some(m@),
                None => None,
            },
        )
    }

    /// The payload the message will have.
    pub closed spec fn body(self) -> T {
        self.payload
    }

    fn new(payload: T, message_type: MessageType) -> (r: Result<Self, MessageError>)
        ensures
            r matches Ok(b) && b.head() == (message_type, None::<Map<Seq<char>, Seq<char>>>)
                && b.body() == payload,
    {
        Ok(Self { message_type, message_meta: None, payload })
    }

    /// A builder of the given type, without metadata.
    pub fn new_from_topic(payload: T, message_type: MessageType) -> (r: Self)
        ensures
            r.head() == (message_type, None::<Map<Seq<char>, Seq<char>>>),
            r.body() == payload,
    {
        Self { message_type, message_meta: None, payload }
    }

    /// A builder that starts from an existing message.
    pub fn new_from_message(message: Message<T>) -> (r: Self)
        ensures
            r.head() == message.head(),
            r.body() == message.body(),
    {
        Self {
            message_type: message.header.message_type,
            message_meta: message.header.message_meta,
            payload: message.payload,
        }
    }

    /// A builder of a data message (always built).
    pub fn new_data(payload: T) -> (r: Result<Self, MessageError>)
        ensures
            r matches Ok(b) && b.head() == (MessageType::Data, None::<Map<Seq<char>, Seq<char>>>)
                && b.body() == payload,
    {
        Self::new(payload, MessageType::Data)
    }

    /// A builder of a data message.
    pub fn new_data_from_topic(payload: T) -> (r: Self)
        ensures
            r.head() == (MessageType::Data, None::<Map<Seq<char>, Seq<char>>>),
            r.body() == payload,
    {
        Self::new_from_topic(payload, MessageType::Data)
    }

    /// A builder of an empty message (always built).
    pub fn new_empty(payload: T) -> (r: Result<Self, MessageError>)
        ensures
            r matches Ok(b) && b.head() == (MessageType::Empty, None::<Map<Seq<char>, Seq<char>>>)
                && b.body() == payload,
    {
        Self::new(payload, MessageType::Empty)
    }

    /// A builder of an error message (always built).
    pub fn new_error(payload: T) -> (r: Result<Self, MessageError>)
        ensures
            r matches Ok(b) && b.head() == (MessageType::Error, None::<Map<Seq<char>, Seq<char>>>)
                && b.body() == payload,
    {
        Self::new(payload, MessageType::Error)
    }

    /// Sets `key` to `value`, each cut to its capacity in bytes.
    pub fn add_meta(self, key: &str, value: &str) -> (r: Self)
        requires
            cuttable(key@, META_KEY_CAP as nat),
            cuttable(value@, META_VALUE_CAP as nat),
        ensures
            r.head() == (self.head().0, with_meta(self.head().1, key@, value@)),
            r.body() == self.body(),
    {
        let meta = add_to_meta(self.message_meta, key, value);
        Self { message_type: self.message_type, message_meta: Some(meta), payload: self.payload }
    }

    /// The message.
    pub fn build(self) -> (r: Message<T>)
        ensures
            r.head() == self.head(),
            r.body() == self.body(),
    {
        Message {
            header: MessageHeader { message_type: self.message_type, message_meta: self.message_meta },
            payload: self.payload,
        }
    }
}

} // verus!
