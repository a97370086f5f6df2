//! Hierarchical indices: dot-separated patterns over topics, where a part is
//! either an alphanumeric string or the wildcard `*`, which matches any part.

use vstd::prelude::*;

use crate::text::{
    all_alphanumeric, byte_len, is_alphanumeric, join_dots, lemma_join_push, lemma_split_dots_nonempty,
    split_dots, split_on_dots, utf8_len,
};
use crate::topic::{join_strings_with_dots, owned, HierarchicalTopic};

verus! {

/// The text of the wildcard part.
pub open spec fn wildcard() -> Seq<char> {
    "*"@
}

/// A part of an index: the wildcard, or alphanumeric characters (possibly none).
pub open spec fn valid_index_part(p: Seq<char>) -> bool {
    p == wildcard() || all_alphanumeric(p)
}

/// A part that fits in `cap` bytes (the wildcard always does).
pub open spec fn index_part_fits(p: Seq<char>, cap: nat) -> bool {
    p == wildcard() || utf8_len(p) <= cap
}

/// The parts of a well-formed index.
pub open spec fn valid_index_parts(parts: Seq<Seq<char>>, depth: nat, cap: nat) -> bool {
    &&& parts.len() <= depth
    &&& forall|i: int| 0 <= i < parts.len() ==> #[trigger] valid_index_part(parts[i])
    &&& forall|i: int| 0 <= i < parts.len() ==> index_part_fits(#[trigger] parts[i], cap)
}

/// Index of the first part that is invalid or does not fit (`parts.len()` when none).
pub open spec fn first_bad_index_part(parts: Seq<Seq<char>>, cap: nat) -> int
    decreases parts.len(),
{
    if parts.len() == 0 {
        0
    } else if !(valid_index_part(parts[0]) && index_part_fits(parts[0], cap)) {
        0
    } else {
        1 + first_bad_index_part(parts.drop_first(), cap)
    }
}

/// Whether an index (by its parts) matches a topic (by its parts): each index
/// part is the wildcard or equals the topic's part at the same position.
pub open spec fn index_matches(index: Seq<Seq<char>>, topic: Seq<Seq<char>>) -> bool {
    forall|i: int| 0 <= i < index.len() ==> #[trigger] index[i] == wildcard() || index[i] == topic[i]
}

/// Message of the error for an invalid root.
pub open spec fn index_root_message() -> Seq<char> {
    "Root index must be non-empty, alphanumeric or wildcard"@
}

/// Message of the error for an invalid part.
pub open spec fn index_part_message() -> Seq<char> {
    "Index part must be non-empty, alphanumeric or wildcard"@
}

/// Whether `s` is the wildcard `*`.
pub fn is_wildcard(s: &str) -> (r: bool)
    ensures
        r == (s@ == wildcard()),
{
    proof {
        reveal_strlit("*");
    }
    if s.unicode_len() != 1 {
        return false;
    }
    let c = s.get_char(0);
    assert(c == '*' ==> s@ =~= wildcard());
    c == '*'
}

/// Whether every character of `s` is alphanumeric.
fn is_all_alphanumeric(s: &str) -> (r: bool)
    ensures
        r == all_alphanumeric(s@),
{
    for c in it: s.chars()
        invariant
            it.seq() == s@,
            forall|j: int| 0 <= j < it.index() ==> crate::text::char_is_alphanumeric(#[trigger] s@[j]),
    {
        if !is_alphanumeric(c) {
            return false;
        }
    }
    true
}

/// Whether `part` may be a part of an index.
fn is_valid_index_part(part: &str) -> (r: bool)
    ensures
        r == valid_index_part(part@),
{
    if is_wildcard(part) {
        return true;
    }
    is_all_alphanumeric(part)
}

/// One level of an index.
#[derive(PartialEq, Eq, Hash, Debug)]
pub enum IndexLevel<const CAP: usize> {
    String(String),
    Wildcard,
}

/// What can go wrong when a level is built.
#[derive(Debug)]
pub enum IndexLevelError {
    PartCapacityExceeded,
}

impl IndexLevelError {
    /// Renders the error as text.
    pub fn to_string(&self) -> (r: String)
        ensures
            r@ == "Capacity exceeded for part"@,
    {
        owned("Capacity exceeded for part")
    }
}

impl<const CAP: usize> IndexLevel<CAP> {
    /// The text of the level: its string, or `*` for the wildcard.
    pub open spec fn text(&self) -> Seq<char> {
        match self {
            IndexLevel::String(s) => s@,
            IndexLevel::Wildcard => wildcard(),
        }
    }

    /// The wildcard for `*`, else the string itself when it fits in `CAP` bytes.
    pub fn from_str(s: &str) -> (r: Result<Self, IndexLevelError>)
        ensures
            s@ == wildcard() ==> r == Ok::<Self, IndexLevelError>(IndexLevel::Wildcard),
            s@ != wildcard() && utf8_len(s@) > CAP ==> r is Err,
            s@ != wildcard() && utf8_len(s@) <= CAP ==> (r matches Ok(IndexLevel::String(t))
                && t@ == s@),
    {
        if is_wildcard(s) {
            return Ok(IndexLevel::Wildcard);
        }
        if byte_len(s) > CAP {
            return Err(IndexLevelError::PartCapacityExceeded);
        }
        Ok(IndexLevel::String(owned(s)))
    }

    /// A copy of the level.
    pub fn clone(&self) -> (r: Self)
        ensures
            r == *self,
    {
        match self {
            IndexLevel::String(s) => IndexLevel::String(s.clone()),
            IndexLevel::Wildcard => IndexLevel::Wildcard,
        }
    }

    /// The level as text (what converting it into a `String` gives).
    pub fn into_string(self) -> (r: String)
        ensures
            r@ == self.text(),
    {
        match self {
            IndexLevel::String(s) => s,
            IndexLevel::Wildcard => owned("*"),
        }
    }
}

/// What can go wrong when an index is built.
#[derive(Debug)]
pub enum HierarchicalIndexError {
    MaxDepthExceeded,
    PartCapacityExceeded,
    InvalidFormat(String),
}

impl HierarchicalIndexError {
    /// The text of the error.
    pub open spec fn message(&self) -> Seq<char> {
        match self {
            HierarchicalIndexError::MaxDepthExceeded => "Maximum index depth exceeded"@,
            HierarchicalIndexError::PartCapacityExceeded => "Capacity exceeded for part"@,
            HierarchicalIndexError::InvalidFormat(m) => "Invalid format: "@ + m@,
        }
    }

    /// Renders the error as text.
    pub fn to_string(&self) -> (r: String)
        ensures
            r@ == self.message(),
    {
        match self {
            HierarchicalIndexError::MaxDepthExceeded => owned("Maximum index depth exceeded"),
            HierarchicalIndexError::PartCapacityExceeded => owned("Capacity exceeded for part"),
            HierarchicalIndexError::InvalidFormat(m) => {
                let mut r = owned("Invalid format: ");
                r.append(m.as_str());
                r
            },
        }
    }
}

/// A level kept by an index: the wildcard, or a non-wildcard alphanumeric
/// string within `cap` bytes.
pub open spec fn level_ok<const CAP: usize>(l: IndexLevel<CAP>) -> bool {
    match l {
        IndexLevel::String(s) => s@ != wildcard() && all_alphanumeric(s@) && utf8_len(s@) <= CAP,
        IndexLevel::Wildcard => true,
    }
}

/// An index such as `sensors.*.temperature`.
#[derive(PartialEq, Eq, Hash, Debug)]
pub struct HierarchicalIndex<const VEC_CAP: usize, const STR_CAP: usize> {
    index_parts: Vec<IndexLevel<STR_CAP>>,
}

impl<const VEC_CAP: usize, const STR_CAP: usize> View for HierarchicalIndex<VEC_CAP, STR_CAP> {
    type V = Seq<Seq<char>>;

    closed spec fn view(&self) -> Seq<Seq<char>> {
        self.index_parts@.map_values(|l: IndexLevel<STR_CAP>| l.text())
    }
}

impl<const VEC_CAP: usize, const STR_CAP: usize> HierarchicalIndex<VEC_CAP, STR_CAP> {
    /// Every index has valid parts, at most `VEC_CAP` of them, each within `STR_CAP` bytes.
    #[verifier::type_invariant]
    pub open spec fn wf(self) -> bool {
        &&& self@.len() > 0
        &&& valid_index_parts(self@, VEC_CAP as nat, STR_CAP as nat)
        &&& self.levels_ok()
    }

    /// Each kept level is the wildcard or a fitting non-wildcard string.
    pub closed spec fn levels_ok(self) -> bool {
        forall|i: int| 0 <= i < self.index_parts@.len() ==> level_ok(#[trigger] self.index_parts@[i])
    }

    /// Builds the level for `part`, mapping its error into the index's.
    fn level(part: &str) -> (r: Result<IndexLevel<STR_CAP>, HierarchicalIndexError>)
        requires
            valid_index_part(part@),
        ensures
            match r {
                Ok(l) => index_part_fits(part@, STR_CAP as nat) && l.text() == part@ && level_ok(l),
                Err(HierarchicalIndexError::PartCapacityExceeded) => !index_part_fits(
                    part@,
                    STR_CAP as nat,
                ),
                Err(_) => false,
            },
    {
        match IndexLevel::<STR_CAP>::from_str(part) {
            Ok(l) => Ok(l),
            Err(_) => Err(HierarchicalIndexError::PartCapacityExceeded),
        }
    }

    /// An index of one part, `root`.
    pub fn new(root: &str) -> (r: Result<Self, HierarchicalIndexError>)
        requires
            valid_index_part(root@) && index_part_fits(root@, STR_CAP as nat) ==> VEC_CAP > 0,
        ensures
            match r {
                Ok(t) => valid_index_part(root@) && index_part_fits(root@, STR_CAP as nat)
                    && t@ == seq![root@],
                Err(HierarchicalIndexError::InvalidFormat(m)) => !valid_index_part(root@)
                    && m@ == index_root_message(),
                Err(HierarchicalIndexError::PartCapacityExceeded) => valid_index_part(root@)
                    && !index_part_fits(root@, STR_CAP as nat),
                Err(_) => false,
            },
    {
        if !is_valid_index_part(root) {
            return Err(HierarchicalIndexError::InvalidFormat(
                owned("Root index must be non-empty, alphanumeric or wildcard"),
            ));
        }
        let level = match Self::level(root) {
            Ok(l) => l,
            Err(e) => return Err(e),
        };
        let mut index_parts: Vec<IndexLevel<STR_CAP>> = Vec::new();
        index_parts.push(level);
        assert(index_parts@.map_values(|l: IndexLevel<STR_CAP>| l.text()) =~= seq![root@]);
        Ok(Self { index_parts })
    }

    /// Whether the index matches `topic`: every index part is the wildcard or
    /// equals the topic's part at the same position (later topic parts are
    /// free). An index longer than the topic does not match; the parts are
    /// compared in order, and one whose topic part is missing cannot be
    /// compared, so the index's first parts must already differ there.
    pub fn matches_topic(&self, topic: &HierarchicalTopic<VEC_CAP, STR_CAP>) -> (r: bool)
        requires
            self@.len() > topic@.len() ==> !index_matches(self@.take(topic@.len() as int), topic@),
        ensures
            r == (self@.len() <= topic@.len() && index_matches(self@, topic@)),
    {
        proof {
            use_type_invariant(self);
        }
        let topic_parts = topic.parts_as_strings();
        let index_len = self.index_parts.len();
        let mut i: usize = 0;
        while i < index_len
            invariant
                index_len == self.index_parts@.len(),
                self.levels_ok(),
                self@.len() == index_len,
                topic_parts@.len() == topic@.len(),
                forall|j: int| 0 <= j < topic_parts@.len() ==> #[trigger] topic_parts@[j]@ == topic@[j],
                self@.len() > topic@.len() ==> !index_matches(self@.take(topic@.len() as int), topic@),
                0 <= i <= index_len,
                i <= topic@.len(),
                forall|j: int| 0 <= j < i ==> #[trigger] self@[j] == wildcard() || self@[j] == topic@[j],
            decreases index_len - i,
        {
            if i == topic_parts.len() {
                proof {
                    let prefix = self@.take(topic@.len() as int);
                    assert forall|j: int| 0 <= j < prefix.len() implies #[trigger] prefix[j] == wildcard()
                        || prefix[j] == topic@[j] by {
                        assert(prefix[j] == self@[j]);
                    }
                }
                return false;
            }
            assert(self@[i as int] == self.index_parts@[i as int].text());
            match &self.index_parts[i] {
                IndexLevel::String(s) => {
                    if *s != topic_parts[i] {
                        assert(level_ok(self.index_parts@[i as int]));
                        assert(!(self@[i as int] == wildcard() || self@[i as int] == topic@[i as int]));
                        return false;
                    }
                },
                IndexLevel::Wildcard => {},
            }
            i = i + 1;
        }
        true
    }

    /// Appends `part` below the last part.
    pub fn add_part(&mut self, part: &str) -> (r: Result<(), HierarchicalIndexError>)
        ensures
            match r {
                Ok(()) => old(self)@.len() < VEC_CAP && valid_index_part(part@)
                    && index_part_fits(part@, STR_CAP as nat) && final(self)@ == old(self)@.push(part@),
                Err(HierarchicalIndexError::MaxDepthExceeded) => old(self)@.len() >= VEC_CAP
                    && final(self)@ == old(self)@,
                Err(HierarchicalIndexError::InvalidFormat(m)) => old(self)@.len() < VEC_CAP
                    && !valid_index_part(part@) && m@ == index_part_message()
                    && final(self)@ == old(self)@,
                Err(HierarchicalIndexError::PartCapacityExceeded) => old(self)@.len() < VEC_CAP
                    && valid_index_part(part@) && !index_part_fits(part@, STR_CAP as nat)
                    && final(self)@ == old(self)@,
            },
    {
        proof {
            use_type_invariant(&*self);
        }
        if self.index_parts.len() >= VEC_CAP {
            return Err(HierarchicalIndexError::MaxDepthExceeded);
        }
        if !is_valid_index_part(part) {
            return Err(HierarchicalIndexError::InvalidFormat(
                owned("Index part must be non-empty, alphanumeric or wildcard"),
            ));
        }
        let level = match Self::level(part) {
            Ok(l) => l,
            Err(e) => return Err(e),
        };
        let ghost before = self@;
        let mut single: Vec<IndexLevel<STR_CAP>> = Vec::new();
        single.push(level.clone());
        assert(single@.map_values(|l: IndexLevel<STR_CAP>| l.text()) =~= seq![part@]);
        let mut taken = Self { index_parts: single };
        std::mem::swap(self, &mut taken);
        let mut parts = taken.index_parts;
        assert(parts@.map_values(|l: IndexLevel<STR_CAP>| l.text()) == before);
        parts.push(level);
        assert(parts@.map_values(|l: IndexLevel<STR_CAP>| l.text()) =~= before.push(part@));
        *self = Self { index_parts: parts };
        Ok(())
    }

    /// Parses a dot-separated index such as `a.*.c`.
    pub fn from_str(index_str: &str) -> (r: Result<Self, HierarchicalIndexError>)
        ensures
            ({
                let parts = split_dots(index_str@);
                let k = first_bad_index_part(parts, STR_CAP as nat);
                match r {
                    Ok(t) => parts.len() <= VEC_CAP && k == parts.len() && t@ == parts,
                    Err(HierarchicalIndexError::MaxDepthExceeded) => parts.len() > VEC_CAP,
                    Err(HierarchicalIndexError::InvalidFormat(m)) => parts.len() <= VEC_CAP
                        && k < parts.len() && !valid_index_part(parts[k])
                        && m@ == index_part_message(),
                    Err(HierarchicalIndexError::PartCapacityExceeded) => parts.len() <= VEC_CAP
                        && k < parts.len() && valid_index_part(parts[k]),
                }
            }),
    {
        let parts = split_on_dots(index_str);
        let ghost sp = split_dots(index_str@);
        proof {
            lemma_split_dots_nonempty(index_str@);
        }
        if parts.len() == 0 {
            return Err(HierarchicalIndexError::InvalidFormat(owned("Index string cannot be empty")));
        }
        if parts.len() > VEC_CAP {
            return Err(HierarchicalIndexError::MaxDepthExceeded);
        }
        let mut index_parts: Vec<IndexLevel<STR_CAP>> = Vec::new();
        let mut i: usize = 0;
        assert(sp.skip(0) =~= sp);
        while i < parts.len()
            invariant
                0 <= i <= parts@.len(),
                sp == split_dots(index_str@),
                parts@.len() == sp.len(),
                sp.len() <= VEC_CAP,
                forall|j: int| 0 <= j < parts@.len() ==> #[trigger] parts@[j]@ == sp[j],
                index_parts@.len() == i,
                forall|j: int| 0 <= j < i ==> (#[trigger] index_parts@[j]).text() == sp[j]
                    && level_ok(index_parts@[j]),
                first_bad_index_part(sp, STR_CAP as nat) == i + first_bad_index_part(
                    sp.skip(i as int),
                    STR_CAP as nat,
                ),
                forall|j: int| 0 <= j < i ==> valid_index_part(#[trigger] sp[j])
                    && index_part_fits(sp[j], STR_CAP as nat),
            decreases parts@.len() - i,
        {
            let part = parts[i].as_str();
            assert(sp.skip(i as int).len() > 0);
            assert(sp.skip(i as int)[0] == sp[i as int]);
            assert(sp.skip(i as int).drop_first() =~= sp.skip(i + 1));
            assert(part@ == sp[i as int]);
            if !is_valid_index_part(part) {
                assert(first_bad_index_part(sp.skip(i as int), STR_CAP as nat) == 0);
                return Err(HierarchicalIndexError::InvalidFormat(
                    owned("Index part must be non-empty, alphanumeric or wildcard"),
                ));
            }
            let level = match Self::level(part) {
                Ok(l) => l,
                Err(e) => {
                    assert(first_bad_index_part(sp.skip(i as int), STR_CAP as nat) == 0);
                    return Err(e);
                },
            };
            index_parts.push(level);
            i = i + 1;
        }
        assert(sp.skip(i as int).len() == 0);
        assert(index_parts@.map_values(|l: IndexLevel<STR_CAP>| l.text()) =~= sp);
        Ok(Self { index_parts })
    }

    /// Whether the index has no part (never, for an index built by this module).
    pub fn is_empty(&self) -> (r: bool)
        ensures
            r == (self@.len() == 0),
            !r,
    {
        proof {
            use_type_invariant(self);
        }
        self.index_parts.len() == 0
    }

    /// An index's text after a part is added: its text before, a '.', and the
    /// part (an index always has a part).
    pub proof fn lemma_text_after_add_part(self, part: Seq<char>)
        requires
            self.wf(),
        ensures
            join_dots(self@.push(part)) == join_dots(self@) + seq!['.'] + part,
    {
        lemma_join_push(self@, part);
    }

    /// The parts joined with '.'.
    pub fn to_string(&self) -> (r: String)
        ensures
            r@ == join_dots(self@),
    {
        let parts = self.parts_as_strings();
        let r = join_strings_with_dots(&parts);
        assert(parts@.map_values(|s: String| s@) =~= self@);
        r
    }

    /// The parts, each as its own `String` (`*` for the wildcard).
    pub fn parts_as_strings(&self) -> (r: Vec<String>)
        ensures
            r@.len() == self@.len(),
            forall|i: int| 0 <= i < r@.len() ==> #[trigger] r@[i]@ == self@[i],
    {
        let mut r: Vec<String> = Vec::new();
        let mut i: usize = 0;
        while i < self.index_parts.len()
            invariant
                0 <= i <= self.index_parts@.len(),
                self@.len() == self.index_parts@.len(),
                r@.len() == i,
                forall|j: int| 0 <= j < i ==> #[trigger] r@[j]@ == self@[j],
            decreases self.index_parts@.len() - i,
        {
            let s = match &self.index_parts[i] {
                IndexLevel::String(s) => s.clone(),
                IndexLevel::Wildcard => owned("*"),
            };
            r.push(s);
            i = i + 1;
        }
        r
    }

    /// A copy of the index.
    pub fn clone(&self) -> (r: Self)
        ensures
            r@ == self@,
    {
        proof {
            use_type_invariant(self);
        }
        let mut index_parts: Vec<IndexLevel<STR_CAP>> = Vec::new();
        let mut i: usize = 0;
        while i < self.index_parts.len()
            invariant
                0 <= i <= self.index_parts@.len(),
                self.levels_ok(),
                index_parts@.len() == i,
                forall|j: int| 0 <= j < i ==> #[trigger] index_parts@[j] == self.index_parts@[j],
            decreases self.index_parts@.len() - i,
        {
            index_parts.push(self.index_parts[i].clone());
            i = i + 1;
        }
        assert(index_parts@ =~= self.index_parts@);
        Self { index_parts }
    }

    /// The index as text (what converting it into a `String` gives).
    pub fn into_string(self) -> (r: String)
        ensures
            r@ == join_dots(self@),
    {
        self.to_string()
    }
}

} // verus!
