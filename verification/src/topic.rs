//! Hierarchical topics: dot-separated sequences of non-empty alphanumeric
//! parts, bounded in depth (`VEC_CAP`) and in the UTF-8 length of each part
//! (`STR_CAP`).

use vstd::prelude::*;

use crate::text::{
    all_alphanumeric, byte_len, is_alphanumeric, join_dots, lemma_join_push, lemma_join_split, lemma_split_dots_nonempty,
    push_char, split_dots, split_on_dots, utf8_len,
};

verus! {

/// A part of a topic: non-empty and made of alphanumeric characters.
pub open spec fn valid_topic_part(p: Seq<char>) -> bool {
    p.len() > 0 && all_alphanumeric(p)
}

/// A part whose UTF-8 encoding fits in `cap` bytes.
pub open spec fn part_fits(p: Seq<char>, cap: nat) -> bool {
    utf8_len(p) <= cap
}

/// The parts of a well-formed topic.
pub open spec fn valid_topic_parts(parts: Seq<Seq<char>>, depth: nat, cap: nat) -> bool {
    &&& parts.len() <= depth
    &&& forall|i: int| 0 <= i < parts.len() ==> #[trigger] valid_topic_part(parts[i])
    &&& forall|i: int| 0 <= i < parts.len() ==> part_fits(#[trigger] parts[i], cap)
}

/// Index of the first part that is not a valid part fitting in `cap` bytes
/// (`parts.len()` when there is none).
pub open spec fn first_bad_topic_part(parts: Seq<Seq<char>>, cap: nat) -> int
    decreases parts.len(),
{
    if parts.len() == 0 {
        0
    } else if !(valid_topic_part(parts[0]) && part_fits(parts[0], cap)) {
        0
    } else {
        1 + first_bad_topic_part(parts.drop_first(), cap)
    }
}

/// Message of the error for an invalid root.
pub open spec fn topic_root_message() -> Seq<char> {
    "Root topic must be non-empty, alphanumeric or wildcard"@
}

/// Message of the error for an invalid added part.
pub open spec fn topic_part_message() -> Seq<char> {
    "Topic part must be non-empty and alphanumeric"@
}

/// Message of the error for an invalid part of a parsed topic.
pub open spec fn topic_parts_message() -> Seq<char> {
    "Topic parts must be non-empty and alphanumeric"@
}

/// What can go wrong when a topic is built.
#[derive(Debug)]
pub enum HierarchicalTopicError {
    MaxDepthExceeded,
    PartCapacityExceeded,
    InvalidFormat(String),
    InvalidCharacter(String),
}

impl HierarchicalTopicError {
    /// The text of the error.
    pub open spec fn message(&self) -> Seq<char> {
        match self {
            HierarchicalTopicError::MaxDepthExceeded => "Maximum index depth exceeded"@,
            HierarchicalTopicError::PartCapacityExceeded => "Capacity exceeded for part"@,
            HierarchicalTopicError::InvalidFormat(m) => "Invalid topic format: "@ + m@,
            HierarchicalTopicError::InvalidCharacter(m) =>
                "Disallowed character - only letters and numbers are allowed: "@ + m@,
        }
    }

    /// Renders the error as text.
    pub fn to_string(&self) -> (r: String)
        ensures
            r@ == self.message(),
    {
        match self {
            HierarchicalTopicError::MaxDepthExceeded => String::from_str("Maximum index depth exceeded"),
            HierarchicalTopicError::PartCapacityExceeded => String::from_str("Capacity exceeded for part"),
            HierarchicalTopicError::InvalidFormat(m) => {
                let mut r = String::from_str("Invalid topic format: ");
                r.append(m.as_str());
                r
            },
            HierarchicalTopicError::InvalidCharacter(m) => {
                let mut r = String::from_str(
                    "Disallowed character - only letters and numbers are allowed: ",
                );
                r.append(m.as_str());
                r
            },
        }
    }
}

/// Whether `part` is non-empty and alphanumeric.
fn is_valid_topic_part(part: &str) -> (r: bool)
    ensures
        r == valid_topic_part(part@),
{
    if part.is_empty() {
        return false;
    }
    for c in it: part.chars()
        invariant
            it.seq() == part@,
            forall|j: int| 0 <= j < it.index() ==> crate::text::char_is_alphanumeric(#[trigger] part@[j]),
    {
        if !is_alphanumeric(c) {
            return false;
        }
    }
    true
}

/// Copies `part` into a new `String`.
pub(crate) fn owned(part: &str) -> (r: String)
    ensures
        r@ == part@,
{
    String::from_str(part)
}

/// A topic such as `sensors.kitchen.temperature`.
#[derive(PartialEq, Eq, Hash, Debug)]
pub struct HierarchicalTopic<const VEC_CAP: usize, const STR_CAP: usize> {
    topic_parts: Vec<String>,
}

impl<const VEC_CAP: usize, const STR_CAP: usize> View for HierarchicalTopic<VEC_CAP, STR_CAP> {
    type V = Seq<Seq<char>>;

    closed spec fn view(&self) -> Seq<Seq<char>> {
        self.topic_parts@.map_values(|s: String| s@)
    }
}

impl<const VEC_CAP: usize, const STR_CAP: usize> HierarchicalTopic<VEC_CAP, STR_CAP> {
    /// Every topic has valid parts, at most `VEC_CAP` of them, each within `STR_CAP` bytes.
    #[verifier::type_invariant]
    pub open spec fn wf(self) -> bool {
        &&& self@.len() > 0
        &&& valid_topic_parts(self@, VEC_CAP as nat, STR_CAP as nat)
    }

    /// A topic of one part, `root`.
    pub fn new(root: &str) -> (r: Result<Self, HierarchicalTopicError>)
        requires
            valid_topic_part(root@) && part_fits(root@, STR_CAP as nat) ==> VEC_CAP > 0,
        ensures
            match r {
                Ok(t) => valid_topic_part(root@) && part_fits(root@, STR_CAP as nat) && t@ == seq![root@],
                Err(HierarchicalTopicError::InvalidCharacter(m)) => !valid_topic_part(root@)
                    && m@ == topic_root_message(),
                Err(HierarchicalTopicError::PartCapacityExceeded) => valid_topic_part(root@)
                    && !part_fits(root@, STR_CAP as nat),
                Err(_) => false,
            },
    {
        if !is_valid_topic_part(root) {
            return Err(HierarchicalTopicError::InvalidCharacter(
                owned("Root topic must be non-empty, alphanumeric or wildcard"),
            ));
        }
        if byte_len(root) > STR_CAP {
            return Err(HierarchicalTopicError::PartCapacityExceeded);
        }
        let mut topic_parts: Vec<String> = Vec::new();
        topic_parts.push(owned(root));
        assert(topic_parts@.map_values(|s: String| s@) =~= seq![root@]);
        let t = Self { topic_parts };
        Ok(t)
    }

    /// Appends `part` below the last part.
    pub fn add_part(&mut self, part: &str) -> (r: Result<(), HierarchicalTopicError>)
        ensures
            match r {
                Ok(()) => old(self)@.len() < VEC_CAP && valid_topic_part(part@)
                    && part_fits(part@, STR_CAP as nat) && final(self)@ == old(self)@.push(part@),
                Err(HierarchicalTopicError::MaxDepthExceeded) => old(self)@.len() >= VEC_CAP
                    && final(self)@ == old(self)@,
                Err(HierarchicalTopicError::InvalidCharacter(m)) => old(self)@.len() < VEC_CAP
                    && !valid_topic_part(part@) && m@ == topic_part_message()
                    && final(self)@ == old(self)@,
                Err(HierarchicalTopicError::PartCapacityExceeded) => old(self)@.len() < VEC_CAP
                    && valid_topic_part(part@) && !part_fits(part@, STR_CAP as nat)
                    && final(self)@ == old(self)@,
                Err(_) => false,
            },
    {
        proof {
            use_type_invariant(&*self);
        }
        if self.topic_parts.len() >= VEC_CAP {
            return Err(HierarchicalTopicError::MaxDepthExceeded);
        }
        if !is_valid_topic_part(part) {
            return Err(HierarchicalTopicError::InvalidCharacter(
                owned("Topic part must be non-empty and alphanumeric"),
            ));
        }
        if byte_len(part) > STR_CAP {
            return Err(HierarchicalTopicError::PartCapacityExceeded);
        }
        let ghost before = self@;
        let mut single: Vec<String> = Vec::new();
        single.push(owned(part));
        assert(single@.map_values(|s: String| s@) =~= seq![part@]);
        let mut taken = Self { topic_parts: single };
        std::mem::swap(self, &mut taken);
        let mut parts = taken.topic_parts;
        assert(parts@.map_values(|s: String| s@) == before);
        parts.push(owned(part));
        assert(parts@.map_values(|s: String| s@) =~= before.push(part@));
        *self = Self { topic_parts: parts };
        Ok(())
    }

    /// Parses a dot-separated topic such as `a.b.c`.
    pub fn from_str(topic_str: &str) -> (r: Result<Self, HierarchicalTopicError>)
        ensures
            ({
                let parts = split_dots(topic_str@);
                let k = first_bad_topic_part(parts, STR_CAP as nat);
                match r {
                    Ok(t) => parts.len() <= VEC_CAP && k == parts.len() && t@ == parts,
                    Err(HierarchicalTopicError::MaxDepthExceeded) => parts.len() > VEC_CAP,
                    Err(HierarchicalTopicError::InvalidCharacter(m)) => parts.len() <= VEC_CAP
                        && k < parts.len() && !valid_topic_part(parts[k])
                        && m@ == topic_parts_message(),
                    Err(HierarchicalTopicError::PartCapacityExceeded) => parts.len() <= VEC_CAP
                        && k < parts.len() && valid_topic_part(parts[k]),
                    Err(_) => false,
                }
            }),
    {
        let parts = split_on_dots(topic_str);
        let ghost sp = split_dots(topic_str@);
        proof {
            lemma_split_dots_nonempty(topic_str@);
        }
        if parts.len() == 0 {
            return Err(HierarchicalTopicError::InvalidFormat(owned("Topic string cannot be empty")));
        }
        if parts.len() > VEC_CAP {
            return Err(HierarchicalTopicError::MaxDepthExceeded);
        }
        let mut topic_parts: Vec<String> = Vec::new();
        let mut i: usize = 0;
        assert(sp.skip(0) =~= sp);
        while i < parts.len()
            invariant
                0 <= i <= parts@.len(),
                sp == split_dots(topic_str@),
                parts@.len() == sp.len(),
                sp.len() <= VEC_CAP,
                forall|j: int| 0 <= j < parts@.len() ==> #[trigger] parts@[j]@ == sp[j],
                topic_parts@.len() == i,
                forall|j: int| 0 <= j < i ==> #[trigger] topic_parts@[j]@ == sp[j],
                first_bad_topic_part(sp, STR_CAP as nat) == i + first_bad_topic_part(
                    sp.skip(i as int),
                    STR_CAP as nat,
                ),
                forall|j: int| 0 <= j < i ==> valid_topic_part(#[trigger] sp[j])
                    && part_fits(sp[j], STR_CAP as nat),
            decreases parts@.len() - i,
        {
            let part = parts[i].as_str();
            assert(sp.skip(i as int).len() > 0);
            assert(sp.skip(i as int)[0] == sp[i as int]);
            assert(sp.skip(i as int).drop_first() =~= sp.skip(i + 1));
            assert(part@ == sp[i as int]);
            if !is_valid_topic_part(part) {
                assert(first_bad_topic_part(sp.skip(i as int), STR_CAP as nat) == 0);
                return Err(HierarchicalTopicError::InvalidCharacter(
                    owned("Topic parts must be non-empty and alphanumeric"),
                ));
            }
            if byte_len(part) > STR_CAP {
                assert(first_bad_topic_part(sp.skip(i as int), STR_CAP as nat) == 0);
                return Err(HierarchicalTopicError::PartCapacityExceeded);
            }
            topic_parts.push(owned(part));
            i = i + 1;
        }
        assert(sp.skip(i as int).len() == 0);
        assert(topic_parts@.map_values(|s: String| s@) =~= sp);
        let t = Self { topic_parts };
        Ok(t)
    }

    /// Whether the topic has no part (never, for a topic built by this module).
    pub fn is_empty(&self) -> (r: bool)
        ensures
            r == (self@.len() == 0),
            !r,
    {
        proof {
            use_type_invariant(self);
        }
        self.topic_parts.len() == 0
    }

    /// A topic's text after a part is added: its text before, a '.', and the
    /// part (a topic always has a part).
    pub proof fn lemma_text_after_add_part(self, part: Seq<char>)
        requires
            self.wf(),
        ensures
            join_dots(self@.push(part)) == join_dots(self@) + seq!['.'] + part,
    {
        lemma_join_push(self@, part);
    }

    /// The parts joined with '.'.
    pub fn to_string(&self) -> (r: String)
        ensures
            r@ == join_dots(self@),
    {
        join_strings_with_dots(&self.topic_parts)
    }

    /// The parts, each as its own `String`.
    pub fn parts_as_strings(&self) -> (r: Vec<String>)
        ensures
            r@.len() == self@.len(),
            forall|i: int| 0 <= i < r@.len() ==> #[trigger] r@[i]@ == self@[i],
    {
        let mut r: Vec<String> = Vec::new();
        let mut i: usize = 0;
        while i < self.topic_parts.len()
            invariant
                0 <= i <= self.topic_parts@.len(),
                r@.len() == i,
                forall|j: int| 0 <= j < i ==> #[trigger] r@[j]@ == self@[j],
            decreases self.topic_parts@.len() - i,
        {
            r.push(self.topic_parts[i].clone());
            i = i + 1;
        }
        r
    }

    /// A copy of the topic.
    pub fn clone(&self) -> (r: Self)
        ensures
            r@ == self@,
    {
        proof {
            use_type_invariant(self);
        }
        let topic_parts = self.parts_as_strings();
        assert(topic_parts@.map_values(|s: String| s@) =~= self@);
        Self { topic_parts }
    }

    /// The topic as text (what converting it into a `String` gives).
    pub fn into_string(self) -> (r: String)
        ensures
            r@ == join_dots(self@),
    {
        self.to_string()
    }
}

/// Joins `parts` with '.' between them.
pub(crate) fn join_strings_with_dots(parts: &Vec<String>) -> (r: String)
    ensures
        r@ == join_dots(parts@.map_values(|s: String| s@)),
{
    let ghost views = parts@.map_values(|s: String| s@);
    let mut r = String::new();
    let mut i: usize = 0;
    while i < parts.len()
        invariant
            0 <= i <= parts@.len(),
            views == parts@.map_values(|s: String| s@),
            r@ == join_dots(views.take(i as int)),
        decreases parts@.len() - i,
    {
        let ghost r0 = r@;
        if i > 0 {
            r.append(".");
        }
        let ghost r1 = r@;
        r.append(parts[i].as_str());
        proof {
            reveal_strlit(".");
            assert(i > 0 ==> r1 == r0 + seq!['.']);
            assert(i == 0 ==> r1 == r0);
            let t = views.take(i + 1);
            assert(t.drop_last() =~= views.take(i as int));
            if i == 0 {
                assert(r@ =~= t[0]);
            } else {
                assert(t.last() == parts@[i as int]@);
                assert(join_dots(t) == join_dots(t.drop_last()) + seq!['.'] + t.last());
                assert(r@ =~= join_dots(views.take(i as int)) + seq!['.'] + t.last());
            }
        }
        i = i + 1;
    }
    assert(views.take(i as int) =~= views);
    r
}

} // verus!
