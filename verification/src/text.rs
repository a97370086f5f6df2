//! Character-level helpers over topic strings: UTF-8 byte length, the
//! alphanumeric test, splitting on '.' and joining with '.'.

use vstd::prelude::*;
use vstd::std_specs::iter::IteratorSpec;

verus! {

/// Number of bytes of the UTF-8 encoding of `s` (what `str::len` returns).
pub open spec fn utf8_len(s: Seq<char>) -> nat {
    vstd::utf8::encode_utf8(s).len()
}

/// Whether `char::is_alphanumeric` holds of `c` (Unicode `Alphabetic` or `Numeric`).
pub uninterp spec fn char_is_alphanumeric(c: char) -> bool;

/// ASCII letters and digits.
pub open spec fn is_ascii_letter_or_digit(c: char) -> bool {
    ('a' <= c && c <= 'z') || ('A' <= c && c <= 'Z') || ('0' <= c && c <= '9')
}

/// Calls `char::is_alphanumeric`. Its result is named by `char_is_alphanumeric`;
/// on ASCII characters the documentation fixes it: exactly the letters and digits.
#[verifier::external_body]
pub(crate) fn is_alphanumeric(c: char) -> (r: bool)
    ensures
        r == char_is_alphanumeric(c),
        (c as u32) < 128 ==> (r <==> is_ascii_letter_or_digit(c)),
{
    c.is_alphanumeric()
}

/// Every character of `s` is alphanumeric.
pub open spec fn all_alphanumeric(s: Seq<char>) -> bool {
    forall|i: int| 0 <= i < s.len() ==> char_is_alphanumeric(#[trigger] s[i])
}

/// The pieces of `s` between '.' separators, in order, as `str::split('.')` yields them.
pub open spec fn split_dots(s: Seq<char>) -> Seq<Seq<char>>
    decreases s.len(),
{
    if s.len() == 0 {
        seq![Seq::<char>::empty()]
    } else {
        let prev = split_dots(s.drop_last());
        if s.last() == '.' {
            prev.push(Seq::<char>::empty())
        } else {
            prev.update(prev.len() - 1, prev.last().push(s.last()))
        }
    }
}

/// The pieces of `parts` joined with '.' between them.
pub open spec fn join_dots(parts: Seq<Seq<char>>) -> Seq<char>
    decreases parts.len(),
{
    if parts.len() == 0 {
        Seq::empty()
    } else if parts.len() == 1 {
        parts[0]
    } else {
        join_dots(parts.drop_last()) + seq!['.'] + parts.last()
    }
}

/// Appending a part to a non-empty path adds a '.' and the part to its text.
pub proof fn lemma_join_push(parts: Seq<Seq<char>>, part: Seq<char>)
    requires
        parts.len() > 0,
    ensures
        join_dots(parts.push(part)) == join_dots(parts) + seq!['.'] + part,
{
    assert(parts.push(part).drop_last() =~= parts);
}

/// `split_dots` always yields at least one piece.
pub proof fn lemma_split_dots_nonempty(s: Seq<char>)
    ensures
        split_dots(s).len() >= 1,
    decreases s.len(),
{
    if s.len() > 0 {
        lemma_split_dots_nonempty(s.drop_last());
    }
}

/// No piece of `split_dots(s)` holds a '.'.
pub proof fn lemma_split_dots_no_dot(s: Seq<char>)
    ensures
        forall|i: int, j: int|
            0 <= i < split_dots(s).len() && 0 <= j < split_dots(s)[i].len()
                ==> split_dots(s)[i][j] != '.',
    decreases s.len(),
{
    if s.len() > 0 {
        lemma_split_dots_no_dot(s.drop_last());
        lemma_split_dots_nonempty(s.drop_last());
    }
}

/// Joining the pieces of a split gives the string back: a topic or an index
/// read from text prints as that same text.
pub proof fn lemma_join_split(s: Seq<char>)
    ensures
        join_dots(split_dots(s)) == s,
    decreases s.len(),
{
    if s.len() > 0 {
        let prev = split_dots(s.drop_last());
        lemma_split_dots_nonempty(s.drop_last());
        lemma_join_split(s.drop_last());
        if s.last() == '.' {
            assert(prev.push(Seq::<char>::empty()).drop_last() =~= prev);
            assert(s =~= s.drop_last() + seq!['.'] + Seq::<char>::empty());
        } else {
            let n = split_dots(s);
            assert(n.drop_last() =~= prev.drop_last());
            if prev.len() == 1 {
                assert(s =~= prev[0].push(s.last()));
            } else {
                let x = join_dots(prev.drop_last());
                assert(join_dots(prev) == x + seq!['.'] + prev.last());
                assert(s =~= s.drop_last().push(s.last()));
                assert(x + seq!['.'] + prev.last().push(s.last()) =~= (x + seq!['.'] + prev.last()).push(s.last()));
                assert(n.last() == prev.last().push(s.last()));
                assert(join_dots(n) == join_dots(n.drop_last()) + seq!['.'] + n.last());
            }
        }
    }
}

/// The number of bytes of the UTF-8 encoding of `s`.
pub(crate) fn byte_len(s: &str) -> (r: usize)
    ensures
        r as nat == utf8_len(s@),
{
    let bytes = s.as_bytes();
    bytes.len()
}

/// Appends `c` to `s` (`String::push`).
#[verifier::external_body]
pub(crate) fn push_char(s: &mut String, c: char)
    ensures
        final(s)@ == old(s)@.push(c),
{
    s.push(c)
}

/// Splits `s` on '.', as `str::split('.')` does.
pub fn split_on_dots(s: &str) -> (parts: Vec<String>)
    ensures
        parts@.len() == split_dots(s@).len(),
        forall|i: int| 0 <= i < parts@.len() ==> #[trigger] parts@[i]@ == split_dots(s@)[i],
{
    let mut parts: Vec<String> = Vec::new();
    let mut current = String::new();
    let ghost mut seen: Seq<char> = Seq::empty();
    for c in it: s.chars()
        invariant
            seen == it.seq().take(it.index() as int),
            it.seq() == s@,
            parts@.len() + 1 == split_dots(seen).len(),
            forall|i: int| 0 <= i < parts@.len() ==> #[trigger] parts@[i]@ == split_dots(seen)[i],
            current@ == split_dots(seen).last(),
    {
        proof {
            lemma_split_dots_nonempty(seen);
        }
        let ghost next = seen.push(c);
        assert(next.drop_last() =~= seen);
        if c == '.' {
            let mut finished = String::new();
            std::mem::swap(&mut finished, &mut current);
            parts.push(finished);
        } else {
            push_char(&mut current, c);
        }
        proof {
            seen = next;
        }
        assert(seen =~= it.seq().take(it.index() + 1));
    }
    assert(seen =~= s@);
    parts.push(current);
    parts
}

/// Position of the first entry whose key is `key` (-1 when there is none).
pub open spec fn key_index<N>(entries: Seq<(String, N)>, key: Seq<char>) -> int
    decreases entries.len(),
{
    if entries.len() == 0 {
        -1
    } else if entries[0].0@ == key {
        0
    } else {
        let r = key_index(entries.drop_first(), key);
        if r < 0 {
            -1
        } else {
            r + 1
        }
    }
}

/// `key_index` finds the first entry with the key, or tells that none has it.
pub proof fn lemma_key_index<N>(entries: Seq<(String, N)>, key: Seq<char>)
    ensures
        -1 <= key_index(entries, key) < entries.len(),
        key_index(entries, key) >= 0 ==> entries[key_index(entries, key)].0@ == key,
        forall|j: int|
            0 <= j < entries.len() && (key_index(entries, key) < 0 || j < key_index(entries, key))
                ==> #[trigger] entries[j].0@ != key,
    decreases entries.len(),
{
    if entries.len() > 0 {
        lemma_key_index(entries.drop_first(), key);
        assert forall|j: int|
            0 <= j < entries.len() && (key_index(entries, key) < 0 || j < key_index(entries, key))
            implies #[trigger] entries[j].0@ != key by {
            if j > 0 {
                assert(entries[j] == entries.drop_first()[j - 1]);
            }
        }
    }
}

/// Position of the first entry whose key is `key`, searched from the front.
pub fn find_key<N>(children: &Vec<(String, N)>, key: &String) -> (r: Option<usize>)
    ensures
        match r {
            Some(i) => i as int == key_index(children@, key@),
            None => key_index(children@, key@) == -1,
        },
{
    proof {
        lemma_key_index(children@, key@);
    }
    let mut j: usize = 0;
    while j < children.len()
        invariant
            0 <= j <= children@.len(),
            forall|i: int| 0 <= i < j ==> #[trigger] children@[i].0@ != key@,
            -1 <= key_index(children@, key@) < children@.len(),
            key_index(children@, key@) >= 0 ==> children@[key_index(children@, key@)].0@ == key@,
            forall|i: int|
                0 <= i < children@.len() && (key_index(children@, key@) < 0 || i < key_index(
                    children@,
                    key@,
                )) ==> #[trigger] children@[i].0@ != key@,
        decreases children@.len() - j,
    {
        if children[j].0 == *key {
            return Some(j);
        }
        j = j + 1;
    }
    None
}

/// No two entries share a key.
pub open spec fn keys_unique<N>(entries: Seq<(String, N)>) -> bool {
    forall|i: int, j: int| 0 <= i < j < entries.len() ==> #[trigger] entries[i].0@ != #[trigger] entries[j].0@
}

/// Sets the entry for `key` to `value`: replaces the entry with that key, or
/// appends one. Other keys keep their positions and entries.
pub fn upsert<N>(entries: &mut Vec<(String, N)>, key: String, value: N)
    requires
        keys_unique(old(entries)@),
    ensures
        keys_unique(final(entries)@),
        0 <= key_index(final(entries)@, key@) < final(entries)@.len(),
        final(entries)@[key_index(final(entries)@, key@)] == (key, value),
        forall|q: Seq<char>| q != key@ ==> #[trigger] key_index(final(entries)@, q) == key_index(old(entries)@, q),
        key_index(old(entries)@, key@) >= 0 ==> key_index(final(entries)@, key@) == key_index(old(entries)@, key@),
        forall|i: int| 0 <= i < old(entries)@.len() && old(entries)@[i].0@ != key@
            ==> #[trigger] final(entries)@[i] == old(entries)@[i],
        final(entries)@.len() >= old(entries)@.len(),
        forall|i: int| old(entries)@.len() <= i < final(entries)@.len() ==> #[trigger] final(entries)@[i].0@ == key@,
{
    let ghost old_entries = entries@;
    proof {
        lemma_key_index(old_entries, key@);
    }
    let ghost k = key@;
    match find_key(entries, &key) {
        Some(i) => {
            entries.set(i, (key, value));
            proof {
                assert forall|q: Seq<char>| #[trigger] key_index(entries@, q) == key_index(old_entries, q) by {
                    lemma_key_index(entries@, q);
                    lemma_key_index(old_entries, q);
                    let x = key_index(entries@, q);
                    let y = key_index(old_entries, q);
                    if x >= 0 && y >= 0 && x < y {
                        assert(old_entries[x].0@ == q);
                    }
                    if x >= 0 && y >= 0 && y < x {
                        assert(entries@[y].0@ == q);
                    }
                    if x >= 0 && y < 0 {
                        assert(old_entries[x].0@ == q);
                    }
                    if y >= 0 && x < 0 {
                        assert(entries@[y].0@ == q);
                    }
                }
            }
        },
        None => {
            entries.push((key, value));
            proof {
                let n = old_entries.len() as int;
                assert forall|q: Seq<char>| #![trigger key_index(entries@, q)]
                    key_index(entries@, q) == if q == k { n } else { key_index(old_entries, q) } by {
                    lemma_key_index(entries@, q);
                    lemma_key_index(old_entries, q);
                    let x = key_index(entries@, q);
                    let y = key_index(old_entries, q);
                    if x >= 0 && x < n {
                        assert(entries@[x] == old_entries[x]);
                    }
                    if y >= 0 {
                        assert(entries@[y] == old_entries[y]);
                    }
                    if q == k && x < 0 {
                        assert(entries@[n].0@ == q);
                    }
                    if q != k && x < 0 && y >= 0 {
                        assert(entries@[y].0@ == q);
                    }
                    if q != k && x == n {
                        assert(entries@[n].0@ == k);
                    }
                }
            }
        },
    }
}

} // verus!
