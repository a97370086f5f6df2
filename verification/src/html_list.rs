//! A producer that follows a list of links on an HTML page: it picks the next
//! link after the last one it took, fetches what it points to, and publishes it
//! with the file name as metadata. Fetching is left to the caller; what to
//! fetch and what to publish is decided here.

use vstd::prelude::*;
use vstd::utf8::{encode_utf8, is_ascii_chars, is_char_boundary};

use scraper::{Html, Selector};
use url::Url;

use crate::message::{cuttable, Message, MessageBuilder, META_KEY_CAP, META_VALUE_CAP};
use crate::text::{push_char, utf8_len};
use crate::topic::owned;

verus! {

/// What `Url::parse` makes of `input`: the URL's serialization and its path,
/// or the text of the parse error.
pub uninterp spec fn url_parse(input: Seq<char>) -> Result<(Seq<char>, Seq<char>), Seq<char>>;

/// The text of the error of `Selector::parse` on `source`; `None` when it parses.
pub uninterp spec fn selector_error(source: Seq<char>) -> Option<Seq<char>>;

/// For each element of the parsed `html` that matches `tree`, in document
/// order, the elements inside it that match `sub`, in document order, each
/// as its `href` attribute when it has one.
pub uninterp spec fn html_link_lists(html: Seq<char>, tree: Seq<char>, sub: Seq<char>) -> Seq<Seq<Option<Seq<char>>>>;

/// The texts of a row of optional strings.
pub open spec fn option_texts(row: Seq<Option<String>>) -> Seq<Option<Seq<char>>> {
    row.map_values(|o: Option<String>| match o {
        Some(s) => Some(s@),
        None => None,
    })
}

/// The texts of rows of optional strings.
pub open spec fn link_lists_view(rows: Seq<Vec<Option<String>>>) -> Seq<Seq<Option<Seq<char>>>> {
    rows.map_values(|row: Vec<Option<String>>| option_texts(row@))
}

/// The links present in a row, in order: the attributes that are there.
pub open spec fn present(row: Seq<Option<Seq<char>>>) -> Seq<Seq<char>>
    decreases row.len(),
{
    if row.len() == 0 {
        Seq::empty()
    } else {
        match row.last() {
            Some(h) => present(row.drop_last()).push(h),
            None => present(row.drop_last()),
        }
    }
}

/// The links present in all rows, row after row.
pub open spec fn present_links(rows: Seq<Seq<Option<Seq<char>>>>) -> Seq<Seq<char>>
    decreases rows.len(),
{
    if rows.len() == 0 {
        Seq::empty()
    } else {
        present_links(rows.drop_last()) + present(rows.last())
    }
}

/// A parsed absolute URL: its serialization and its path, a percent-encoded
/// ASCII string.
#[derive(Debug)]
pub struct ParsedUrl {
    serialization: String,
    path: String,
}

impl View for ParsedUrl {
    type V = (Seq<char>, Seq<char>);

    closed spec fn view(&self) -> (Seq<char>, Seq<char>) {
        (self.serialization@, self.path@)
    }
}

impl ParsedUrl {
    #[verifier::type_invariant]
    closed spec fn inv(self) -> bool {
        is_ascii_chars(self.path@)
    }

    /// Parses `input` as an absolute URL; the error is the parser's, as text.
    pub fn parse(input: &str) -> (r: Result<ParsedUrl, String>)
        ensures
            match url_parse(input@) {
                Ok(u) => r matches Ok(p) && p@ == u,
                Err(e) => r matches Err(m) && m@ == e,
            },
    {
        parse_url(input)
    }

    /// The URL as text.
    pub fn as_str(&self) -> (r: &str)
        ensures
            r@ == self@.0,
    {
        self.serialization.as_str()
    }

    /// The path of the URL.
    pub fn path(&self) -> (r: &str)
        ensures
            r@ == self@.1,
    {
        self.path.as_str()
    }
}

/// Calls `Url::parse`, then `Url::as_str` and `Url::path` on the result, or
/// renders the error; the path is ASCII, as the documentation of `Url::path` says.
#[verifier::external_body]
fn parse_url(input: &str) -> (r: Result<ParsedUrl, String>)
    ensures
        match url_parse(input@) {
            Ok(u) => r matches Ok(p) && p@ == u && is_ascii_chars(u.1),
            Err(e) => r matches Err(m) && m@ == e,
        },
{
    match Url::parse(input) {
        Ok(url) => Ok(ParsedUrl { serialization: url.as_str().to_string(), path: url.path().to_string() }),
        Err(e) => Err(e.to_string()),
    }
}

/// Calls `Selector::parse` and renders its error, if any.
#[verifier::external_body]
fn check_selector(source: &str) -> (r: Option<String>)
    ensures
        match selector_error(source@) {
            None => r is None,
            Some(e) => r matches Some(m) && m@ == e,
        },
{
    match Selector::parse(source) {
        Ok(_) => None,
        Err(e) => Some(e.to_string()),
    }
}

/// Position `(i, j)` comes before `(k, l)` in document order: an earlier
/// list, or the same list and an earlier element.
pub open spec fn before_in_lists(a: (int, int), b: (int, int)) -> bool {
    a.0 < b.0 || (a.0 == b.0 && a.1 < b.1)
}

/// `links` are the `href`s of the elements of `rows`, in document order,
/// each element once: there are positions, one per link and increasing,
/// whose elements have those links, and every element with an `href` is at
/// one of them.
pub open spec fn links_in_document_order(rows: Seq<Seq<Option<Seq<char>>>>, links: Seq<Seq<char>>) -> bool {
    exists|src: Seq<(int, int)>|
        #![trigger src.len()]
        src.len() == links.len() && (forall|p: int|
            0 <= p < src.len() ==> 0 <= (#[trigger] src[p]).0 < rows.len() && 0 <= src[p].1 < rows[src[p].0].len()
                && rows[src[p].0][src[p].1] == Some(links[p])) && (forall|p: int, q: int|
            0 <= p < q < src.len() ==> before_in_lists(#[trigger] src[p], #[trigger] src[q])) && (forall|i: int, j: int|
            0 <= i < rows.len() && 0 <= j < rows[i].len() && (#[trigger] rows[i][j]) is Some ==> exists|p: int|
                0 <= p < src.len() && src[p] == (i, j))
}

/// Where the present links of one list come from: for each, the position in
/// the list of the element whose `href` it is, increasing, and covering every
/// element that has one.
pub proof fn lemma_present_sources(row: Seq<Option<Seq<char>>>) -> (src: Seq<int>)
    ensures
        src.len() == present(row).len(),
        forall|p: int| 0 <= p < src.len() ==> 0 <= #[trigger] src[p] < row.len() && row[src[p]] == Some(present(row)[p]),
        forall|p: int, q: int| 0 <= p < q < src.len() ==> #[trigger] src[p] < #[trigger] src[q],
        forall|j: int| 0 <= j < row.len() && (#[trigger] row[j]) is Some ==> exists|p: int| 0 <= p < src.len() && src[p] == j,
    decreases row.len(),
{
    if row.len() == 0 {
        Seq::empty()
    } else {
        let prev = lemma_present_sources(row.drop_last());
        let n = row.len() - 1;
        let src = if row.last() is Some { prev.push(n) } else { prev };
        assert forall|p: int| 0 <= p < src.len() implies 0 <= #[trigger] src[p] < row.len() && row[src[p]] == Some(present(row)[p]) by {
            if p < prev.len() {
                assert(row[prev[p]] == row.drop_last()[prev[p]]);
            }
        }
        assert forall|j: int| 0 <= j < row.len() && (#[trigger] row[j]) is Some implies exists|p: int| 0 <= p < src.len() && src[p] == j by {
            if j < n {
                assert(row.drop_last()[j] == row[j]);
                let p = choose|p: int| 0 <= p < prev.len() && prev[p] == j;
                assert(src[p] == j);
            } else {
                assert(src[src.len() - 1] == j);
            }
        }
        src
    }
}

/// The links of all lists, as `extract` gives them, are the `href`s of the
/// elements inside the lists, in document order, each exactly once: for each
/// link, the position (list, element) it comes from; the positions increase,
/// and every element that has an `href` is among them.
pub proof fn lemma_present_links_sources(rows: Seq<Seq<Option<Seq<char>>>>) -> (src: Seq<(int, int)>)
    ensures
        src.len() == present_links(rows).len(),
        forall|p: int|
            0 <= p < src.len() ==> 0 <= (#[trigger] src[p]).0 < rows.len() && 0 <= src[p].1 < rows[src[p].0].len()
                && rows[src[p].0][src[p].1] == Some(present_links(rows)[p]),
        forall|p: int, q: int| 0 <= p < q < src.len() ==> before_in_lists(#[trigger] src[p], #[trigger] src[q]),
        forall|i: int, j: int|
            0 <= i < rows.len() && 0 <= j < rows[i].len() && (#[trigger] rows[i][j]) is Some ==> exists|p: int|
                0 <= p < src.len() && src[p] == (i, j),
    decreases rows.len(),
{
    if rows.len() == 0 {
        Seq::empty()
    } else {
        let prev = lemma_present_links_sources(rows.drop_last());
        let n = rows.len() - 1;
        let last = rows.last();
        let inner = lemma_present_sources(last);
        let tail = Seq::new(inner.len(), |p: int| (n, inner[p]));
        let src = prev + tail;
        let links = present_links(rows);
        assert(links == present_links(rows.drop_last()) + present(last));
        assert forall|p: int| 0 <= p < src.len() implies 0 <= (#[trigger] src[p]).0 < rows.len() && 0 <= src[p].1
            < rows[src[p].0].len() && rows[src[p].0][src[p].1] == Some(links[p]) by {
            if p < prev.len() {
                assert(rows[prev[p].0] == rows.drop_last()[prev[p].0]);
            } else {
                assert(src[p] == (n, inner[p - prev.len()]));
                assert(links[p] == present(last)[p - prev.len()]);
            }
        }
        assert forall|p: int, q: int| 0 <= p < q < src.len() implies before_in_lists(#[trigger] src[p], #[trigger] src[q]) by {
            if q >= prev.len() && p >= prev.len() {
                assert(src[p] == (n, inner[p - prev.len()]));
                assert(src[q] == (n, inner[q - prev.len()]));
            } else if q >= prev.len() {
                assert(src[q].0 == n);
                assert(src[p] == prev[p]);
            }
        }
        assert forall|i: int, j: int|
            0 <= i < rows.len() && 0 <= j < rows[i].len() && (#[trigger] rows[i][j]) is Some implies exists|p: int|
                0 <= p < src.len() && src[p] == (i, j) by {
            if i < n {
                assert(rows.drop_last()[i] == rows[i]);
                let p = choose|p: int| 0 <= p < prev.len() && prev[p] == (i, j);
                assert(src[p] == (i, j));
            } else {
                assert(last[j] is Some);
                let p = choose|p: int| 0 <= p < inner.len() && inner[p] == j;
                assert(src[prev.len() + p] == (i, j));
            }
        }
        src
    }
}

/// Calls `Html::parse_document`, `Selector::parse` on both selectors (which
/// parse), `select` on the document and on each element found, and `attr`
/// for the `href` of each element found inside; the results are copied out
/// one for one.
#[verifier::external_body]
fn scrape_link_lists(html: &str, tree: &str, sub: &str) -> (r: Vec<Vec<Option<String>>>)
    requires
        selector_error(tree@) is None,
        selector_error(sub@) is None,
    ensures
        link_lists_view(r@) == html_link_lists(html@, tree@, sub@),
{
    let document = Html::parse_document(html);
    let tree = Selector::parse(tree).unwrap();
    let sub = Selector::parse(sub).unwrap();
    document
        .select(&tree)
        .map(|element| element.select(&sub).map(|inner| inner.value().attr("href").map(|h| h.to_string())).collect())
        .collect()
}

/// `s` read backwards.
pub open spec fn reversed<A>(s: Seq<A>) -> Seq<A> {
    Seq::new(s.len(), |i: int| s[s.len() - 1 - i])
}

/// Position of the first occurrence of `x` in `s` (-1 when there is none).
pub open spec fn position_of(s: Seq<Seq<char>>, x: Seq<char>) -> int
    decreases s.len(),
{
    if s.len() == 0 {
        -1
    } else if s[0] == x {
        0
    } else {
        let r = position_of(s.drop_first(), x);
        if r < 0 {
            -1
        } else {
            r + 1
        }
    }
}

/// `position_of` finds the first occurrence, or tells that there is none.
pub proof fn lemma_position_of(s: Seq<Seq<char>>, x: Seq<char>)
    ensures
        -1 <= position_of(s, x) < s.len(),
        position_of(s, x) >= 0 ==> s[position_of(s, x)] == x,
        forall|j: int| 0 <= j < s.len() && (position_of(s, x) < 0 || j < position_of(s, x)) ==> #[trigger] s[j] != x,
    decreases s.len(),
{
    if s.len() > 0 {
        lemma_position_of(s.drop_first(), x);
        assert forall|j: int| 0 <= j < s.len() && (position_of(s, x) < 0 || j < position_of(s, x)) implies #[trigger] s[j] != x by {
            if j > 0 {
                assert(s[j] == s.drop_first()[j - 1]);
            }
        }
    }
}

/// The link to take next: in page order (or reversed, from the back), the one
/// after the checkpoint, or the first when the checkpoint is absent or not
/// found; none when there is no such link.
pub open spec fn next_link(links: Seq<Seq<char>>, checkpoint: Option<Seq<char>>, from_back: bool) -> Option<Seq<char>> {
    let ordered = if from_back { reversed(links) } else { links };
    let start = match checkpoint {
        Some(c) => position_of(ordered, c) + 1,
        None => 0,
    };
    if start < ordered.len() {
        Some(ordered[start])
    } else {
        None
    }
}

/// Runs walk the links one by one: when no link occurs twice and the
/// checkpoint is the link at position `i` (in the order of taking), the next
/// run takes the link at `i + 1`, and nothing once `i` is the last.
pub proof fn lemma_next_link_advances(links: Seq<Seq<char>>, from_back: bool, i: int)
    requires
        forall|a: int, b: int| 0 <= a < b < links.len() ==> #[trigger] links[a] != #[trigger] links[b],
        0 <= i < links.len(),
    ensures
        ({
            let ordered = if from_back { reversed(links) } else { links };
            next_link(links, Some(ordered[i]), from_back) == if i + 1 < links.len() {
                Some(ordered[i + 1])
            } else {
                None::<Seq<char>>
            }
        }),
{
    let ordered = if from_back { reversed(links) } else { links };
    assert(ordered.len() == links.len());
    assert forall|a: int, b: int| 0 <= a < b < ordered.len() implies #[trigger] ordered[a] != #[trigger] ordered[b] by {
        if from_back {
            assert(ordered[a] == links[links.len() - 1 - a]);
            assert(ordered[b] == links[links.len() - 1 - b]);
        }
    }
    lemma_position_of(ordered, ordered[i]);
    let p = position_of(ordered, ordered[i]);
    if p != i {
        assert(p >= 0);
        if p < i {
            assert(ordered[p] == ordered[i]);
        }
    }
    assert(p == i);
}

/// What follows the last '/' of `s` (all of it when there is none).
pub open spec fn after_last(s: Seq<char>, sep: char) -> Seq<char>
    decreases s.len(),
{
    if s.len() == 0 {
        s
    } else if s.last() == sep {
        Seq::empty()
    } else {
        after_last(s.drop_last(), sep).push(s.last())
    }
}

/// The last segment of a URL path, as `Url::path_segments` yields it: `None`
/// for a path that does not start with '/'.
pub open spec fn last_segment(path: Seq<char>) -> Option<Seq<char>> {
    if path.len() > 0 && path[0] == '/' {
        Some(after_last(path, '/'))
    } else {
        None
    }
}

/// What follows the last separator is a suffix.
proof fn lemma_after_last_suffix(s: Seq<char>, sep: char)
    ensures
        after_last(s, sep).len() <= s.len(),
        after_last(s, sep) == s.subrange(s.len() - after_last(s, sep).len(), s.len() as int),
    decreases s.len(),
{
    if s.len() > 0 && s.last() != sep {
        lemma_after_last_suffix(s.drop_last(), sep);
        let a = after_last(s.drop_last(), sep);
        assert(a.push(s.last()) =~= s.subrange(s.len() - a.len() - 1, s.len() as int));
    }
}

/// An ASCII string can be cut at any byte.
proof fn lemma_ascii_cuttable(s: Seq<char>, n: nat)
    requires
        is_ascii_chars(s),
    ensures
        cuttable(s, n),
{
    if utf8_len(s) > n {
        let bytes = encode_utf8(s);
        vstd::utf8::is_ascii_chars_encode_utf8(s);
        vstd::utf8::encode_utf8_valid_utf8(s);
        vstd::utf8::is_char_boundary_iff_not_is_continuation_byte(bytes, n as int);
        let c = s[n as int];
        assert(c as u8 == bytes[n as int]);
        assert(('\0' <= c && c <= '\u{7f}'));
        assert((c as u32) < 128);
        assert(bytes[n as int] < 128);
    }
}

/// What can go wrong with the HTML list producer.
#[derive(Debug)]
pub enum HtmlListProducerError {
    CreationError(String),
    UrlLoadError(String),
    ExtractError(String),
}

impl HtmlListProducerError {
    /// The text of the error.
    pub open spec fn message(&self) -> Seq<char> {
        match self {
            HtmlListProducerError::CreationError(m) => "Failed to create HtmlListProducer: "@ + m@,
            HtmlListProducerError::UrlLoadError(m) => "Failed to load URL: "@ + m@,
            HtmlListProducerError::ExtractError(m) => "Failed to extract data: "@ + m@,
        }
    }

    /// Renders the error as text.
    pub fn to_string(&self) -> (r: String)
        ensures
            r@ == self.message(),
    {
        let (prefix, m) = match self {
            HtmlListProducerError::CreationError(m) => (owned("Failed to create HtmlListProducer: "), m),
            HtmlListProducerError::UrlLoadError(m) => (owned("Failed to load URL: "), m),
            HtmlListProducerError::ExtractError(m) => (owned("Failed to extract data: "), m),
        };
        let mut r = prefix;
        r.append(m.as_str());
        r
    }
}

/// The state of the producer: the last link it published.
#[derive(Debug, Clone)]
pub struct HtmlListProducerState {
    pub last_extracted_url: Option<String>,
}

/// The view of a state: the last link it published.
pub open spec fn checkpoint_of(state: &HtmlListProducerState) -> Option<Seq<char>> {
    match state.last_extracted_url {
        Some(s) => Some(s@),
        None => None,
    }
}

/// The message published when there is nothing new, with the state unchanged.
pub open spec fn empty_outcome<T: Clone + Send + Sync>(
    outcome: (Message<T>, HtmlListProducerState),
    old: Option<Seq<char>>,
    empty: T,
) -> bool {
    &&& outcome.0.head() == (crate::message::MessageType::Empty, None::<Map<Seq<char>, Seq<char>>>)
    &&& outcome.0.body() == empty
    &&& checkpoint_of(&outcome.1) == old
}

/// A producer for the links that `sub_path` selects inside the elements that
/// `tree_path` selects on the page at `target_url`.
pub struct HtmlListProducer<const STR_CAP: usize> {
    target_url: ParsedUrl,
    tree_path: String,
    sub_path: String,
    ingest_from_back: bool,
}

impl<const STR_CAP: usize> HtmlListProducer<STR_CAP> {
    #[verifier::type_invariant]
    closed spec fn inv(self) -> bool {
        selector_error(self.tree_path@) is None && selector_error(self.sub_path@) is None
    }

    /// The page, the two selectors and the direction, as given.
    pub closed spec fn config(self) -> ((Seq<char>, Seq<char>), Seq<char>, Seq<char>, bool) {
        (self.target_url@, self.tree_path@, self.sub_path@, self.ingest_from_back)
    }

    /// A producer for the page at `target_url`; refused when the URL or one of
    /// the selectors does not parse.
    pub fn new(target_url: &str, tree_path: &str, sub_path: &str, ingest_from_back: bool) -> (r: Result<
        Self,
        HtmlListProducerError,
    >)
        ensures
            match url_parse(target_url@) {
                Err(e) => r matches Err(HtmlListProducerError::CreationError(m)) && m@ == "Invalid target URL '"@
                    + target_url@ + "': "@ + e,
                Ok(u) => match selector_error(tree_path@) {
                    Some(e) => r matches Err(HtmlListProducerError::CreationError(m)) && m@
                        == "Invalid tree path selector '"@ + tree_path@ + "': "@ + e,
                    None => match selector_error(sub_path@) {
                        Some(e) => r matches Err(HtmlListProducerError::CreationError(m)) && m@
                            == "Invalid URL path selector '"@ + sub_path@ + "': "@ + e,
                        None => r matches Ok(p) && p.config() == (u, tree_path@, sub_path@, ingest_from_back),
                    },
                },
            },
    {
        let url = parse_url(target_url);
        let tree_error = check_selector(tree_path);
        let sub_error = check_selector(sub_path);
        Self::from_checks(target_url, url, tree_path, tree_error, sub_path, sub_error, ingest_from_back)
    }

    /// The producer, or the first error, given what parsing the URL and the
    /// two selectors gave (`None` for a selector that parses).
    pub fn from_checks(
        target_url: &str,
        url: Result<ParsedUrl, String>,
        tree_path: &str,
        tree_error: Option<String>,
        sub_path: &str,
        sub_error: Option<String>,
        ingest_from_back: bool,
    ) -> (r: Result<Self, HtmlListProducerError>)
        requires
            tree_error is None ==> selector_error(tree_path@) is None,
            sub_error is None ==> selector_error(sub_path@) is None,
        ensures
            match url {
                Err(e) => r matches Err(HtmlListProducerError::CreationError(m)) && m@ == "Invalid target URL '"@
                    + target_url@ + "': "@ + e@,
                Ok(u) => match tree_error {
                    Some(e) => r matches Err(HtmlListProducerError::CreationError(m)) && m@
                        == "Invalid tree path selector '"@ + tree_path@ + "': "@ + e@,
                    None => match sub_error {
                        Some(e) => r matches Err(HtmlListProducerError::CreationError(m)) && m@
                            == "Invalid URL path selector '"@ + sub_path@ + "': "@ + e@,
                        None => r matches Ok(p) && p.config() == (u@, tree_path@, sub_path@, ingest_from_back),
                    },
                },
            },
    {
        let url = match url {
            Ok(u) => u,
            Err(e) => {
                let mut m = owned("Invalid target URL '");
                m.append(target_url);
                m.append("': ");
                m.append(e.as_str());
                return Err(HtmlListProducerError::CreationError(m));
            },
        };
        if let Some(e) = tree_error {
            let mut m = owned("Invalid tree path selector '");
            m.append(tree_path);
            m.append("': ");
            m.append(e.as_str());
            return Err(HtmlListProducerError::CreationError(m));
        }
        if let Some(e) = sub_error {
            let mut m = owned("Invalid URL path selector '");
            m.append(sub_path);
            m.append("': ");
            m.append(e.as_str());
            return Err(HtmlListProducerError::CreationError(m));
        }
        Ok(Self { target_url: url, tree_path: owned(tree_path), sub_path: owned(sub_path), ingest_from_back })
    }

    /// The page whose links are followed.
    pub fn target_url(&self) -> (r: &ParsedUrl)
        ensures
            r@ == self.config().0,
    {
        &self.target_url
    }

    /// The links of the page `html_content`, in document order: the `href`
    /// of each element that matches the second selector inside an element
    /// that matches the first, skipping elements without one.
    pub fn extract(&self, html_content: &str) -> (r: Vec<String>)
        ensures
            r@.map_values(|s: String| s@) == present_links(
                html_link_lists(html_content@, self.config().1, self.config().2),
            ),
            links_in_document_order(
                html_link_lists(html_content@, self.config().1, self.config().2),
                r@.map_values(|s: String| s@),
            ),
    {
        proof {
            use_type_invariant(self);
        }
        let rows = scrape_link_lists(html_content, self.tree_path.as_str(), self.sub_path.as_str());
        let ghost lists = link_lists_view(rows@);
        let mut r: Vec<String> = Vec::new();
        let mut i: usize = 0;
        while i < rows.len()
            invariant
                0 <= i <= rows@.len(),
                lists == link_lists_view(rows@),
                r@.map_values(|s: String| s@) == present_links(lists.take(i as int)),
            decreases rows@.len() - i,
        {
            let row = &rows[i];
            let ghost base = r@.map_values(|s: String| s@);
            let mut j: usize = 0;
            while j < row.len()
                invariant
                    0 <= j <= row@.len(),
                    row@ == rows@[i as int]@,
                    r@.map_values(|s: String| s@) == base + present(option_texts(row@).take(j as int)),
                decreases row@.len() - j,
            {
                let ghost before = r@;
                assert(option_texts(row@).take(j + 1).drop_last() =~= option_texts(row@).take(j as int));
                match &row[j] {
                    Some(h) => {
                        r.push(h.clone());
                        assert(r@.map_values(|s: String| s@) =~= before.map_values(|s: String| s@).push(h@));
                    },
                    None => {},
                }
                j = j + 1;
            }
            proof {
                assert(option_texts(row@).take(row@.len() as int) =~= option_texts(row@));
                assert(lists.take(i + 1).drop_last() =~= lists.take(i as int));
                assert(lists[i as int] == option_texts(row@));
            }
            i = i + 1;
        }
        assert(lists.take(rows@.len() as int) =~= lists);
        proof {
            let src = lemma_present_links_sources(lists);
            assert(src.len() == src.len());
        }
        r
    }

    /// The link to take next among `links`: see `next_link`.
    pub fn select_link(&self, links: &Vec<String>, checkpoint: &Option<String>) -> (r: Option<String>)
        ensures
            ({
                let want = next_link(
                    links@.map_values(|s: String| s@),
                    match checkpoint {
                        Some(c) => Some(c@),
                        None => None,
                    },
                    self.config().3,
                );
                match r {
                    Some(l) => want == Some(l@),
                    None => want is None,
                }
            }),
    {
        let ghost views = links@.map_values(|s: String| s@);
        let mut ordered: Vec<String> = Vec::new();
        let n = links.len();
        let mut i: usize = 0;
        while i < n
            invariant
                n == links@.len(),
                views == links@.map_values(|s: String| s@),
                0 <= i <= n,
                ordered@.len() == i,
                forall|j: int| 0 <= j < i ==> #[trigger] ordered@[j]@ == (if self.config().3 {
                    reversed(views)
                } else {
                    views
                })[j],
            decreases n - i,
        {
            if self.ingest_from_back {
                ordered.push(links[n - 1 - i].clone());
            } else {
                ordered.push(links[i].clone());
            }
            i = i + 1;
        }
        let ghost ov = if self.config().3 { reversed(views) } else { views };
        assert(ordered@.map_values(|s: String| s@) =~= ov);
        let start: usize = match checkpoint {
            Some(c) => {
                proof {
                    lemma_position_of(ov, c@);
                }
                match find_position(&ordered, c) {
                    Some(j) => j + 1,
                    None => 0,
                }
            },
            None => 0,
        };
        if start < n {
            Some(ordered[start].clone())
        } else {
            None
        }
    }

    /// What to fetch next: the link that `select_link` takes, with its URL;
    /// `None` when there is no such link or it is not a URL.
    pub fn next_fetch(&self, links: &Vec<String>, checkpoint: &Option<String>) -> (r: Option<(String, ParsedUrl)>)
        ensures
            ({
                let want = next_link(
                    links@.map_values(|s: String| s@),
                    match checkpoint {
                        Some(c) => Some(c@),
                        None => None,
                    },
                    self.config().3,
                );
                match r {
                    Some((l, u)) => want == Some(l@) && url_parse(l@) == Ok::<(Seq<char>, Seq<char>), Seq<char>>(u@),
                    None => want is None || (want matches Some(l) && url_parse(l) is Err),
                }
            }),
    {
        let link = match self.select_link(links, checkpoint) {
            Some(l) => l,
            None => return None,
        };
        match ParsedUrl::parse(link.as_str()) {
            Ok(u) => Some((link, u)),
            Err(_) => None,
        }
    }

    /// The name of the file a URL points to: the last segment of its path.
    pub fn get_filename_from_url(&self, url: &ParsedUrl) -> (r: Result<String, HtmlListProducerError>)
        ensures
            match last_segment(url@.1) {
                Some(f) => r matches Ok(name) && name@ == f,
                None => r matches Err(HtmlListProducerError::ExtractError(m)) && m@
                    == "Failed to extract dataset name from URL"@,
            },
    {
        filename_of(url.path())
    }

    /// What to publish when there is nothing new (no page, no link after the
    /// checkpoint, or a link that is no URL): the empty message, with `empty`
    /// as payload and no metadata, and the old state.
    pub fn nothing_new<T: Clone + Send + Sync>(old_state: HtmlListProducerState, empty: T) -> (r: (
        Message<T>,
        HtmlListProducerState,
    ))
        ensures
            empty_outcome(r, checkpoint_of(&old_state), empty),
    {
        (
            MessageBuilder::new_empty(empty).unwrap().build(),
            HtmlListProducerState { last_extracted_url: old_state.last_extracted_url },
        )
    }

    /// What to publish after fetching `link` (whose URL is `url`): with no
    /// content, or when the URL names no file, the empty message and the old
    /// state; else a data message of the content with the file name under the
    /// key `filename`, and `link` as the new state.
    pub fn finish_produce<T: Clone + Send + Sync>(
        &self,
        old_state: HtmlListProducerState,
        link: String,
        url: &ParsedUrl,
        content: Option<T>,
        empty: T,
    ) -> (r: (Message<T>, HtmlListProducerState))
        ensures
            match content {
                None => empty_outcome(r, checkpoint_of(&old_state), empty),
                Some(body) => match last_segment(url@.1) {
                    None => empty_outcome(r, checkpoint_of(&old_state), empty),
                    Some(f) => r.0.head() == (
                        crate::message::MessageType::Data,
                        crate::message::with_meta(None, "filename"@, f),
                    ) && r.0.body() == body && checkpoint_of(&r.1) == Some(link@),
                },
            },
    {
        let body = match content {
            Some(b) => b,
            None => {
                return Self::nothing_new(old_state, empty);
            },
        };
        let name = match self.get_filename_from_url(url) {
            Ok(n) => n,
            Err(_) => {
                return Self::nothing_new(old_state, empty);
            },
        };
        proof {
            use_type_invariant(url);
            reveal_strlit("filename");
            lemma_after_last_suffix(url@.1, '/');
            let path = url@.1;
            let off = path.len() - name@.len();
            assert forall|i: int| 0 <= i < name@.len() implies '\0' <= #[trigger] name@[i] <= '\u{7f}' by {
                assert(name@[i] == path[off + i]);
            }
            lemma_ascii_cuttable(name@, META_VALUE_CAP as nat);
            lemma_ascii_cuttable("filename"@, META_KEY_CAP as nat);
        }
        let message = MessageBuilder::new_data(body).unwrap().add_meta("filename", name.as_str()).build();
        (message, HtmlListProducerState { last_extracted_url: Some(link) })
    }
}

/// Position of the first string of `v` equal to `x`.
fn find_position(v: &Vec<String>, x: &String) -> (r: Option<usize>)
    ensures
        match r {
            Some(j) => j as int == position_of(v@.map_values(|s: String| s@), x@),
            None => position_of(v@.map_values(|s: String| s@), x@) == -1,
        },
{
    let ghost views = v@.map_values(|s: String| s@);
    proof {
        lemma_position_of(views, x@);
    }
    let mut j: usize = 0;
    while j < v.len()
        invariant
            views == v@.map_values(|s: String| s@),
            0 <= j <= v@.len(),
            forall|k: int| 0 <= k < j ==> #[trigger] views[k] != x@,
            -1 <= position_of(views, x@) < views.len(),
            position_of(views, x@) >= 0 ==> views[position_of(views, x@)] == x@,
            forall|k: int| 0 <= k < views.len() && (position_of(views, x@) < 0 || k < position_of(views, x@))
                ==> #[trigger] views[k] != x@,
        decreases v@.len() - j,
    {
        if v[j] == *x {
            assert(views[j as int] == x@);
            assert(position_of(views, x@) == j) by {
                let p = position_of(views, x@);
                if p >= 0 && p < j {
                    assert(views[p] != x@);
                }
            }
            return Some(j);
        }
        j = j + 1;
    }
    None
}

/// The last segment of `path`, as `get_filename_from_url` gives it.
fn filename_of(path: &str) -> (r: Result<String, HtmlListProducerError>)
    ensures
        match last_segment(path@) {
            Some(f) => r matches Ok(name) && name@ == f,
            None => r matches Err(HtmlListProducerError::ExtractError(m)) && m@
                == "Failed to extract dataset name from URL"@,
        },
{
    if path.unicode_len() == 0 || path.get_char(0) != '/' {
        return Err(HtmlListProducerError::ExtractError(owned("Failed to extract dataset name from URL")));
    }
    let mut current = String::new();
    for c in it: path.chars()
        invariant
            it.seq() == path@,
            current@ == after_last(path@.take(it.index() as int), '/'),
    {
        assert(path@.take(it.index() + 1).drop_last() =~= path@.take(it.index() as int));
        if c == '/' {
            current = String::new();
        } else {
            push_char(&mut current, c);
        }
    }
    assert(path@.take(path@.len() as int) =~= path@);
    Ok(current)
}

} // verus!
