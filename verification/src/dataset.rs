//! Preparing the raw XML text: stripping entity references and cutting the
//! document into fragments that each hold a bounded number of records.

use crate::pattern::{compile, find_first, first_match, regex_compiles, regex_source, replace_all, replaced_all};
use crate::text::{chars_of, string_of};
use regex::Regex;
use vstd::prelude::*;
use vstd::string::*;
use vstd::utf8::*;

pub mod db_items;
pub mod xml_items;

verus! {

/// Where the store is kept unless a path is given.
pub const DB_DEFAULT_PATH: &'static str = "dblp.sqlite";

/// Where the compressed document is looked for unless a path is given.
pub const XML_GZ_PATH: &'static str = "dblp.xml.gz";

/// Where the plain document is looked for unless a path is given.
pub const XML_PATH: &'static str = "dblp.xml";

/// The document to read: the path given, else the plain document where it
/// exists, else the compressed one where it exists, else none.
pub fn select_xml_path(path: Option<&str>, gz_exists: bool, xml_exists: bool) -> (chosen: Option<
    &str,
>)
    ensures
        match path {
            Some(p) => chosen == Some(p),
            None => if xml_exists {
                chosen == Some(XML_PATH)
            } else if gz_exists {
                chosen == Some(XML_GZ_PATH)
            } else {
                chosen is None
            },
        },
{
    match path {
        Some(p) => Some(p),
        None => if xml_exists {
            Some(XML_PATH)
        } else if gz_exists {
            Some(XML_GZ_PATH)
        } else {
            None
        },
    }
}

/// Whether `path` ends in `.gz`.
pub open spec fn ends_in_gz(path: Seq<char>) -> bool {
    path.len() >= 3 && path.subrange(path.len() - 3, path.len() as int) == seq!['.', 'g', 'z']
}

/// Whether the document at `path` is compressed, which its name tells.
pub fn is_gzip_path(path: &str) -> (r: bool)
    ensures
        r == ends_in_gz(path@),
{
    let text = chars_of(path);
    let n = text.len();
    if n < 3 {
        return false;
    }
    let r = text[n - 3] == '.' && text[n - 2] == 'g' && text[n - 1] == 'z';
    proof {
        let tail = text@.subrange(n - 3, n as int);
        assert(tail[0] == text@[n - 3] && tail[1] == text@[n - 2] && tail[2] == text@[n - 1]);
        if r {
            assert(tail =~= seq!['.', 'g', 'z']);
        }
    }
    r
}

/// Matches an entity reference such as `&amp;`.
pub const XML_REF_REGEX: &'static str = "&[A-Za-z]+;";

/// Matches the start of an opening tag: a whole tag without attributes, or
/// the tag up to its attributes.
pub const XML_START_TAG: &'static str = r"<\w+>|<\w+";

/// Matches a closing tag, or the end of a self-closing one.
pub const XML_END_TAG: &'static str = r"</\w+>|/>";

/// Matches a whole self-closing tag.
pub const XML_SELF_CLOSE_TAG: &'static str = r"<\w+[^>]*?/>";

/// Remove every entity reference from `input_xml`.
///
/// The result is `None` only where the pattern for references does not
/// compile. A text in which the pattern matches nowhere is returned as it
/// is, so stripping a stripped text that holds no reference changes nothing.
pub fn strip_references(input_xml: &str) -> (out: Option<String>)
    ensures
        out is Some <==> regex_compiles(XML_REF_REGEX@),
        out matches Some(text) ==> {
            &&& text@ == replaced_all(XML_REF_REGEX@, input_xml@, Seq::empty())
            &&& first_match(XML_REF_REGEX@, input_xml.spec_bytes()) is None ==> text@ == input_xml@
        },
{
    proof {
        reveal_strlit("");
        assert(""@ =~= Seq::<char>::empty());
    }
    match compile(XML_REF_REGEX) {
        Some(re) => Some(replace_all(&re, input_xml, "")),
        None => None,
    }
}

/// What a tag does to the nesting depth.
#[derive(Clone, Copy, Debug, PartialEq, Eq)]
pub enum TagKind {
    Opening,
    Closing,
    SelfClosing,
}

/// Whether the match `a` starts strictly before the match `b`, or `b` is
/// missing.
pub open spec fn precedes(a: (usize, usize), b: Option<(usize, usize)>) -> bool {
    match b {
        Some(m) => a.0 < m.0,
        None => true,
    }
}

/// The tag to consume next, given the first opening, closing and
/// self-closing match in the text ahead: its kind and the offset of its end.
///
/// A self-closing match is taken only where it starts strictly before both
/// others. Otherwise the earlier of the opening and the closing match is
/// taken; there is none where both are missing or both start at the same
/// offset.
pub open spec fn step_of(
    open: Option<(usize, usize)>,
    close: Option<(usize, usize)>,
    self_close: Option<(usize, usize)>,
) -> Option<(TagKind, usize)> {
    if self_close is Some && precedes(self_close->0, open) && precedes(self_close->0, close) {
        Some((TagKind::SelfClosing, (self_close->0).1))
    } else {
        match (open, close) {
            (Some(o), Some(c)) => if o.0 < c.0 {
                Some((TagKind::Opening, o.1))
            } else if c.0 < o.0 {
                Some((TagKind::Closing, c.1))
            } else {
                None
            },
            (Some(o), None) => Some((TagKind::Opening, o.1)),
            (None, Some(c)) => Some((TagKind::Closing, c.1)),
            (None, None) => None,
        }
    }
}

fn starts_before(a: (usize, usize), b: Option<(usize, usize)>) -> (r: bool)
    ensures
        r == precedes(a, b),
{
    match b {
        Some(m) => a.0 < m.0,
        None => true,
    }
}

/// Choose the tag to consume next from the three first matches.
pub fn choose_step(
    open: Option<(usize, usize)>,
    close: Option<(usize, usize)>,
    self_close: Option<(usize, usize)>,
) -> (step: Option<(TagKind, usize)>)
    ensures
        step == step_of(open, close, self_close),
{
    if let Some(s) = self_close {
        if starts_before(s, open) && starts_before(s, close) {
            return Some((TagKind::SelfClosing, s.1));
        }
    }
    match (open, close) {
        (Some(o), Some(c)) => {
            if o.0 < c.0 {
                Some((TagKind::Opening, o.1))
            } else if c.0 < o.0 {
                Some((TagKind::Closing, c.1))
            } else {
                None
            }
        },
        (Some(o), None) => Some((TagKind::Opening, o.1)),
        (None, Some(c)) => Some((TagKind::Closing, c.1)),
        (None, None) => None,
    }
}

/// The tag to consume next in `rest`.
pub open spec fn next_tag(rest: Seq<u8>) -> Option<(TagKind, usize)> {
    step_of(
        first_match(XML_START_TAG@, rest),
        first_match(XML_END_TAG@, rest),
        first_match(XML_SELF_CLOSE_TAG@, rest),
    )
}

/// The nesting depth after a tag of `kind` at depth `depth`.
pub open spec fn depth_after(depth: nat, kind: TagKind) -> nat {
    match kind {
        TagKind::Opening => depth + 1,
        TagKind::Closing => (depth - 1) as nat,
        TagKind::SelfClosing => depth,
    }
}

/// The number of bytes of `rest` up to the end of the tag that brings the
/// nesting depth from `depth` to zero, or `None` where the tags of `rest`
/// never do so.
pub open spec fn close_offset(rest: Seq<u8>, depth: nat) -> Option<int>
    decreases rest.len(),
{
    if depth == 0 {
        Some(0)
    } else {
        match next_tag(rest) {
            Some((kind, end)) => if 0 < end <= rest.len() {
                match close_offset(rest.subrange(end as int, rest.len() as int), depth_after(depth, kind)) {
                    Some(more) => Some(end + more),
                    None => None,
                }
            } else {
                None
            },
            None => None,
        }
    }
}

/// The length in bytes of the element at the start of `rest`: everything
/// up to the first opening tag, that tag, and what follows up to the tag
/// that closes it. `None` where `rest` holds no opening tag or the element
/// does not close.
pub open spec fn element_len(rest: Seq<u8>) -> Option<int> {
    match first_match(XML_START_TAG@, rest) {
        Some((start, end)) => if 0 < end <= rest.len() {
            match close_offset(rest.subrange(end as int, rest.len() as int), 1) {
                Some(more) => Some(end + more),
                None => None,
            }
        } else {
            None
        },
        None => None,
    }
}

/// The offset in `text` at which the element that starts at `cursor` ends.
pub open spec fn element_end(text: Seq<u8>, cursor: int) -> Option<int> {
    match element_len(text.subrange(cursor, text.len() as int)) {
        Some(n) => Some(cursor + n),
        None => None,
    }
}

/// The offset reached from `cursor` after taking elements one by one until
/// `count` are taken or none is left.
pub open spec fn elements_end(text: Seq<u8>, cursor: int, count: nat) -> int
    decreases count,
{
    if count == 0 {
        cursor
    } else {
        match element_end(text, cursor) {
            Some(end) => elements_end(text, end, (count - 1) as nat),
            None => cursor,
        }
    }
}

/// The tag that closes an element ends within the text.
pub proof fn lemma_close_offset_in_text(rest: Seq<u8>, depth: nat)
    ensures
        close_offset(rest, depth) matches Some(n) ==> 0 <= n <= rest.len(),
    decreases rest.len(),
{
    if depth != 0 {
        match next_tag(rest) {
            Some((kind, end)) => {
                if 0 < end <= rest.len() {
                    lemma_close_offset_in_text(
                        rest.subrange(end as int, rest.len() as int),
                        depth_after(depth, kind),
                    );
                }
            },
            None => {},
        }
    }
}

/// An element is not empty and ends within the text.
pub proof fn lemma_element_in_text(text: Seq<u8>, cursor: int)
    requires
        0 <= cursor <= text.len(),
    ensures
        element_end(text, cursor) matches Some(end) ==> cursor < end <= text.len(),
{
    let rest = text.subrange(cursor, text.len() as int);
    match first_match(XML_START_TAG@, rest) {
        Some((start, end)) => {
            if 0 < end <= rest.len() {
                lemma_close_offset_in_text(rest.subrange(end as int, rest.len() as int), 1);
            }
        },
        None => {},
    }
}

/// Taking elements never moves the cursor back or past the end of the text.
pub proof fn lemma_elements_in_text(text: Seq<u8>, cursor: int, count: nat)
    requires
        0 <= cursor <= text.len(),
    ensures
        cursor <= elements_end(text, cursor, count) <= text.len(),
    decreases count,
{
    if count > 0 {
        lemma_element_in_text(text, cursor);
        match element_end(text, cursor) {
            Some(end) => {
                lemma_elements_in_text(text, end, (count - 1) as nat);
            },
            None => {},
        }
    }
}

/// Taking `a` elements and then `b` more ends where taking `a + b`
/// elements at once ends: fragments taken one after another cover the same
/// elements, whatever their sizes.
pub proof fn lemma_elements_end_split(text: Seq<u8>, cursor: int, a: nat, b: nat)
    ensures
        elements_end(text, elements_end(text, cursor, a), b) == elements_end(text, cursor, a + b),
    decreases a,
{
    if a > 0 {
        match element_end(text, cursor) {
            Some(end) => {
                lemma_elements_end_split(text, end, (a - 1) as nat, b);
                assert((a - 1) as nat + b == (a + b - 1) as nat);
            },
            None => {
                lemma_elements_end_stuck(text, cursor, b);
                lemma_elements_end_stuck(text, cursor, a + b);
            },
        }
    }
}

/// Where no element starts at the cursor, taking elements leaves it in place.
pub proof fn lemma_elements_end_stuck(text: Seq<u8>, cursor: int, count: nat)
    requires
        element_end(text, cursor) is None,
    ensures
        elements_end(text, cursor, count) == cursor,
{
}

/// Whether `c` is one of the two angle brackets.
pub open spec fn is_angle(c: char) -> bool {
    c == '<' || c == '>'
}

/// `s` without the angle brackets at its start.
pub open spec fn trim_start_angle(s: Seq<char>) -> Seq<char>
    decreases s.len(),
{
    if s.len() > 0 && is_angle(s[0]) {
        trim_start_angle(s.drop_first())
    } else {
        s
    }
}

/// `s` without the angle brackets at its end.
pub open spec fn trim_end_angle(s: Seq<char>) -> Seq<char>
    decreases s.len(),
{
    if s.len() > 0 && is_angle(s.last()) {
        trim_end_angle(s.drop_last())
    } else {
        s
    }
}

/// The closing tag for an opening tag: `</`, the opening tag without the
/// angle brackets at its ends, and `>`.
pub open spec fn closing_tag(open: Seq<char>) -> Seq<char> {
    seq!['<', '/'] + trim_end_angle(trim_start_angle(open)) + seq!['>']
}

/// Whether `s` holds no angle bracket.
pub open spec fn angle_free(s: Seq<char>) -> bool {
    forall|i: int| 0 <= i < s.len() ==> !is_angle(#[trigger] s[i])
}

/// The closing tag for the opening tag of an element named `name`, matched
/// with or without its closing bracket, is `</name>`.
pub proof fn lemma_closing_tag_of_name(name: Seq<char>)
    requires
        angle_free(name),
    ensures
        closing_tag(seq!['<'] + name + seq!['>']) == seq!['<', '/'] + name + seq!['>'],
        closing_tag(seq!['<'] + name) == seq!['<', '/'] + name + seq!['>'],
{
    let whole = seq!['<'] + name + seq!['>'];
    let bare = seq!['<'] + name;
    let closed = name + seq!['>'];
    assert(whole.drop_first() =~= closed);
    assert(bare.drop_first() =~= name);
    assert(is_angle(whole[0]) && is_angle(bare[0]));
    assert(trim_start_angle(whole) == trim_start_angle(closed));
    assert(trim_start_angle(bare) == trim_start_angle(name));
    assert(closed.drop_last() =~= name);
    assert(is_angle(closed.last()));
    assert(trim_end_angle(closed) == trim_end_angle(name));
    if name.len() > 0 {
        assert(!is_angle(name[0]));
        assert(!is_angle(name[name.len() - 1]));
        assert(closed[0] == name[0]);
        assert(trim_start_angle(closed) == closed);
        assert(trim_start_angle(name) == name);
        assert(trim_end_angle(name) == name);
    } else {
        assert(closed.drop_first() =~= Seq::<char>::empty());
        assert(trim_start_angle(closed.drop_first()) == closed.drop_first());
        assert(trim_start_angle(closed) =~= name);
        assert(trim_start_angle(name) == name);
        assert(trim_end_angle(name) == name);
    }
}

/// Build the closing tag for an opening tag.
pub fn make_closing_tag(open: &str) -> (out: String)
    ensures
        out@ == closing_tag(open@),
{
    let text = chars_of(open);
    let n = text.len();
    let mut lo: usize = 0;
    assert(text@.subrange(0, n as int) =~= text@);
    while lo < n && (text[lo] == '<' || text[lo] == '>')
        invariant
            n == text.len(),
            lo <= n,
            trim_start_angle(text@) == trim_start_angle(text@.subrange(lo as int, n as int)),
        decreases n - lo,
    {
        proof {
            let cur = text@.subrange(lo as int, n as int);
            assert(cur.drop_first() =~= text@.subrange(lo + 1, n as int));
        }
        lo += 1;
    }
    let mut hi: usize = n;
    while hi > lo && (text[hi - 1] == '<' || text[hi - 1] == '>')
        invariant
            n == text.len(),
            lo <= hi <= n,
            trim_end_angle(text@.subrange(lo as int, n as int)) == trim_end_angle(
                text@.subrange(lo as int, hi as int),
            ),
        decreases hi,
    {
        proof {
            let cur = text@.subrange(lo as int, hi as int);
            assert(cur.drop_last() =~= text@.subrange(lo as int, hi - 1));
        }
        hi -= 1;
    }
    let mut buf: Vec<char> = Vec::new();
    buf.push('<');
    buf.push('/');
    let mut i: usize = lo;
    while i < hi
        invariant
            lo <= i <= hi <= n,
            n == text.len(),
            buf@ == seq!['<', '/'] + text@.subrange(lo as int, i as int),
        decreases hi - i,
    {
        buf.push(text[i]);
        i += 1;
    }
    buf.push('>');
    proof {
        let from_lo = text@.subrange(lo as int, n as int);
        let mid = text@.subrange(lo as int, hi as int);
        assert(text@.subrange(0, n as int) =~= text@);
        assert(trim_start_angle(text@) == from_lo) by {
            if lo < n {
                assert(from_lo[0] == text@[lo as int]);
            }
        }
        assert(trim_end_angle(from_lo) == mid) by {
            if hi > lo {
                assert(mid.last() == text@[hi - 1]);
            }
        }
        assert(buf@ =~= closing_tag(open@));
    }
    string_of(&buf)
}

/// A character boundary of a text is one of any slice of it that starts and
/// ends on character boundaries, and such a slice is valid UTF-8.
pub proof fn lemma_slice_boundary(text: Seq<u8>, a: int, b: int, i: int)
    requires
        valid_utf8(text),
        0 <= a <= i <= b <= text.len(),
        is_char_boundary(text, a),
        is_char_boundary(text, b),
        is_char_boundary(text, i),
    ensures
        valid_utf8(text.subrange(a, b)),
        is_char_boundary(text.subrange(a, b), i - a),
{
    let suffix = text.subrange(a, text.len() as int);
    valid_utf8_split(text, a);
    assert(is_char_boundary(suffix, b - a)) by {
        if b == text.len() {
            is_char_boundary_start_end_of_seq(suffix);
        } else if b > a {
            is_char_boundary_iff_not_is_continuation_byte(text, b);
            is_char_boundary_iff_not_is_continuation_byte(suffix, b - a);
        }
    }
    valid_utf8_split(suffix, b - a);
    let slice = text.subrange(a, b);
    assert(suffix.subrange(0, b - a) =~= slice);
    if i == b {
        is_char_boundary_start_end_of_seq(slice);
    } else if i > a {
        is_char_boundary_iff_not_is_continuation_byte(text, i);
        is_char_boundary_iff_not_is_continuation_byte(slice, i - a);
    }
}

/// A character boundary of the part of a text that starts at a character
/// boundary is one of the whole text.
pub proof fn lemma_suffix_boundary(text: Seq<u8>, a: int, e: int)
    requires
        valid_utf8(text),
        0 <= a <= text.len(),
        is_char_boundary(text, a),
        0 <= e <= text.len() - a,
        is_char_boundary(text.subrange(a, text.len() as int), e),
    ensures
        is_char_boundary(text, a + e),
{
    let suffix = text.subrange(a, text.len() as int);
    valid_utf8_split(text, a);
    if a + e == text.len() {
        is_char_boundary_start_end_of_seq(text);
    } else if e > 0 {
        is_char_boundary_iff_not_is_continuation_byte(suffix, e);
        is_char_boundary_iff_not_is_continuation_byte(text, a + e);
    }
}

/// Two adjacent slices of a text, cut on character boundaries, decode to the
/// two parts of what the slice that spans both decodes to.
pub proof fn lemma_decode_adjacent(text: Seq<u8>, a: int, m: int, b: int)
    requires
        valid_utf8(text),
        0 <= a <= m <= b <= text.len(),
        is_char_boundary(text, a),
        is_char_boundary(text, m),
        is_char_boundary(text, b),
    ensures
        decode_utf8(text.subrange(a, b)) == decode_utf8(text.subrange(a, m)) + decode_utf8(
            text.subrange(m, b),
        ),
{
    let slice = text.subrange(a, b);
    lemma_slice_boundary(text, a, b, m);
    decode_utf8_split(slice, m - a);
    assert(slice.subrange(0, m - a) =~= text.subrange(a, m));
    assert(slice.subrange(m - a, slice.len() as int) =~= text.subrange(m, b));
}

/// A cursor over an XML document that hands out the children of the root
/// element one by one, or wrapped in copies of the root's tags a bounded
/// number at a time, so that each fragment is a document of its own.
pub struct ChunkedXmlViewer<'xml> {
    offset: usize,
    len: usize,
    num_chunks: usize,
    root_tag_start: String,
    root_tag_end: String,
    re_start: Regex,
    re_end: Regex,
    re_self_close: Regex,
    inner: &'xml str,
}

impl<'xml> ChunkedXmlViewer<'xml> {
    /// The bytes of the document after the root's opening tag.
    pub closed spec fn text(&self) -> Seq<u8> {
        self.inner.spec_bytes()
    }

    /// The offset in `text` up to which elements have been handed out.
    pub closed spec fn cursor(&self) -> int {
        self.offset as int
    }

    /// The largest number of elements in one fragment.
    pub closed spec fn chunk_size(&self) -> usize {
        self.num_chunks
    }

    /// The opening tag of the root, as it was matched.
    pub closed spec fn root_open(&self) -> Seq<char> {
        self.root_tag_start@
    }

    /// The closing tag of the root.
    pub closed spec fn root_close(&self) -> Seq<char> {
        self.root_tag_end@
    }

    /// The viewer's invariant: its three expressions are compiled from the
    /// three tag patterns, and the cursor lies within the text on a
    /// character boundary.
    pub closed spec fn wf(&self) -> bool {
        &&& regex_source(self.re_start) == XML_START_TAG@
        &&& regex_source(self.re_end) == XML_END_TAG@
        &&& regex_source(self.re_self_close) == XML_SELF_CLOSE_TAG@
        &&& self.len == self.inner.spec_bytes().len()
        &&& self.offset <= self.len
        &&& is_char_boundary(self.inner.spec_bytes(), self.offset as int)
    }

    /// Whether `self` reads the same document with the same settings as
    /// `other`; only the cursor may differ.
    pub open spec fn same_source(&self, other: &Self) -> bool {
        &&& self.text() == other.text()
        &&& self.chunk_size() == other.chunk_size()
        &&& self.root_open() == other.root_open()
        &&& self.root_close() == other.root_close()
    }

    /// Start reading `input`: find the root's opening tag and stand right
    /// after it. `num_chunks` is the number of children of the root that one
    /// fragment holds at most.
    ///
    /// There is no viewer where one of the tag patterns does not compile or
    /// `input` holds no opening tag.
    pub fn from_str(input: &'xml str, num_chunks: usize) -> (viewer: Option<Self>)
        ensures
            viewer is Some <==> {
                &&& regex_compiles(XML_START_TAG@)
                &&& regex_compiles(XML_END_TAG@)
                &&& regex_compiles(XML_SELF_CLOSE_TAG@)
                &&& first_match(XML_START_TAG@, input.spec_bytes()) is Some
            },
            viewer matches Some(v) ==> {
                &&& v.wf()
                &&& v.cursor() == 0
                &&& v.chunk_size() == num_chunks
                &&& first_match(XML_START_TAG@, input.spec_bytes()) matches Some((start, end))
                &&& start <= end <= input.spec_bytes().len()
                &&& v.root_open() == decode_utf8(input.spec_bytes().subrange(start as int, end as int))
                &&& v.root_close() == closing_tag(v.root_open())
                &&& v.text() == input.spec_bytes().subrange(
                    end as int,
                    input.spec_bytes().len() as int,
                )
            },
    {
        let start_regex = match compile(XML_START_TAG) {
            Some(re) => re,
            None => { return None; },
        };
        let end_regex = match compile(XML_END_TAG) {
            Some(re) => re,
            None => { return None; },
        };
        let self_close_regex = match compile(XML_SELF_CLOSE_TAG) {
            Some(re) => re,
            None => { return None; },
        };
        let (start, end) = match find_first(&start_regex, input) {
            Some(m) => m,
            None => { return None; },
        };
        let ghost bytes = input.spec_bytes();
        proof {
            encode_utf8_valid_utf8(input@);
            is_char_boundary_start_end_of_seq(bytes);
            lemma_slice_boundary(bytes, 0, end as int, start as int);
        }
        let (head, inner) = input.split_at(end);
        let (_, matched) = head.split_at(start);
        proof {
            encode_utf8_valid_utf8(inner@);
            is_char_boundary_start_end_of_seq(inner.spec_bytes());
            encode_utf8_decode_utf8(matched@);
            assert(matched.spec_bytes() =~= bytes.subrange(start as int, end as int));
        }
        let tag_start = matched.to_owned();
        let tag_end = make_closing_tag(matched);
        let viewer = ChunkedXmlViewer {
            offset: 0,
            len: inner.as_bytes().len(),
            num_chunks,
            root_tag_start: tag_start,
            root_tag_end: tag_end,
            re_start: start_regex,
            re_end: end_regex,
            re_self_close: self_close_regex,
            inner,
        };
        Some(viewer)
    }

    /// The next child of the root, with the text that stands before it.
    ///
    /// The element is the part of the text from the cursor to the end of the
    /// tag that closes the first tag opened after the cursor, and the cursor
    /// moves to its end: elements handed out one after another neither
    /// overlap nor leave a gap. Where no further element opens, or the one
    /// that opens never closes, there is none and the cursor stays.
    pub fn next_element(&mut self) -> (element: Option<&'xml str>)
        requires
            old(self).wf(),
        ensures
            final(self).wf(),
            final(self).same_source(old(self)),
            match element_end(old(self).text(), old(self).cursor()) {
                Some(end) => {
                    &&& old(self).cursor() < end <= old(self).text().len()
                    &&& final(self).cursor() == end
                    &&& element matches Some(e)
                    &&& e.spec_bytes() == old(self).text().subrange(old(self).cursor(), end)
                },
                None => element is None && final(self).cursor() == old(self).cursor(),
            },
    {
        let ghost text = self.inner.spec_bytes();
        proof {
            encode_utf8_valid_utf8(self.inner@);
        }
        let (_, rest0) = self.inner.split_at(self.offset);
        let ghost tail = rest0.spec_bytes();
        assert(tail == text.subrange(self.offset as int, text.len() as int));
        let first = find_first(&self.re_start, rest0);
        let first_end = match first {
            Some((_, end)) => end,
            None => { return None; },
        };
        if first_end == 0 {
            return None;
        }
        let mut depth: usize = 1;
        let mut consumed: usize = first_end;
        let (_, mut rest) = rest0.split_at(first_end);
        let ghost inside = tail.subrange(first_end as int, tail.len() as int);
        proof {
            valid_utf8_split(text, self.offset as int);
        }
        while depth != 0
            invariant
                self.wf(),
                *self == *old(self),
                text == self.inner.spec_bytes(),
                tail == text.subrange(self.offset as int, text.len() as int),
                valid_utf8(tail),
                inside == tail.subrange(first_end as int, tail.len() as int),
                first_match(XML_START_TAG@, tail) == first,
                first matches Some((_, end)) && end == first_end,
                0 < first_end <= consumed <= tail.len(),
                depth <= consumed,
                is_char_boundary(tail, consumed as int),
                rest.spec_bytes() == tail.subrange(consumed as int, tail.len() as int),
                match close_offset(rest.spec_bytes(), depth as nat) {
                    Some(more) => close_offset(inside, 1) == Some(consumed - first_end + more),
                    None => close_offset(inside, 1) is None,
                },
            decreases tail.len() - consumed,
        {
            let open = find_first(&self.re_start, rest);
            let close = find_first(&self.re_end, rest);
            let self_close = find_first(&self.re_self_close, rest);
            let ghost ahead = rest.spec_bytes();
            assert(next_tag(ahead) == step_of(open, close, self_close));
            let (kind, end) = match choose_step(open, close, self_close) {
                Some(step) => step,
                None => {
                    assert(close_offset(ahead, depth as nat) is None);
                    return None;
                },
            };
            assert(end <= ahead.len());
            if end == 0 {
                assert(close_offset(ahead, depth as nat) is None);
                return None;
            }
            proof {
                assert(close_offset(ahead, depth as nat) == match close_offset(
                    ahead.subrange(end as int, ahead.len() as int),
                    depth_after(depth as nat, kind),
                ) {
                    Some(more) => Some(end + more),
                    None => None,
                });
                lemma_suffix_boundary(tail, consumed as int, end as int);
                assert(rest.spec_bytes().subrange(end as int, rest.spec_bytes().len() as int)
                    =~= tail.subrange(consumed + end, tail.len() as int));
            }
            let (_, after) = rest.split_at(end);
            rest = after;
            consumed = consumed + end;
            match kind {
                TagKind::Opening => { depth = depth + 1; },
                TagKind::Closing => { depth = depth - 1; },
                TagKind::SelfClosing => {},
            }
        }
        proof {
            lemma_suffix_boundary(text, self.offset as int, consumed as int);
            assert(tail.subrange(0, consumed as int) =~= text.subrange(
                self.offset as int,
                self.offset + consumed,
            ));
        }
        let (element, _) = rest0.split_at(consumed);
        self.offset = self.offset + consumed;
        Some(element)
    }

    /// The next fragment: the root's opening tag, the next elements up to
    /// the viewer's chunk size, and the root's closing tag.
    ///
    /// The fragment holds exactly the text between the cursor before the
    /// call and the cursor after it. There is none where the cursor stands
    /// at the end of the text or no element is left.
    pub fn next_chunk(&mut self) -> (chunk: Option<String>)
        requires
            old(self).wf(),
        ensures
            final(self).wf(),
            final(self).same_source(old(self)),
            old(self).cursor() <= final(self).cursor() <= old(self).text().len(),
            final(self).cursor() == if old(self).cursor() >= old(self).text().len() {
                old(self).cursor()
            } else {
                elements_end(old(self).text(), old(self).cursor(), old(self).chunk_size() as nat)
            },
            chunk is Some <==> old(self).cursor() < final(self).cursor(),
            chunk matches Some(fragment) ==> fragment@ == old(self).root_open() + decode_utf8(
                old(self).text().subrange(old(self).cursor(), final(self).cursor()),
            ) + old(self).root_close(),
    {
        if self.offset >= self.len {
            return None;
        }
        let ghost text = self.inner.spec_bytes();
        let start = self.offset;
        let mut count = self.num_chunks;
        let mut more = true;
        let mut body = String::new();
        proof {
            encode_utf8_valid_utf8(self.inner@);
            assert(text.subrange(start as int, start as int) =~= Seq::<u8>::empty());
            assert(decode_utf8(Seq::<u8>::empty()) =~= Seq::<char>::empty());
        }
        while count != 0 && more
            invariant
                self.wf(),
                self.same_source(old(self)),
                text == self.text(),
                valid_utf8(text),
                start == old(self).cursor(),
                start <= self.cursor() <= text.len(),
                is_char_boundary(text, start as int),
                body@ == decode_utf8(text.subrange(start as int, self.cursor())),
                elements_end(text, start as int, old(self).chunk_size() as nat) == elements_end(
                    text,
                    self.cursor(),
                    count as nat,
                ),
                !more ==> element_end(text, self.cursor()) is None,
            decreases (if more { 1int } else { 0int }) + count,
        {
            let ghost before = self.offset;
            match self.next_element() {
                Some(element) => {
                    body.append(element);
                    count = count - 1;
                    proof {
                        encode_utf8_decode_utf8(element@);
                        lemma_decode_adjacent(text, start as int, before as int, self.cursor());
                    }
                },
                None => {
                    more = false;
                },
            }
        }
        if self.offset == start {
            return None;
        }
        let mut out = self.root_tag_start.clone();
        out.append(body.as_str());
        out.append(self.root_tag_end.as_str());
        Some(out)
    }
}

} // verus!
