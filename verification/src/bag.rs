//! The separator-delimited bag encoding of a list of strings.
//!
//! A list `[a, b, c]` is stored as `::a::b::c::`: the separator stands before
//! the first entry, between entries and after the last one, so that a whole
//! entry can be found by searching for it between two separators. The empty
//! list is stored as the empty string.

use crate::text::{chars_of, string_of};
use vstd::prelude::*;

verus! {

/// The separator that bounds and joins the entries of a bag.
pub const SEPARATOR: &'static str = "::";

/// The separator as a sequence of characters.
pub open spec fn separator() -> Seq<char> {
    seq![':', ':']
}

/// The constant `SEPARATOR` holds the two colons of the separator.
pub proof fn lemma_separator_text()
    ensures
        SEPARATOR@ == separator(),
{
    reveal_strlit("::");
    assert(SEPARATOR@ =~= separator());
}

/// The views of a sequence of strings.
pub open spec fn names(v: Seq<String>) -> Seq<Seq<char>> {
    Seq::new(v.len(), |i: int| v[i]@)
}

/// Every entry followed by the separator, in order.
pub open spec fn join_terminated(items: Seq<Seq<char>>) -> Seq<char>
    decreases items.len(),
{
    if items.len() == 0 {
        Seq::empty()
    } else {
        join_terminated(items.drop_last()) + items.last() + separator()
    }
}

/// The bag encoding of `items`.
pub open spec fn bag_encode(items: Seq<Seq<char>>) -> Seq<char> {
    if items.len() == 0 {
        Seq::empty()
    } else {
        separator() + join_terminated(items)
    }
}

/// Whether the separator stands at position `i` of `s`.
pub open spec fn separator_at(s: Seq<char>, i: int) -> bool {
    0 <= i && i + 2 <= s.len() && s[i] == ':' && s[i + 1] == ':'
}

/// The position of the first separator of `s` at or after `from`, or the
/// length of `s` where there is none.
pub open spec fn next_separator(s: Seq<char>, from: int) -> int
    decreases s.len() - from,
{
    if from < 0 || from + 2 > s.len() {
        s.len() as int
    } else if separator_at(s, from) {
        from
    } else {
        next_separator(s, from + 1)
    }
}

/// The entries of an encoded bag: the non-empty pieces that the separators,
/// found from left to right, cut the text into.
pub open spec fn bag_decode(s: Seq<char>) -> Seq<Seq<char>>
    decreases s.len(),
{
    if s.len() == 0 {
        Seq::empty()
    } else {
        let cut = next_separator(s, 0);
        let head = s.subrange(0, cut);
        let tail = if 0 <= cut && cut + 2 <= s.len() {
            bag_decode(s.subrange(cut + 2, s.len() as int))
        } else {
            Seq::empty()
        };
        if head.len() > 0 {
            seq![head] + tail
        } else {
            tail
        }
    }
}

/// Whether `e` can be an entry of a bag and be read back: it is not empty,
/// holds no separator and does not end in a colon.
pub open spec fn is_bag_entry(e: Seq<char>) -> bool {
    &&& e.len() > 0
    &&& e.last() != ':'
    &&& forall|i: int| 0 <= i < e.len() ==> !separator_at(e, i)
}

/// Whether `e` is a plain entry: a bag entry that does not start with a
/// colon either.
pub open spec fn is_plain_entry(e: Seq<char>) -> bool {
    is_bag_entry(e) && e[0] != ':'
}

/// Whether `s` holds no separator.
pub open spec fn separator_free(s: Seq<char>) -> bool {
    forall|i: int| 0 <= i < s.len() ==> !separator_at(s, i)
}

/// Whether `token` stands in `bag` at position `k` between two separators.
pub open spec fn token_at(bag: Seq<char>, token: Seq<char>, k: int) -> bool {
    0 <= k && k + token.len() + 4 <= bag.len() && bag.subrange(k, k + token.len() + 4)
        == separator() + token + separator()
}

/// Whether `token` stands somewhere in `bag` between two separators, which
/// is what a search for the pattern `%::token::%` asks.
pub open spec fn contains_token(bag: Seq<char>, token: Seq<char>) -> bool {
    exists|k: int| token_at(bag, token, k)
}

/// The separator, then every entry followed by the separator.
pub open spec fn framed(items: Seq<Seq<char>>) -> Seq<char> {
    separator() + join_terminated(items)
}

/// The first separator at or after `from` is at `at` when none stands
/// before `at` and one stands there.
pub proof fn lemma_next_separator_found(s: Seq<char>, from: int, at: int)
    requires
        0 <= from <= at,
        separator_at(s, at),
        forall|j: int| from <= j < at ==> !separator_at(s, j),
    ensures
        next_separator(s, from) == at,
    decreases at - from,
{
    if from < at {
        lemma_next_separator_found(s, from + 1, at);
    }
}

/// There is no separator at or after `from` when none stands at any
/// position from there on.
pub proof fn lemma_next_separator_missing(s: Seq<char>, from: int)
    requires
        0 <= from <= s.len(),
        forall|j: int| from <= j < s.len() ==> !separator_at(s, j),
    ensures
        next_separator(s, from) == s.len(),
    decreases s.len() - from,
{
    if from + 2 <= s.len() {
        lemma_next_separator_missing(s, from + 1);
    }
}

/// Joining a list that starts with `e` writes `e`, the separator, and then
/// the rest of the list.
pub proof fn lemma_join_terminated_front(e: Seq<char>, rest: Seq<Seq<char>>)
    ensures
        join_terminated(seq![e] + rest) == e + separator() + join_terminated(rest),
    decreases rest.len(),
{
    let all = seq![e] + rest;
    if rest.len() == 0 {
        assert(all.drop_last() =~= Seq::<Seq<char>>::empty());
        assert(join_terminated(all.drop_last()) =~= Seq::<char>::empty());
        assert(join_terminated(all) =~= e + separator() + join_terminated(rest));
    } else {
        lemma_join_terminated_front(e, rest.drop_last());
        assert(all.drop_last() =~= seq![e] + rest.drop_last());
        assert(all.last() == rest.last());
        assert(join_terminated(all) =~= e + separator() + join_terminated(rest));
    }
}

/// Decoding an entry that is followed by a separator and more text gives
/// the entry and then what the rest decodes to.
pub proof fn lemma_decode_entry(e: Seq<char>, rest: Seq<char>)
    requires
        is_bag_entry(e),
    ensures
        bag_decode(e + separator() + rest) == seq![e] + bag_decode(rest),
{
    let s = e + separator() + rest;
    let at = e.len() as int;
    assert(separator_at(s, at));
    assert forall|j: int| 0 <= j < at implies !separator_at(s, j) by {
        if j + 1 < at {
            assert(s[j] == e[j] && s[j + 1] == e[j + 1]);
            assert(!separator_at(e, j));
        } else {
            assert(s[j] == e.last());
        }
    }
    lemma_next_separator_found(s, 0, at);
    assert(s.subrange(0, at) =~= e);
    assert(s.subrange(at + 2, s.len() as int) =~= rest);
}

/// Decoding the terminated join of bag entries gives the entries back.
pub proof fn lemma_decode_join_terminated(items: Seq<Seq<char>>)
    requires
        forall|i: int| 0 <= i < items.len() ==> is_bag_entry(#[trigger] items[i]),
    ensures
        bag_decode(join_terminated(items)) == items,
    decreases items.len(),
{
    if items.len() == 0 {
        assert(bag_decode(join_terminated(items)) =~= items);
    } else {
        let e = items[0];
        let rest = items.drop_first();
        assert(items =~= seq![e] + rest);
        lemma_join_terminated_front(e, rest);
        assert forall|i: int| 0 <= i < rest.len() implies is_bag_entry(#[trigger] rest[i]) by {
            assert(rest[i] == items[i + 1]);
        }
        lemma_decode_join_terminated(rest);
        lemma_decode_entry(e, join_terminated(rest));
    }
}

/// Round trip: a list of entries, each of them not empty, free of the
/// separator and not ending in a colon, is read back from its encoding
/// unchanged.
pub proof fn lemma_bag_round_trip(items: Seq<Seq<char>>)
    requires
        forall|i: int| 0 <= i < items.len() ==> is_bag_entry(#[trigger] items[i]),
    ensures
        bag_decode(bag_encode(items)) == items,
{
    if items.len() == 0 {
        assert(bag_decode(bag_encode(items)) =~= items);
    } else {
        let body = join_terminated(items);
        let s = separator() + body;
        assert(separator_at(s, 0));
        assert(next_separator(s, 0) == 0);
        assert(s.subrange(2, s.len() as int) =~= body);
        assert(s.subrange(0, 0).len() == 0);
        lemma_decode_join_terminated(items);
    }
}

/// The encoding of a list with entries begins and ends with the separator;
/// the encoding of the empty list is empty.
pub proof fn lemma_bag_encode_bounds(items: Seq<Seq<char>>)
    ensures
        items.len() == 0 ==> bag_encode(items).len() == 0,
        items.len() > 0 ==> {
            let bag = bag_encode(items);
            &&& bag.len() >= 4
            &&& bag.subrange(0, 2) == separator()
            &&& bag.subrange(bag.len() - 2, bag.len() as int) == separator()
        },
{
    if items.len() > 0 {
        let bag = bag_encode(items);
        let body = join_terminated(items);
        assert(body == join_terminated(items.drop_last()) + items.last() + separator());
        assert(bag.subrange(0, 2) =~= separator());
        assert(bag.subrange(bag.len() - 2, bag.len() as int) =~= separator());
    }
}

/// The next separator is found at or after the place from which it is
/// looked for, and within the text.
pub proof fn lemma_next_separator_bounds(s: Seq<char>, from: int)
    requires
        0 <= from <= s.len(),
    ensures
        from <= next_separator(s, from) <= s.len(),
    decreases s.len() - from,
{
    if from + 2 <= s.len() && !separator_at(s, from) {
        lemma_next_separator_bounds(s, from + 1);
    }
}

/// No entry read from a bag is empty.
pub proof fn lemma_decoded_entries_not_empty(s: Seq<char>)
    ensures
        forall|i: int| 0 <= i < bag_decode(s).len() ==> (#[trigger] bag_decode(s)[i]).len() > 0,
    decreases s.len(),
{
    if s.len() > 0 {
        let cut = next_separator(s, 0);
        lemma_next_separator_bounds(s, 0);
        let head = s.subrange(0, cut);
        let tail = if 0 <= cut && cut + 2 <= s.len() {
            bag_decode(s.subrange(cut + 2, s.len() as int))
        } else {
            Seq::empty()
        };
        if cut + 2 <= s.len() {
            lemma_decoded_entries_not_empty(s.subrange(cut + 2, s.len() as int));
        }
        assert forall|i: int| 0 <= i < bag_decode(s).len() implies (#[trigger] bag_decode(
            s,
        )[i]).len() > 0 by {
            if head.len() > 0 {
                assert(bag_decode(s) == seq![head] + tail);
                if i > 0 {
                    assert(bag_decode(s)[i] == tail[i - 1]);
                }
            } else {
                assert(bag_decode(s) == tail);
            }
        }
    }
}

/// A framed list that starts with `e` is the separator, `e`, and the framed
/// rest of the list.
pub proof fn lemma_framed_front(e: Seq<char>, rest: Seq<Seq<char>>)
    ensures
        framed(seq![e] + rest) == separator() + e + framed(rest),
{
    lemma_join_terminated_front(e, rest);
    assert(framed(seq![e] + rest) =~= separator() + e + framed(rest));
}

/// Every entry of a list stands in the framed list between two separators.
pub proof fn lemma_member_has_token(items: Seq<Seq<char>>, n: Seq<char>)
    requires
        items.contains(n),
    ensures
        contains_token(framed(items), n),
    decreases items.len(),
{
    let j = choose|j: int| 0 <= j < items.len() && items[j] == n;
    let e = items[0];
    let rest = items.drop_first();
    assert(items =~= seq![e] + rest);
    lemma_framed_front(e, rest);
    let whole = framed(items);
    let tail = framed(rest);
    let skip: int = 2 + (e.len() as int);
    if j == 0 {
        assert(whole.subrange(0, (n.len() + 4) as int) =~= separator() + n + separator());
        assert(token_at(whole, n, 0));
    } else {
        assert(rest[j - 1] == n);
        lemma_member_has_token(rest, n);
        let k = choose|k: int| token_at(tail, n, k);
        assert(whole.subrange(k + skip, k + skip + n.len() + 4) =~= tail.subrange(
            k,
            k + n.len() + 4,
        ));
        assert(token_at(whole, n, k + skip));
    }
}

/// What stands between two separators in the framed list of plain entries,
/// and holds no separator itself, is an entry of the list.
pub proof fn lemma_token_is_member(items: Seq<Seq<char>>, n: Seq<char>, k: int)
    requires
        forall|i: int| 0 <= i < items.len() ==> is_plain_entry(#[trigger] items[i]),
        separator_free(n),
        token_at(framed(items), n, k),
    ensures
        items.contains(n),
    decreases items.len(),
{
    let whole = framed(items);
    let word = separator() + n + separator();
    let window = whole.subrange(k, k + n.len() + 4);
    assert(window == word);
    assert forall|t: int| 0 <= t < word.len() implies whole[k + t] == #[trigger] word[t] by {
        assert(window[t] == whole[k + t]);
    }
    if items.len() == 0 {
        assert(join_terminated(items) =~= Seq::<char>::empty());
        assert(whole.len() == 2);
    } else {
        let e = items[0];
        let rest = items.drop_first();
        assert(items =~= seq![e] + rest);
        lemma_framed_front(e, rest);
        let tail = framed(rest);
        let skip: int = 2 + (e.len() as int);
        let size: int = n.len() as int;
        assert(whole == separator() + e + tail);
        assert(forall|t: int| 0 <= t < e.len() ==> whole[2 + t] == e[t]);
        assert(forall|t: int| 0 <= t < tail.len() ==> whole[skip + t] == tail[t]);
        assert(tail[0] == ':' && tail[1] == ':');
        assert(is_plain_entry(e));
        assert forall|i: int| 0 <= i < rest.len() implies is_plain_entry(#[trigger] rest[i]) by {
            assert(rest[i] == items[i + 1]);
        }
        if k >= skip {
            assert(tail.subrange(k - skip, k - skip + n.len() + 4) =~= whole.subrange(
                k,
                k + n.len() + 4,
            ));
            assert(token_at(tail, n, k - skip));
            lemma_token_is_member(rest, n, k - skip);
            let j = choose|j: int| 0 <= j < rest.len() && rest[j] == n;
            assert(items[j + 1] == n);
        } else if k == 0 {
            assert(forall|t: int| 0 <= t < n.len() ==> n[t] == word[2 + t]);
            assert(word[2 + size] == ':' && word[3 + size] == ':');
            if n.len() == e.len() {
                assert(n =~= e);
            } else if n.len() < e.len() {
                let at = n.len() as int;
                assert(whole[2 + at] == word[2 + at]);
                assert(e[at] == ':');
                if at + 1 < e.len() {
                    assert(whole[3 + at] == word[3 + at]);
                    assert(e[at + 1] == ':');
                    assert(separator_at(e, at));
                }
                assert(false);
            } else if n.len() >= e.len() + 2 {
                let at = e.len() as int;
                assert(n[at] == word[2 + at] && word[2 + at] == whole[2 + at]);
                assert(n[at + 1] == word[3 + at] && word[3 + at] == whole[3 + at]);
                assert(whole[skip] == tail[0] && whole[skip + 1] == tail[1]);
                assert(separator_at(n, at));
                assert(false);
            } else {
                assert(n.len() == e.len() + 1);
                assert(tail.len() >= 3);
                if rest.len() == 0 {
                    assert(join_terminated(rest) =~= Seq::<char>::empty());
                    assert(false);
                }
                let next = rest[0];
                assert(rest =~= seq![next] + rest.drop_first());
                lemma_framed_front(next, rest.drop_first());
                assert(is_plain_entry(next));
                assert(tail[2] == next[0]);
                assert(whole[skip + 2] == word[3 + size]);
                assert(false);
            }
            assert(items[0] == n);
        } else if k == 1 {
            assert(whole[2] == word[1]);
            assert(word[1] == ':');
            assert(e[0] == ':');
            assert(false);
        } else {
            let i = k - 2;
            assert(whole[k] == word[0] && word[0] == ':');
            assert(whole[k + 1] == word[1] && word[1] == ':');
            assert(e[i] == ':');
            if i + 1 < e.len() {
                assert(whole[2 + (i + 1)] == e[i + 1]);
                assert(separator_at(e, i));
            }
            assert(false);
        }
    }
}

/// Containment: in the encoding of a list of plain entries, a name without
/// a separator stands between two separators exactly when it is an entry
/// of the list.
pub proof fn lemma_bag_containment(items: Seq<Seq<char>>, n: Seq<char>)
    requires
        forall|i: int| 0 <= i < items.len() ==> is_plain_entry(#[trigger] items[i]),
        separator_free(n),
    ensures
        contains_token(bag_encode(items), n) <==> items.contains(n),
{
    if items.len() == 0 {
        assert(!contains_token(bag_encode(items), n)) by {
            if contains_token(bag_encode(items), n) {
                let k = choose|k: int| token_at(bag_encode(items), n, k);
                assert(false);
            }
        }
    } else {
        if items.contains(n) {
            lemma_member_has_token(items, n);
        }
        if contains_token(bag_encode(items), n) {
            let k = choose|k: int| token_at(bag_encode(items), n, k);
            lemma_token_is_member(items, n, k);
        }
    }
}

/// Join a list of strings into its bag encoding.
pub fn join_string_vec(vec: Vec<String>) -> (out: String)
    ensures
        out@ == bag_encode(names(vec@)),
{
    join_strings(&vec)
}

/// Join a borrowed list of strings into its bag encoding.
pub fn join_strings(vec: &Vec<String>) -> (out: String)
    ensures
        out@ == bag_encode(names(vec@)),
{
    let mut out = String::new();
    if vec.len() == 0 {
        return out;
    }
    let mut buf: Vec<char> = Vec::new();
    buf.push(':');
    buf.push(':');
    let mut i: usize = 0;
    while i < vec.len()
        invariant
            i <= vec.len(),
            buf@ == separator() + join_terminated(names(vec@).subrange(0, i as int)),
        decreases vec.len() - i,
    {
        let entry = chars_of(vec[i].as_str());
        let ghost before = buf@;
        let mut j: usize = 0;
        while j < entry.len()
            invariant
                j <= entry.len(),
                buf@ == before + entry@.subrange(0, j as int),
            decreases entry.len() - j,
        {
            buf.push(entry[j]);
            j += 1;
        }
        buf.push(':');
        buf.push(':');
        proof {
            let done = names(vec@).subrange(0, i as int);
            let next = names(vec@).subrange(0, i + 1);
            assert(next.drop_last() =~= done);
            assert(next.last() == entry@);
            assert(entry@.subrange(0, entry.len() as int) =~= entry@);
            assert(buf@ =~= separator() + join_terminated(next));
        }
        i += 1;
    }
    assert(names(vec@).subrange(0, vec.len() as int) =~= names(vec@));
    string_of(&buf)
}

/// Read the entries of an encoded bag.
pub fn split_bag(s: &str) -> (out: Vec<String>)
    ensures
        names(out@) == bag_decode(s@),
{
    let text = chars_of(s);
    let n = text.len();
    let mut out: Vec<String> = Vec::new();
    let mut piece: Vec<char> = Vec::new();
    let mut start: usize = 0;
    let mut i: usize = 0;
    proof {
        assert(text@.subrange(0, n as int) =~= text@);
        assert(names(out@) + bag_decode(text@) =~= bag_decode(text@));
    }
    while i < n
        invariant
            n == text.len(),
            start <= i <= n,
            piece@ == text@.subrange(start as int, i as int),
            forall|j: int| start <= j < i ==> !separator_at(text@, j),
            bag_decode(text@) == names(out@) + bag_decode(text@.subrange(start as int, n as int)),
        decreases n - i,
    {
        let ghost rest = text@.subrange(start as int, n as int);
        if text[i] == ':' && i + 1 < n && text[i + 1] == ':' {
            proof {
                let at = i - start;
                assert(separator_at(rest, at));
                assert forall|j: int| 0 <= j < at implies !separator_at(rest, j) by {
                    assert(!separator_at(text@, start + j));
                }
                lemma_next_separator_found(rest, 0, at);
                assert(rest.subrange(0, at) =~= piece@);
                assert(rest.subrange(at + 2, rest.len() as int) =~= text@.subrange(i + 2, n as int));
            }
            if piece.len() > 0 {
                let entry = string_of(&piece);
                let ghost before = names(out@);
                out.push(entry);
                assert(names(out@) =~= before + seq![piece@]);
            }
            piece = Vec::new();
            i += 2;
            start = i;
        } else {
            piece.push(text[i]);
            i += 1;
        }
    }
    proof {
        let rest = text@.subrange(start as int, n as int);
        assert(rest =~= piece@);
        if rest.len() > 0 {
            assert forall|j: int| 0 <= j < rest.len() implies !separator_at(rest, j) by {
                assert(!separator_at(text@, start + j));
            }
            lemma_next_separator_missing(rest, 0);
            assert(rest.subrange(0, rest.len() as int) =~= rest);
            assert(bag_decode(rest) =~= seq![rest]);
        }
    }
    if piece.len() > 0 {
        let entry = string_of(&piece);
        let ghost before = names(out@);
        out.push(entry);
        assert(names(out@) =~= before + seq![piece@]);
    }
    out
}

} // verus!
