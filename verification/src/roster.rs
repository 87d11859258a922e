//! Lists of names in which no name stands twice, kept in the order in which
//! the names first came.

use crate::bag::names;
use vstd::prelude::*;

verus! {

/// `acc` with `name` at its end, unless `acc` holds it already.
pub open spec fn insert_one(acc: Seq<Seq<char>>, name: Seq<char>) -> Seq<Seq<char>> {
    if acc.contains(name) {
        acc
    } else {
        acc.push(name)
    }
}

/// `acc` with the names of `items` added one by one, but for `skip`.
pub open spec fn insert_all_except(
    acc: Seq<Seq<char>>,
    items: Seq<Seq<char>>,
    skip: Option<Seq<char>>,
) -> Seq<Seq<char>>
    decreases items.len(),
{
    if items.len() == 0 {
        acc
    } else {
        let before = insert_all_except(acc, items.drop_last(), skip);
        if skip == Some(items.last()) {
            before
        } else {
            insert_one(before, items.last())
        }
    }
}

/// Adding names keeps the names that were there, adds none twice, and adds
/// exactly the names of `items` that are not `skip`.
pub proof fn lemma_insert_all_except(
    acc: Seq<Seq<char>>,
    items: Seq<Seq<char>>,
    skip: Option<Seq<char>>,
)
    requires
        acc.no_duplicates(),
    ensures
        insert_all_except(acc, items, skip).no_duplicates(),
        forall|n: Seq<char>| #[trigger]
            insert_all_except(acc, items, skip).contains(n) <==> acc.contains(n) || (
            items.contains(n) && skip != Some(n)),
        acc.len() <= insert_all_except(acc, items, skip).len(),
        insert_all_except(acc, items, skip).subrange(0, acc.len() as int) == acc,
    decreases items.len(),
{
    let out = insert_all_except(acc, items, skip);
    if items.len() == 0 {
        assert(out.subrange(0, acc.len() as int) =~= acc);
    } else {
        let head = items.drop_last();
        let last = items.last();
        let before = insert_all_except(acc, head, skip);
        lemma_insert_all_except(acc, head, skip);
        assert(before.subrange(0, acc.len() as int) == acc);
        assert(out.subrange(0, acc.len() as int) =~= before.subrange(0, acc.len() as int));
        assert forall|n: Seq<char>| #[trigger]
            out.contains(n) <==> acc.contains(n) || (items.contains(n) && skip != Some(n)) by {
            if items.contains(n) {
                let i = choose|i: int| 0 <= i < items.len() && items[i] == n;
                if i < head.len() {
                    assert(head[i] == n);
                    assert(head.contains(n));
                } else {
                    assert(n == last);
                }
            }
            if head.contains(n) {
                let i = choose|i: int| 0 <= i < head.len() && head[i] == n;
                assert(items[i] == n);
            }
            assert(items[items.len() - 1] == last);
            if before.contains(n) {
                let i = choose|i: int| 0 <= i < before.len() && before[i] == n;
                if out != before {
                    assert(out[i] == n);
                }
            }
            if out.contains(n) && out != before {
                let i = choose|i: int| 0 <= i < out.len() && out[i] == n;
                if i < before.len() {
                    assert(before[i] == n);
                } else {
                    assert(n == last);
                }
            }
            if n == last && skip != Some(n) && out != before {
                assert(out[before.len() as int] == n);
            }
        }
    }
}

/// Whether `set` holds `name`.
pub fn contains_name(set: &Vec<String>, name: &String) -> (found: bool)
    ensures
        found == names(set@).contains(name@),
{
    let mut i: usize = 0;
    while i < set.len()
        invariant
            i <= set.len(),
            forall|j: int| 0 <= j < i ==> names(set@)[j] != name@,
        decreases set.len() - i,
    {
        if set[i] == *name {
            assert(names(set@)[i as int] == name@);
            return true;
        }
        i += 1;
    }
    false
}

/// Add `name` to `set` unless it is there.
pub fn insert_name(set: &mut Vec<String>, name: String)
    ensures
        names(final(set)@) == insert_one(names(old(set)@), name@),
{
    if !contains_name(set, &name) {
        let ghost before = names(set@);
        set.push(name);
        assert(names(set@) =~= before.push(name@));
    } else {
        assert(names(set@) =~= names(old(set)@));
    }
}

/// Add the names of `items` to `set`, but for `skip`.
pub fn insert_names(set: &mut Vec<String>, items: &Vec<String>, skip: Option<&String>)
    ensures
        names(final(set)@) == insert_all_except(
            names(old(set)@),
            names(items@),
            match skip {
                Some(s) => Some(s@),
                None => None,
            },
        ),
{
    let ghost skipped: Option<Seq<char>> = match skip {
        Some(s) => Some(s@),
        None => None,
    };
    let ghost start = names(set@);
    let mut i: usize = 0;
    while i < items.len()
        invariant
            i <= items.len(),
            skipped == (match skip {
                Some(s) => Some(s@),
                None => None,
            }),
            names(set@) == insert_all_except(start, names(items@).subrange(0, i as int), skipped),
        decreases items.len() - i,
    {
        proof {
            let next = names(items@).subrange(0, i + 1);
            assert(next.drop_last() =~= names(items@).subrange(0, i as int));
            assert(next.last() == items@[i as int]@);
        }
        let is_skipped = match skip {
            Some(s) => items[i] == *s,
            None => false,
        };
        if !is_skipped {
            insert_name(set, items[i].clone());
        }
        i += 1;
    }
    assert(names(items@).subrange(0, items.len() as int) =~= names(items@));
}

/// A copy of a list of names.
pub fn clone_names(v: &Vec<String>) -> (out: Vec<String>)
    ensures
        names(out@) == names(v@),
{
    let mut out: Vec<String> = Vec::new();
    let mut i: usize = 0;
    while i < v.len()
        invariant
            i <= v.len(),
            names(out@) == names(v@).subrange(0, i as int),
        decreases v.len() - i,
    {
        let ghost before = names(out@);
        out.push(v[i].clone());
        assert(names(out@) =~= before.push(v@[i as int]@));
        assert(names(out@) =~= names(v@).subrange(0, i + 1));
        i += 1;
    }
    assert(names(v@).subrange(0, v.len() as int) =~= names(v@));
    out
}

} // verus!
