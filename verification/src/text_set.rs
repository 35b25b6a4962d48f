//! Canonical sets of strings. A set is held as a vector in strictly
//! increasing order, so that every set has exactly one representation and
//! two sets are equal exactly when their vectors are.

use crate::text::{
    chars_of, lemma_text_lt_irreflexive, lemma_text_lt_total, lemma_text_lt_transitive, text_lt,
    text_standing, Standing,
};
use vstd::prelude::*;

verus! {

/// The texts that a vector of strings holds, in order.
pub open spec fn texts(v: Seq<String>) -> Seq<Seq<char>> {
    v.map_values(|s: String| s@)
}

/// Every element precedes all elements after it.
pub open spec fn strictly_sorted(s: Seq<Seq<char>>) -> bool {
    forall|i: int, j: int| 0 <= i < j < s.len() ==> text_lt(#[trigger] s[i], #[trigger] s[j])
}

/// A strictly sorted sequence holds no text twice.
pub proof fn lemma_sorted_no_duplicates(s: Seq<Seq<char>>)
    requires
        strictly_sorted(s),
    ensures
        s.no_duplicates(),
{
}

/// A set of texts has one strictly sorted sequence only: two strictly sorted
/// sequences with the same elements are the same sequence.
pub proof fn lemma_sorted_unique(a: Seq<Seq<char>>, b: Seq<Seq<char>>)
    requires
        strictly_sorted(a),
        strictly_sorted(b),
        a.to_set() == b.to_set(),
    ensures
        a == b,
    decreases a.len(),
{
    if a.len() == 0 {
        if b.len() > 0 {
            assert(b.to_set().contains(b[0]));
        }
    } else {
        let x = a.last();
        assert(a.to_set().contains(x));
        let y = b.last();
        assert(b.to_set().contains(y));
        let k = choose|k: int| 0 <= k < b.len() && b[k] == x;
        let m = choose|m: int| 0 <= m < a.len() && a[m] == y;
        lemma_text_lt_irreflexive(x);
        if k < b.len() - 1 && m < a.len() - 1 {
            lemma_text_lt_transitive(x, y, x);
        }
        let a0 = a.drop_last();
        let b0 = b.drop_last();
        assert forall|t: Seq<char>| a0.to_set().contains(t) <==> b0.to_set().contains(t) by {
            lemma_text_lt_irreflexive(t);
            if a0.contains(t) {
                assert(a.to_set().contains(t));
                let j = choose|j: int| 0 <= j < b.len() && b[j] == t;
                assert(b0[j] == t);
            }
            if b0.contains(t) {
                assert(b.to_set().contains(t));
                let i = choose|i: int| 0 <= i < a.len() && a[i] == t;
                assert(a0[i] == t);
            }
        }
        assert(a0.to_set() =~= b0.to_set());
        lemma_sorted_unique(a0, b0);
        assert(a =~= a0.push(x));
    }
}

/// The canonical form of a set of texts: the strictly sorted sequence that
/// holds the elements of `s`.
pub open spec fn canonical_of(s: Seq<Seq<char>>) -> Seq<Seq<char>> {
    choose|r: Seq<Seq<char>>| strictly_sorted(r) && r.to_set() == s.to_set()
}

/// A strictly sorted sequence with `x` put where it belongs.
spec fn with_text(r: Seq<Seq<char>>, x: Seq<char>) -> Seq<Seq<char>>
    decreases r.len(),
{
    if r.len() == 0 || text_lt(r.last(), x) {
        r.push(x)
    } else if r.last() == x {
        r
    } else {
        with_text(r.drop_last(), x).push(r.last())
    }
}

/// Putting a text where it belongs keeps a sequence strictly sorted and
/// adds that text to its elements, and nothing else.
proof fn lemma_with_text(r: Seq<Seq<char>>, x: Seq<char>)
    requires
        strictly_sorted(r),
    ensures
        strictly_sorted(with_text(r, x)),
        with_text(r, x).to_set() == r.to_set().insert(x),
    decreases r.len(),
{
    let out = with_text(r, x);
    if r.len() == 0 || text_lt(r.last(), x) {
        assert forall|i: int, j: int| 0 <= i < j < out.len() implies text_lt(
            #[trigger] out[i],
            #[trigger] out[j],
        ) by {
            if j == r.len() && i < r.len() - 1 {
                lemma_text_lt_transitive(r[i], r.last(), x);
            }
        }
        r.lemma_push_to_set_commute(x);
    } else if r.last() != x {
        let front = r.drop_last();
        let top = r.last();
        let low = with_text(front, x);
        lemma_with_text(front, x);
        lemma_text_lt_total(top, x);
        assert forall|i: int, j: int| 0 <= i < j < out.len() implies text_lt(
            #[trigger] out[i],
            #[trigger] out[j],
        ) by {
            if j == low.len() && low[i] != x {
                assert(low.to_set().contains(low[i]));
                let k = choose|k: int| 0 <= k < front.len() && front[k] == low[i];
                assert(text_lt(r[k], top));
            }
        }
        low.lemma_push_to_set_commute(top);
        front.lemma_push_to_set_commute(top);
        assert(r =~= front.push(top));
    }
}

/// The elements of a sequence, put one after the other where they belong.
spec fn sorted_from(s: Seq<Seq<char>>) -> Seq<Seq<char>>
    decreases s.len(),
{
    if s.len() == 0 {
        s
    } else {
        with_text(sorted_from(s.drop_last()), s.last())
    }
}

/// Every set of texts has a canonical form: it is strictly sorted and holds
/// the elements of the set, no others.
pub proof fn lemma_canonical_of(s: Seq<Seq<char>>)
    ensures
        strictly_sorted(canonical_of(s)),
        canonical_of(s).to_set() == s.to_set(),
{
    lemma_sorted_from(s);
    assert(strictly_sorted(sorted_from(s)) && sorted_from(s).to_set() == s.to_set());
}

/// The elements of a sequence, put where they belong, are its canonical
/// form.
proof fn lemma_sorted_from(s: Seq<Seq<char>>)
    ensures
        strictly_sorted(sorted_from(s)),
        sorted_from(s).to_set() == s.to_set(),
    decreases s.len(),
{
    if s.len() > 0 {
        let front = s.drop_last();
        lemma_sorted_from(front);
        lemma_with_text(sorted_from(front), s.last());
        front.lemma_push_to_set_commute(s.last());
        assert(s =~= front.push(s.last()));
    }
}

/// A copy of a vector of strings.
pub fn clone_texts(v: &Vec<String>) -> (copy: Vec<String>)
    ensures
        texts(copy@) == texts(v@),
{
    let mut copy: Vec<String> = Vec::new();
    let mut i: usize = 0;
    while i < v.len()
        invariant
            i <= v.len(),
            copy@.len() == i,
            texts(copy@) == texts(v@).take(i as int),
        decreases v.len() - i,
    {
        copy.push(v[i].clone());
        i += 1;
    }
    copy
}

/// Whether two strings hold the same text.
pub fn same_text(a: &str, b: &str) -> (same: bool)
    ensures
        same == (a@ == b@),
{
    let x = chars_of(a);
    let y = chars_of(b);
    matches!(text_standing(&x, &y), Standing::Same)
}

/// Whether two vectors hold the same texts in the same order.
pub fn same_texts(a: &Vec<String>, b: &Vec<String>) -> (same: bool)
    ensures
        same == (texts(a@) == texts(b@)),
{
    if a.len() != b.len() {
        return false;
    }
    let mut i: usize = 0;
    while i < a.len()
        invariant
            i <= a.len(),
            a.len() == b.len(),
            forall|j: int| 0 <= j < i ==> texts(a@)[j] == texts(b@)[j],
        decreases a.len() - i,
    {
        if !same_text(a[i].as_str(), b[i].as_str()) {
            assert(texts(a@)[i as int] != texts(b@)[i as int]);
            return false;
        }
        i += 1;
    }
    assert(texts(a@) =~= texts(b@));
    true
}

/// Whether `v` holds a string with the text of `item`.
pub fn contains_text(v: &Vec<String>, item: &str) -> (found: bool)
    ensures
        found == texts(v@).contains(item@),
{
    let key = chars_of(item);
    let mut i: usize = 0;
    while i < v.len()
        invariant
            i <= v.len(),
            key@ == item@,
            forall|j: int| 0 <= j < i ==> texts(v@)[j] != item@,
        decreases v.len() - i,
    {
        let cur = chars_of(v[i].as_str());
        if matches!(text_standing(&cur, &key), Standing::Same) {
            assert(texts(v@)[i as int] == item@);
            return true;
        }
        i += 1;
    }
    false
}

/// Where `key` stands in a canonical set: the number of elements that
/// precede it, and whether it is an element itself.
fn locate(set: &Vec<String>, key: &Vec<char>) -> (r: (usize, bool))
    requires
        strictly_sorted(texts(set@)),
    ensures
        r.0 <= set.len(),
        forall|j: int| 0 <= j < r.0 ==> text_lt(texts(set@)[j], key@),
        forall|j: int| r.0 < j < set.len() ==> text_lt(key@, texts(set@)[j]),
        r.1 ==> r.0 < set.len() && texts(set@)[r.0 as int] == key@,
        !r.1 && r.0 < set.len() ==> text_lt(key@, texts(set@)[r.0 as int]),
        r.1 == texts(set@).contains(key@),
{
    let ghost all = texts(set@);
    let mut i: usize = 0;
    while i < set.len()
        invariant
            i <= set.len(),
            all == texts(set@),
            strictly_sorted(all),
            forall|j: int| 0 <= j < i ==> text_lt(all[j], key@),
        decreases set.len() - i,
    {
        let cur = chars_of(set[i].as_str());
        assert(cur@ == all[i as int]);
        match text_standing(&cur, key) {
            Standing::Before => {
                i += 1;
            },
            Standing::Same => {
                return (i, true);
            },
            Standing::After => {
                proof {
                    assert forall|j: int| i < j < set.len() implies text_lt(key@, all[j]) by {
                        lemma_text_lt_transitive(key@, all[i as int], all[j]);
                    }
                    lemma_text_lt_irreflexive(key@);
                }
                return (i, false);
            },
        }
    }
    proof {
        lemma_text_lt_irreflexive(key@);
    }
    (i, false)
}

/// Adds `item` to a canonical set; a set that holds its text already stays
/// as it is.
fn insert_text(set: &mut Vec<String>, item: String)
    requires
        strictly_sorted(texts(old(set)@)),
    ensures
        strictly_sorted(texts(final(set)@)),
        texts(final(set)@).to_set() == texts(old(set)@).to_set().insert(item@),
{
    let key = chars_of(item.as_str());
    let (at, present) = locate(set, &key);
    let ghost before = texts(set@);
    if !present {
        set.insert(at, item);
        proof {
            let after = texts(set@);
            assert(after =~= before.insert(at as int, item@));
            assert forall|t: Seq<char>| after.to_set().contains(t) <==> before.to_set().insert(
                item@,
            ).contains(t) by {
                if before.contains(t) {
                    let i = choose|i: int| 0 <= i < before.len() && before[i] == t;
                    if i < at {
                        assert(after[i] == t);
                    } else {
                        assert(after[i + 1] == t);
                    }
                }
                if t == item@ {
                    assert(after[at as int] == t);
                }
            }
        }
    }
}

/// The canonical set of the strings in `items`: strictly sorted, with the
/// same elements and none of them twice.
pub fn canonical(items: Vec<String>) -> (set: Vec<String>)
    ensures
        texts(set@) == canonical_of(texts(items@)),
        strictly_sorted(texts(set@)),
        texts(set@).to_set() == texts(items@).to_set(),
{
    let ghost source = texts(items@);
    let mut set: Vec<String> = Vec::new();
    for item in it: items
        invariant
            it.seq() == items@,
            source == texts(items@),
            strictly_sorted(texts(set@)),
            texts(set@).to_set() == source.take(it.index()).to_set(),
    {
        proof {
            let n = it.index();
            assert(source.take(n + 1) =~= source.take(n).push(item@));
            source.take(n).lemma_push_to_set_commute(item@);
        }
        insert_text(&mut set, item);
    }
    proof {
        assert(source.take(source.len() as int) =~= source);
        lemma_sorted_unique(texts(set@), canonical_of(source));
    }
    set
}

} // verus!
