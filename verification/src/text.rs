//! Text as sequences of characters: conversion from strings and the
//! lexicographic order that canonical string sets are kept in.

use vstd::prelude::*;

verus! {

/// The characters of `s`, in order.
pub fn chars_of(s: &str) -> (v: Vec<char>)
    ensures
        v@ == s@,
{
    let mut v: Vec<char> = Vec::new();
    for c in it: s.chars()
        invariant
            it.seq() == s@,
            v@ == s@.take(it.index()),
    {
        v.push(c);
    }
    v
}

/// `a` and `b` agree on their first `k` characters.
pub open spec fn agree_up_to(a: Seq<char>, b: Seq<char>, k: int) -> bool {
    &&& 0 <= k <= a.len()
    &&& k <= b.len()
    &&& forall|j: int| 0 <= j < k ==> a[j] == b[j]
}

/// `a` and `b` part ways at position `k` with `a` the smaller: either `a`
/// ends there and `b` goes on, or `a` holds the smaller character.
pub open spec fn precedes_at(a: Seq<char>, b: Seq<char>, k: int) -> bool {
    &&& agree_up_to(a, b, k)
    &&& k < b.len()
    &&& (k == a.len() || a[k] < b[k])
}

/// Strict lexicographic order by code point.
pub open spec fn text_lt(a: Seq<char>, b: Seq<char>) -> bool {
    exists|k: int| precedes_at(a, b, k)
}

/// How two texts stand to each other in lexicographic order.
#[derive(Clone, Copy, PartialEq, Eq, Debug)]
pub enum Standing {
    Before,
    Same,
    After,
}

/// Compares two texts lexicographically by code point.
pub fn text_standing(a: &Vec<char>, b: &Vec<char>) -> (r: Standing)
    ensures
        r is Before <==> text_lt(a@, b@),
        r is Same <==> a@ == b@,
        r is After <==> text_lt(b@, a@),
{
    let mut i: usize = 0;
    while i < a.len() && i < b.len()
        invariant
            agree_up_to(a@, b@, i as int),
        decreases a.len() - i,
    {
        let x: char = a[i];
        let y: char = b[i];
        if x < y {
            assert(precedes_at(a@, b@, i as int));
            return Standing::Before;
        }
        if y < x {
            assert(precedes_at(b@, a@, i as int));
            return Standing::After;
        }
        i += 1;
    }
    if a.len() < b.len() {
        assert(precedes_at(a@, b@, i as int));
        Standing::Before
    } else if b.len() < a.len() {
        assert(precedes_at(b@, a@, i as int));
        Standing::After
    } else {
        assert(a@ =~= b@);
        Standing::Same
    }
}

/// No text precedes itself.
pub proof fn lemma_text_lt_irreflexive(a: Seq<char>)
    ensures
        !text_lt(a, a),
{
}

/// The order is transitive.
pub proof fn lemma_text_lt_transitive(a: Seq<char>, b: Seq<char>, c: Seq<char>)
    requires
        text_lt(a, b),
        text_lt(b, c),
    ensures
        text_lt(a, c),
{
    let k1 = choose|k: int| precedes_at(a, b, k);
    let k2 = choose|k: int| precedes_at(b, c, k);
    if k1 <= k2 {
        assert(precedes_at(a, c, k1));
    } else {
        assert(precedes_at(a, c, k2));
    }
}

/// Two texts that agree on their first `k` characters are equal, or one
/// precedes the other.
proof fn lemma_text_lt_total_from(a: Seq<char>, b: Seq<char>, k: int)
    requires
        agree_up_to(a, b, k),
    ensures
        text_lt(a, b) || a == b || text_lt(b, a),
    decreases a.len() - k,
{
    if k < a.len() && k < b.len() && a[k] == b[k] {
        lemma_text_lt_total_from(a, b, k + 1);
    } else if k < b.len() && (k == a.len() || a[k] < b[k]) {
        assert(precedes_at(a, b, k));
    } else if k < a.len() {
        assert(precedes_at(b, a, k));
    } else {
        assert(a =~= b);
    }
}

/// The order is total: of two different texts one precedes the other.
pub proof fn lemma_text_lt_total(a: Seq<char>, b: Seq<char>)
    ensures
        text_lt(a, b) || a == b || text_lt(b, a),
{
    lemma_text_lt_total_from(a, b, 0);
}

} // verus!
