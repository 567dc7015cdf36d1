//! Sorting by text keys: index permutations ordered by (primary, secondary)
//! character-sequence keys.

use vstd::prelude::*;

use crate::text::{chars_eq, chars_lt, lemma_seq_lt_irreflexive, lemma_seq_lt_total,
    lemma_seq_lt_transitive, seq_lt};

verus! {

/// Strict order on key pairs: by the primary key, then by the secondary key.
pub open spec fn pair_lt(a1: Seq<char>, a2: Seq<char>, b1: Seq<char>, b2: Seq<char>) -> bool {
    seq_lt(a1, b1) || (a1 == b1 && seq_lt(a2, b2))
}

/// `p` holds each of `0..n` exactly once.
pub open spec fn is_perm(p: Seq<usize>, n: nat) -> bool {
    &&& p.len() == n
    &&& forall|i: int| 0 <= i < p.len() ==> #[trigger] p[i] < n
    &&& forall|i: int, j: int| 0 <= i < j < p.len() ==> #[trigger] p[i] != #[trigger] p[j]
}

/// The keys `k1[p[i]], k2[p[i]]` never decrease along `p`.
pub open spec fn sorted_by(p: Seq<usize>, k1: Seq<Seq<char>>, k2: Seq<Seq<char>>) -> bool {
    forall|i: int, j: int|
        0 <= i < j < p.len() ==> !pair_lt(
            k1[#[trigger] p[j] as int],
            k2[p[j] as int],
            k1[#[trigger] p[i] as int],
            k2[p[i] as int],
        )
}

pub proof fn lemma_pair_lt_transitive(
    a1: Seq<char>,
    a2: Seq<char>,
    b1: Seq<char>,
    b2: Seq<char>,
    c1: Seq<char>,
    c2: Seq<char>,
)
    requires
        pair_lt(a1, a2, b1, b2),
        pair_lt(b1, b2, c1, c2),
    ensures
        pair_lt(a1, a2, c1, c2),
{
    if seq_lt(a1, b1) && seq_lt(b1, c1) {
        lemma_seq_lt_transitive(a1, b1, c1);
    }
    if seq_lt(a2, b2) && seq_lt(b2, c2) {
        lemma_seq_lt_transitive(a2, b2, c2);
    }
}

pub proof fn lemma_pair_lt_total(a1: Seq<char>, a2: Seq<char>, b1: Seq<char>, b2: Seq<char>)
    ensures
        !(pair_lt(a1, a2, b1, b2) && pair_lt(b1, b2, a1, a2)),
        !pair_lt(a1, a2, b1, b2) && !pair_lt(b1, b2, a1, a2) ==> a1 == b1 && a2 == b2,
{
    lemma_seq_lt_total(a1, b1);
    lemma_seq_lt_total(a2, b2);
    lemma_seq_lt_irreflexive(a1);
    lemma_seq_lt_irreflexive(a2);
}

/// Executable `pair_lt` on materialized keys.
pub fn pair_less(a1: &Vec<char>, a2: &Vec<char>, b1: &Vec<char>, b2: &Vec<char>) -> (r: bool)
    ensures
        r == pair_lt(a1@, a2@, b1@, b2@),
{
    if chars_lt(a1, b1) {
        true
    } else if chars_eq(a1, b1) {
        chars_lt(a2, b2)
    } else {
        false
    }
}

/// Entries with equal key pairs keep their relative order.
pub open spec fn stable_by(p: Seq<usize>, k1: Seq<Seq<char>>, k2: Seq<Seq<char>>) -> bool {
    forall|i: int, j: int|
        0 <= i < j < p.len() && k1[#[trigger] p[i] as int] == k1[#[trigger] p[j] as int] && k2[p[i] as int]
            == k2[p[j] as int] ==> p[i] < p[j]
}

/// Returns the stable permutation of `0..k1.len()` that orders the key pairs.
pub fn sort_by_keys(k1: &Vec<Vec<char>>, k2: &Vec<Vec<char>>) -> (p: Vec<usize>)
    requires
        k1.len() == k2.len(),
    ensures
        is_perm(p@, k1.len() as nat),
        sorted_by(p@, k1@.map_values(|v: Vec<char>| v@), k2@.map_values(|v: Vec<char>| v@)),
        stable_by(p@, k1@.map_values(|v: Vec<char>| v@), k2@.map_values(|v: Vec<char>| v@)),
{
    let ghost s1 = k1@.map_values(|v: Vec<char>| v@);
    let ghost s2 = k2@.map_values(|v: Vec<char>| v@);
    let mut p: Vec<usize> = Vec::new();
    let mut i: usize = 0;
    while i < k1.len()
        invariant
            i <= k1.len(),
            k1.len() == k2.len(),
            s1 == k1@.map_values(|v: Vec<char>| v@),
            s2 == k2@.map_values(|v: Vec<char>| v@),
            is_perm(p@, i as nat),
            sorted_by(p@, s1, s2),
            stable_by(p@, s1, s2),
        decreases k1.len() - i,
    {
        let mut pos: usize = 0;
        while pos < p.len() && !pair_less(&k1[i], &k2[i], &k1[p[pos]], &k2[p[pos]])
            invariant
                pos <= p.len(),
                i < k1.len(),
                k1.len() == k2.len(),
                s1 == k1@.map_values(|v: Vec<char>| v@),
                s2 == k2@.map_values(|v: Vec<char>| v@),
                is_perm(p@, i as nat),
                sorted_by(p@, s1, s2),
                stable_by(p@, s1, s2),
                forall|q: int|
                    0 <= q < pos ==> !pair_lt(
                        s1[i as int],
                        s2[i as int],
                        s1[#[trigger] p@[q] as int],
                        s2[p@[q] as int],
                    ),
            decreases p.len() - pos,
        {
            pos = pos + 1;
        }
        let ghost old_p = p@;
        p.insert(pos, i);
        proof {
            assert(p@ == old_p.insert(pos as int, i));
            assert forall|a: int, b: int| 0 <= a < b < p@.len() implies #[trigger] p@[a]
                != #[trigger] p@[b] by {
                if a < pos && b < pos {
                    assert(old_p[a] != old_p[b]);
                } else if a < pos && b == pos {
                } else if a < pos {
                    assert(old_p[a] != old_p[b - 1]);
                } else if a == pos {
                } else {
                    assert(old_p[a - 1] != old_p[b - 1]);
                }
            }
            assert forall|a: int, b: int|
                0 <= a < b < p@.len() && s1[#[trigger] p@[a] as int] == s1[#[trigger] p@[b] as int] && s2[p@[a] as int]
                    == s2[p@[b] as int] implies p@[a] < p@[b] by {
                if a < pos && b < pos {
                    assert(old_p[a] == p@[a] && old_p[b] == p@[b]);
                } else if a < pos && b == pos {
                    assert(old_p[a] == p@[a]);
                } else if a < pos {
                    assert(old_p[a] == p@[a] && old_p[b - 1] == p@[b]);
                } else if a == pos {
                    let y = p@[b] as int;
                    assert(old_p[b - 1] == p@[b]);
                    let z = old_p[pos as int] as int;
                    assert(pair_lt(s1[i as int], s2[i as int], s1[z], s2[z]));
                    if b - 1 > pos {
                        assert(!pair_lt(s1[y], s2[y], s1[z], s2[z]));
                        lemma_pair_lt_total(s1[y], s2[y], s1[z], s2[z]);
                    }
                    lemma_pair_lt_total(s1[i as int], s2[i as int], s1[y], s2[y]);
                    lemma_pair_lt_total(s1[i as int], s2[i as int], s1[z], s2[z]);
                } else {
                    assert(old_p[a - 1] == p@[a] && old_p[b - 1] == p@[b]);
                }
            }
            assert forall|a: int, b: int| 0 <= a < b < p@.len() implies !pair_lt(
                s1[#[trigger] p@[b] as int],
                s2[p@[b] as int],
                s1[#[trigger] p@[a] as int],
                s2[p@[a] as int],
            ) by {
                let x = p@[a] as int;
                let y = p@[b] as int;
                if a < pos && b < pos {
                    assert(old_p[a] == p@[a] && old_p[b] == p@[b]);
                } else if a < pos && b == pos {
                    assert(old_p[a] == p@[a]);
                    lemma_pair_lt_total(s1[x], s2[x], s1[y], s2[y]);
                } else if a < pos {
                    assert(old_p[a] == p@[a] && old_p[b - 1] == p@[b]);
                } else if a == pos {
                    // p[b] sits at or after the first key greater than the new one
                    assert(old_p[b - 1] == p@[b]);
                    let z = old_p[pos as int] as int;
                    assert(pair_lt(s1[i as int], s2[i as int], s1[z], s2[z]));
                    if b - 1 > pos {
                        assert(!pair_lt(s1[y], s2[y], s1[z], s2[z]));
                        lemma_pair_lt_total(s1[y], s2[y], s1[z], s2[z]);
                        if pair_lt(s1[y], s2[y], s1[x], s2[x]) {
                            if pair_lt(s1[z], s2[z], s1[y], s2[y]) {
                                lemma_pair_lt_transitive(s1[x], s2[x], s1[z], s2[z], s1[y], s2[y]);
                                lemma_pair_lt_total(s1[x], s2[x], s1[y], s2[y]);
                            } else {
                                assert(s1[z] == s1[y] && s2[z] == s2[y]);
                                lemma_pair_lt_total(s1[x], s2[x], s1[z], s2[z]);
                            }
                        }
                    } else {
                        lemma_pair_lt_total(s1[x], s2[x], s1[y], s2[y]);
                    }
                } else {
                    assert(old_p[a - 1] == p@[a] && old_p[b - 1] == p@[b]);
                }
            }
        }
        i = i + 1;
    }
    p
}


/// A permutation sorted by pairwise distinct key pairs orders them strictly.
pub proof fn lemma_sorted_strict(p: Seq<usize>, k1: Seq<Seq<char>>, k2: Seq<Seq<char>>)
    requires
        k1.len() == k2.len(),
        is_perm(p, k1.len()),
        sorted_by(p, k1, k2),
        forall|i: int, j: int|
            0 <= i < j < k1.len() ==> #[trigger] k1[i] != #[trigger] k1[j] || k2[i] != k2[j],
    ensures
        forall|a: int, b: int|
            0 <= a < b < p.len() ==> pair_lt(
                k1[#[trigger] p[a] as int],
                k2[p[a] as int],
                k1[#[trigger] p[b] as int],
                k2[p[b] as int],
            ),
{
    assert forall|a: int, b: int| 0 <= a < b < p.len() implies pair_lt(
        k1[#[trigger] p[a] as int],
        k2[p[a] as int],
        k1[#[trigger] p[b] as int],
        k2[p[b] as int],
    ) by {
        let x = p[a] as int;
        let y = p[b] as int;
        assert(x != y);
        if x < y {
            assert(k1[x] != k1[y] || k2[x] != k2[y]);
        } else {
            assert(k1[y] != k1[x] || k2[y] != k2[x]);
        }
        lemma_pair_lt_total(k1[x], k2[x], k1[y], k2[y]);
    }
}

/// With empty secondary keys the pair order is the order of the primary keys.
pub proof fn lemma_pair_lt_primary(a: Seq<char>, b: Seq<char>)
    ensures
        pair_lt(a, Seq::empty(), b, Seq::empty()) == seq_lt(a, b),
{
}

/// One empty key per entry.
pub fn empty_keys(n: usize) -> (r: Vec<Vec<char>>)
    ensures
        r.len() == n,
        forall|i: int| 0 <= i < n ==> (#[trigger] r@[i])@ == Seq::<char>::empty(),
{
    let mut r: Vec<Vec<char>> = Vec::new();
    while r.len() < n
        invariant
            r.len() <= n,
            forall|i: int| 0 <= i < r.len() ==> (#[trigger] r@[i])@ == Seq::<char>::empty(),
        decreases n - r.len(),
    {
        r.push(Vec::new());
    }
    r
}

} // verus!
