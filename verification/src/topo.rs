//! Stable topological ordering of a dependency graph over dense indices, and
//! extraction of a closed dependency cycle when no order exists.

use vstd::prelude::*;

use crate::sort::is_perm;

verus! {

/// The index rows of a dependency table.
pub open spec fn rows(deps: &Vec<Vec<usize>>) -> Seq<Seq<usize>> {
    deps@.map_values(|row: Vec<usize>| row@)
}

/// `deps[i]` lists the units whose outputs unit `i` reads.
pub open spec fn well_indexed(deps: Seq<Seq<usize>>) -> bool {
    forall|i: int, k: int|
        0 <= i < deps.len() && 0 <= k < deps[i].len() ==> #[trigger] deps[i][k] < deps.len()
}

/// Unit `a` reads an output of unit `b`.
pub open spec fn depends_on(deps: Seq<Seq<usize>>, a: int, b: int) -> bool {
    0 <= a < deps.len() && deps[a].contains(b as usize)
}

/// Every dependency of `u` is among `placed`.
pub open spec fn ready(deps: Seq<Seq<usize>>, u: int, placed: Seq<usize>) -> bool {
    forall|k: int| 0 <= k < deps[u].len() ==> placed.contains(#[trigger] deps[u][k])
}

/// Each unit of `order` comes after all of its dependencies.
pub open spec fn respects(deps: Seq<Seq<usize>>, order: Seq<usize>) -> bool {
    forall|k: int| 0 <= k < order.len() ==> ready(deps, #[trigger] order[k] as int, order.take(k))
}

/// Each unit of `order` is the smallest index that was ready at its step.
pub open spec fn greedy(deps: Seq<Seq<usize>>, order: Seq<usize>) -> bool {
    forall|k: int, v: int|
        #![trigger ready(deps, v, order.take(k))]
        0 <= k < order.len() && 0 <= v < order[k] && !order.take(k).contains(v as usize)
            ==> !ready(deps, v, order.take(k))
}

/// `path` leads from producer to consumer and returns to where it started.
pub open spec fn closed_walk(deps: Seq<Seq<usize>>, path: Seq<usize>) -> bool {
    &&& path.len() >= 2
    &&& path[0] == path[path.len() - 1]
    &&& forall|k: int| 0 <= k < path.len() ==> #[trigger] path[k] < deps.len()
    &&& forall|k: int|
        1 <= k < path.len() ==> depends_on(deps, #[trigger] path[k] as int, path[k - 1] as int)
}

pub open spec fn distinct(s: Seq<usize>) -> bool {
    forall|i: int, j: int| 0 <= i < j < s.len() ==> #[trigger] s[i] != #[trigger] s[j]
}

pub open spec fn bounded(s: Seq<usize>, n: nat) -> bool {
    forall|i: int| 0 <= i < s.len() ==> #[trigger] s[i] < n
}

/// A sequence of distinct indices below `n` has at most `n` entries, fewer
/// when it misses an index, and at least `n` when it holds them all.
pub proof fn lemma_distinct_bounded(s: Seq<usize>, n: nat)
    requires
        distinct(s),
        bounded(s, n),
        n <= usize::MAX + 1,
    ensures
        s.len() <= n,
        forall|j: usize| j < n && !s.contains(j) ==> s.len() < n,
        (forall|j: usize| j < n ==> s.contains(j)) ==> s.len() == n,
{
    let range = Set::new(|x: usize| x < n);
    assert(s.no_duplicates());
    s.unique_seq_to_set();
    assert(s.to_set().subset_of(range));
    lemma_usize_range_len(n);
    vstd::set_lib::lemma_len_subset(s.to_set(), range);
    assert forall|j: usize| j < n && !s.contains(j) implies s.len() < n by {
        assert(s.to_set().subset_of(range.remove(j)));
        vstd::set_lib::lemma_len_subset(s.to_set(), range.remove(j));
    }
    if forall|j: usize| j < n ==> s.contains(j) {
        assert(range.subset_of(s.to_set()));
        vstd::set_lib::lemma_len_subset(range, s.to_set());
    }
}

proof fn lemma_usize_range_len(n: nat)
    requires
        n <= usize::MAX + 1,
    ensures
        Set::new(|x: usize| x < n).finite(),
        Set::new(|x: usize| x < n).len() == n,
    decreases n,
{
    if n == 0 {
        assert(Set::new(|x: usize| x < n) =~= Set::<usize>::empty());
    } else {
        lemma_usize_range_len((n - 1) as nat);
        let smaller = Set::new(|x: usize| x < (n - 1) as nat);
        assert(Set::new(|x: usize| x < n) =~= smaller.insert((n - 1) as usize));
    }
}

/// Whether every dependency of `u` is placed.
fn deps_placed(deps: &Vec<Vec<usize>>, u: usize, placed: &Vec<bool>, order: Ghost<Seq<usize>>) -> (r: bool)
    requires
        u < deps.len(),
        well_indexed(rows(deps)),
        placed.len() == deps.len(),
        forall|i: int| 0 <= i < placed.len() ==> (#[trigger] placed@[i] <==> order@.contains(i as usize)),
    ensures
        r == ready(rows(deps), u as int, order@),
{
    let ghost g = rows(deps);
    let row = &deps[u];
    assert(row@ == g[u as int]);
    let mut k: usize = 0;
    while k < row.len()
        invariant
            k <= row.len(),
            g == rows(deps),
            row@ == g[u as int],
            u < g.len(),
            well_indexed(g),
            placed.len() == deps.len(),
            g.len() == deps.len(),
            forall|i: int| 0 <= i < placed.len() ==> (#[trigger] placed@[i] <==> order@.contains(i as usize)),
            forall|j: int| 0 <= j < k ==> order@.contains(#[trigger] g[u as int][j]),
        decreases row.len() - k,
    {
        let d = row[k];
        assert(d == g[u as int][k as int]);
        assert(d < g.len());
        if !placed[d] {
            assert(!order@.contains(g[u as int][k as int]));
            assert(!ready(g, u as int, order@));
            return false;
        }
        k = k + 1;
    }
    true
}

/// Orders units so that each follows its dependencies, taking at every step
/// the smallest ready index; when no order exists, returns a closed walk.
pub fn stable_topological_order(deps: &Vec<Vec<usize>>) -> (r: Result<Vec<usize>, Vec<usize>>)
    requires
        well_indexed(rows(deps)),
    ensures
        r matches Ok(order) ==> is_perm(order@, deps.len() as nat)
            && respects(rows(deps), order@)
            && greedy(rows(deps), order@),
        r matches Err(path) ==> closed_walk(rows(deps), path@),
{
    let ghost g = rows(deps);
    let n = deps.len();
    let mut placed: Vec<bool> = Vec::new();
    while placed.len() < n
        invariant
            placed.len() <= n,
            forall|i: int| 0 <= i < placed.len() ==> !#[trigger] placed@[i],
        decreases n - placed.len(),
    {
        placed.push(false);
    }
    let mut order: Vec<usize> = Vec::new();
    while order.len() < n
        invariant
            n == deps.len(),
            g == rows(deps),
            well_indexed(g),
            placed.len() == n,
            forall|i: int| 0 <= i < n ==> (#[trigger] placed@[i] <==> order@.contains(i as usize)),
            distinct(order@),
            bounded(order@, n as nat),
            respects(g, order@),
            greedy(g, order@),
        decreases n - order.len(),
    {
        let mut u: usize = 0;
        let mut found = false;
        while u < n && !found
            invariant
                n == deps.len(),
                g == rows(deps),
                well_indexed(g),
                placed.len() == n,
                forall|i: int| 0 <= i < n ==> (#[trigger] placed@[i] <==> order@.contains(i as usize)),
                found ==> u < n && !order@.contains(u) && ready(g, u as int, order@),
                forall|v: int| 0 <= v < u && !order@.contains(v as usize) ==> !ready(g, v, order@),
            decreases n - u + (if found { 0int } else { 1int }),
        {
            if !placed[u] && deps_placed(deps, u, &placed, Ghost(order@)) {
                found = true;
            } else {
                u = u + 1;
            }
        }
        if !found {
            let path = extract_cycle(deps, &placed, Ghost(order@));
            return Err(path);
        }
        let ghost before = order@;
        placed.set(u, true);
        order.push(u);
        proof {
            assert(order@.take(before.len() as int) == before);
            assert forall|k: int| 0 <= k < order@.len() implies ready(g, #[trigger] order@[k] as int, order@.take(k)) by {
                if k < before.len() {
                    assert(order@.take(k) == before.take(k));
                }
            }
            assert forall|k: int, v: int|
                #![trigger ready(g, v, order@.take(k))]
                0 <= k < order@.len() && 0 <= v < order@[k] && !order@.take(k).contains(v as usize)
                    implies !ready(g, v, order@.take(k)) by {
                if k < before.len() {
                    assert(order@.take(k) == before.take(k));
                }
            }
            assert forall|i: int| 0 <= i < n implies (#[trigger] placed@[i] <==> order@.contains(i as usize)) by {
                if i == u {
                    assert(order@[before.len() as int] == u);
                } else if before.contains(i as usize) {
                    let w = choose|w: int| 0 <= w < before.len() && before[w] == i as usize;
                    assert(order@[w] == i as usize);
                } else if order@.contains(i as usize) {
                    let w = choose|w: int| 0 <= w < order@.len() && order@[w] == i as usize;
                    assert(w < before.len());
                }
            }
        }
    }
    proof {
        lemma_distinct_bounded(order@, n as nat);
    }
    Ok(order)
}

/// Walks backwards from the smallest unplaced unit along unplaced
/// dependencies until a unit repeats, and returns that loop in producer to
/// consumer direction.
fn extract_cycle(deps: &Vec<Vec<usize>>, placed: &Vec<bool>, order: Ghost<Seq<usize>>) -> (path: Vec<usize>)
    requires
        well_indexed(rows(deps)),
        placed.len() == deps.len(),
        forall|i: int| 0 <= i < deps.len() ==> (#[trigger] placed@[i] <==> order@.contains(i as usize)),
        distinct(order@),
        bounded(order@, deps.len() as nat),
        order@.len() < deps.len(),
        forall|v: int| 0 <= v < deps.len() && !order@.contains(v as usize) ==> !ready(rows(deps), v, order@),
    ensures
        closed_walk(rows(deps), path@),
{
    let ghost g = rows(deps);
    let n = deps.len();
    let mut start: usize = 0;
    while start < n && placed[start]
        invariant
            start <= n,
            placed.len() == n,
            forall|i: int| 0 <= i < start ==> #[trigger] placed@[i],
        decreases n - start,
    {
        start = start + 1;
    }
    if start == n {
        proof {
            assert forall|j: usize| j < n implies order@.contains(j) by {
                assert(placed@[j as int]);
            }
            lemma_distinct_bounded(order@, n as nat);
        }
        // unreachable: some unit is still unplaced
        return Vec::new();
    }
    let mut walk: Vec<usize> = Vec::new();
    walk.push(start);
    loop
        invariant
            n == deps.len(),
            g == rows(deps),
            well_indexed(g),
            placed.len() == n,
            forall|i: int| 0 <= i < n ==> (#[trigger] placed@[i] <==> order@.contains(i as usize)),
            forall|v: int| 0 <= v < n && !order@.contains(v as usize) ==> !ready(g, v, order@),
            walk.len() >= 1,
            distinct(walk@),
            bounded(walk@, n as nat),
            forall|k: int| 0 <= k < walk.len() ==> !#[trigger] placed@[walk@[k] as int],
            forall|k: int| 1 <= k < walk.len() ==> depends_on(g, walk@[k - 1] as int, #[trigger] walk@[k] as int),
        decreases n - walk.len(),
    {
        let cur = walk[walk.len() - 1];
        let ghost cur_i = cur as int;
        assert(!placed@[cur_i]);
        assert(!ready(g, cur_i, order@));
        let row = &deps[cur];
        assert(row@ == g[cur_i]);
        assert forall|j: int| 0 <= j < row.len() implies #[trigger] row@[j] < n by {
            assert(g[cur_i][j] < g.len());
        }
        let mut k: usize = 0;
        while k < row.len() && placed[row[k]]
            invariant
                k <= row.len(),
                forall|j: int| 0 <= j < row.len() ==> #[trigger] row@[j] < n,
                row@ == g[cur_i],
                cur_i < n,
                well_indexed(g),
                g.len() == n,
                placed.len() == n,
                forall|i: int| 0 <= i < n ==> (#[trigger] placed@[i] <==> order@.contains(i as usize)),
                forall|j: int| 0 <= j < k ==> order@.contains(#[trigger] g[cur_i][j]),
            decreases row.len() - k,
        {
            k = k + 1;
        }
        if k == row.len() {
            assert(ready(g, cur_i, order@));
            // unreachable: `cur` is not ready
            return Vec::new();
        }
        let d = row[k];
        assert(d == g[cur_i][k as int]);
        assert(depends_on(g, cur_i, d as int));
        let mut p: usize = 0;
        while p < walk.len() && walk[p] != d
            invariant
                p <= walk.len(),
                forall|j: int| 0 <= j < p ==> #[trigger] walk@[j] != d,
            decreases walk.len() - p,
        {
            p = p + 1;
        }
        if p < walk.len() {
            let mut path: Vec<usize> = Vec::new();
            path.push(d);
            let mut j: usize = walk.len();
            while j > p
                invariant
                    p <= j <= walk.len(),
                    walk@[p as int] == d,
                    path.len() == walk.len() - j + 1,
                    path@[0] == d,
                    forall|q: int| 1 <= q < path.len() ==> #[trigger] path@[q] == walk@[walk.len() - q],
                    forall|q: int| 0 <= q < path.len() ==> #[trigger] path@[q] < n,
                    bounded(walk@, n as nat),
                    d < n,
                decreases j - p,
            {
                j = j - 1;
                path.push(walk[j]);
            }
            proof {
                let last = walk.len() as int;
                assert(path.len() == last - p + 1);
                assert(path@[path.len() - 1] == walk@[p as int]);
                assert forall|q: int| 1 <= q < path@.len() implies depends_on(g, #[trigger] path@[q] as int, path@[q - 1] as int) by {
                    if q == 1 {
                        assert(path@[1] == walk@[last - 1]);
                        assert(path@[1] as int == cur_i);
                    } else {
                        assert(path@[q] == walk@[last - q]);
                        assert(path@[q - 1] == walk@[last - q + 1]);
                        assert(depends_on(g, walk@[last - q] as int, walk@[last - q + 1] as int));
                    }
                }
            }
            return path;
        }
        let ghost before = walk@;
        assert(!placed@[d as int]) by {
            if placed@[d as int] {
                assert(order@.contains(d));
            }
        }
        walk.push(d);
        proof {
            assert forall|a: int, b: int| 0 <= a < b < walk@.len() implies #[trigger] walk@[a] != #[trigger] walk@[b] by {
                if b == before.len() {
                    assert(walk@[a] == before[a]);
                } else {
                    assert(walk@[a] == before[a] && walk@[b] == before[b]);
                }
            }
            assert forall|k2: int| 1 <= k2 < walk.len() implies depends_on(g, walk@[k2 - 1] as int, #[trigger] walk@[k2] as int) by {
                if k2 == before.len() {
                    assert(walk@[k2 - 1] == cur);
                } else {
                    assert(walk@[k2 - 1] == before[k2 - 1] && walk@[k2] == before[k2]);
                }
            }
            lemma_distinct_bounded(walk@, n as nat);
        }
    }
}

spec fn pos_of(order: Seq<usize>, x: usize) -> int {
    choose|j: int| 0 <= j < order.len() && order[j] == x
}

proof fn lemma_pos_of(order: Seq<usize>, n: nat, x: usize)
    requires
        is_perm(order, n),
        n <= usize::MAX,
        x < n,
    ensures
        0 <= pos_of(order, x) < order.len(),
        order[pos_of(order, x)] == x,
        forall|j: int| 0 <= j < order.len() && order[j] == x ==> j == pos_of(order, x),
{
    if !order.contains(x) {
        lemma_distinct_bounded(order, n);
    }
}

proof fn lemma_walk_rises(deps: Seq<Seq<usize>>, order: Seq<usize>, path: Seq<usize>, k: int)
    requires
        deps.len() <= usize::MAX,
        is_perm(order, deps.len()),
        respects(deps, order),
        closed_walk(deps, path),
        1 <= k < path.len(),
    ensures
        pos_of(order, path[0]) < pos_of(order, path[k]),
    decreases k,
{
    let n = deps.len();
    assert(path[k - 1] < n && path[k] < n);
    lemma_pos_of(order, n, path[k - 1]);
    lemma_pos_of(order, n, path[k]);
    let a = pos_of(order, path[k]);
    assert(depends_on(deps, path[k] as int, path[k - 1] as int));
    assert(path[k] < n);
    assert(ready(deps, order[a] as int, order.take(a)));
    let row = deps[path[k] as int];
    let m = choose|m: int| 0 <= m < row.len() && row[m] == path[k - 1];
    assert(order.take(a).contains(row[m]));
    let b = choose|b: int| 0 <= b < a && order.take(a)[b] == path[k - 1];
    assert(order[b] == path[k - 1]);
    if k > 1 {
        lemma_walk_rises(deps, order, path, k - 1);
    }
}

/// Law: a dependency graph that has a complete order respecting its
/// dependencies has no closed walk, so `Ok` and `Err(cycle)` from
/// `stable_topological_order` describe disjoint situations.
pub proof fn lemma_order_excludes_cycle(deps: Seq<Seq<usize>>, order: Seq<usize>, path: Seq<usize>)
    requires
        deps.len() <= usize::MAX,
        is_perm(order, deps.len()),
        respects(deps, order),
    ensures
        !closed_walk(deps, path),
{
    if closed_walk(deps, path) {
        lemma_walk_rises(deps, order, path, path.len() - 1);
    }
}

} // verus!
