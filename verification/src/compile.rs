//! Graph compilation: producer/consumer derivation, type checks, a stable
//! topological schedule, and normalized ordering of the compiled graph.

use vstd::prelude::*;

use crate::ids::{ResourceId, SemanticType, UnitId};
use crate::sort::{empty_keys, is_perm, lemma_pair_lt_primary, lemma_sorted_strict, pair_lt, sort_by_keys};
use crate::text::{chars_of, lemma_seq_lt_irreflexive, lemma_seq_lt_total, seq_lt};
use crate::topo::{bounded, closed_walk, depends_on, distinct, greedy, lemma_distinct_bounded, ready, respects, rows, stable_topological_order, well_indexed};
use crate::types::{CompileError, CompiledGraph, CompiledResource, CompiledUnit, ConcreteType, Consumer, Producer, ResolvedBinding, ResolvedModule};

verus! {

/// Module input `a` publishes Resource `x`.
pub open spec fn input_slot(m: ResolvedModule, a: int, x: Seq<char>) -> bool {
    0 <= a < m.inputs@.len() && m.inputs@[a].resource@ == x
}

/// Output port `o` of unit `i` publishes Resource `x`.
pub open spec fn output_slot(m: ResolvedModule, i: int, o: int, x: Seq<char>) -> bool {
    &&& 0 <= i < m.units@.len()
    &&& 0 <= o < m.units@[i].outputs@.len()
    &&& m.units@[i].outputs@[o].resource@ == x
}

/// Some Module input or Unit output publishes `x`.
pub open spec fn produced(m: ResolvedModule, x: Seq<char>) -> bool {
    (exists|a: int| input_slot(m, a, x)) || (exists|i: int, o: int| output_slot(m, i, o, x))
}

/// Unit ids are pairwise distinct.
pub open spec fn unique_units(m: ResolvedModule) -> bool {
    forall|i: int, j: int|
        0 <= i < j < m.units@.len() ==> #[trigger] m.units@[i].id@ != #[trigger] m.units@[j].id@
}

/// Port names of a binding list are pairwise distinct.
pub open spec fn distinct_ports(bs: Seq<ResolvedBinding>) -> bool {
    forall|a: int, b: int| 0 <= a < b < bs.len() ==> #[trigger] bs[a].port@ != #[trigger] bs[b].port@
}

/// Every unit binds each of its input and output ports once.
pub open spec fn unique_ports(m: ResolvedModule) -> bool {
    forall|i: int|
        0 <= i < m.units@.len() ==> distinct_ports(#[trigger] m.units@[i].inputs@)
            && distinct_ports(m.units@[i].outputs@)
}

/// No Resource is published twice.
pub open spec fn unique_producers(m: ResolvedModule) -> bool {
    &&& forall|a: int, b: int|
        0 <= a < b < m.inputs@.len() ==> #[trigger] m.inputs@[a].resource@
            != #[trigger] m.inputs@[b].resource@
    &&& forall|a: int, i: int, o: int|
        0 <= a < m.inputs@.len() && #[trigger] output_slot(m, i, o, m.inputs@[a].resource@) ==> false
    &&& forall|i: int, o: int, j: int, p: int, x: Seq<char>|
        #![trigger output_slot(m, i, o, x), output_slot(m, j, p, x)]
        output_slot(m, i, o, x) && output_slot(m, j, p, x) ==> i == j && o == p
}

/// The binding reads a published Resource whose semantic and concrete types
/// agree with the binding.
pub open spec fn binding_typed(m: ResolvedModule, bnd: ResolvedBinding) -> bool {
    &&& produced(m, bnd.resource@)
    &&& forall|a: int|
        #[trigger] input_slot(m, a, bnd.resource@) ==> m.inputs@[a].semantic_type@
            == bnd.semantic_type@ && m.inputs@[a].concrete_type == bnd.concrete_type
    &&& forall|i: int, o: int|
        #[trigger] output_slot(m, i, o, bnd.resource@) ==> m.units@[i].outputs@[o].semantic_type@
            == bnd.semantic_type@ && m.units@[i].outputs@[o].concrete_type == bnd.concrete_type
}

/// Every unit input reads a published Resource of the right types.
pub open spec fn inputs_typed(m: ResolvedModule) -> bool {
    forall|i: int, b: int|
        0 <= i < m.units@.len() && 0 <= b < m.units@[i].inputs@.len() ==> binding_typed(
            m,
            #[trigger] m.units@[i].inputs@[b],
        )
}

/// Unit `j` publishes a Resource that unit `i` reads.
pub open spec fn reads_from(m: ResolvedModule, i: int, j: int) -> bool {
    &&& 0 <= i < m.units@.len()
    &&& 0 <= j < m.units@.len()
    &&& exists|b: int, o: int|
        0 <= b < m.units@[i].inputs@.len() && #[trigger] output_slot(
            m,
            j,
            o,
            m.units@[i].inputs@[b].resource@,
        )
}

struct ProducerEntry {
    resource: ResourceId,
    semantic_type: SemanticType,
    concrete_type: ConcreteType,
    producer: Producer,
    source: Option<usize>,
}

/// The entry records the Module input or Unit output that publishes it.
spec fn entry_matches(m: ResolvedModule, e: ProducerEntry) -> bool {
    ||| exists|a: int|
        #[trigger] input_slot(m, a, e.resource@) && e.semantic_type@ == m.inputs@[a].semantic_type@
            && e.concrete_type == m.inputs@[a].concrete_type && e.source is None
            && e.producer is ModuleInput
    ||| exists|i: int, o: int|
        #[trigger] output_slot(m, i, o, e.resource@) && e.semantic_type@
            == m.units@[i].outputs@[o].semantic_type@ && e.concrete_type
            == m.units@[i].outputs@[o].concrete_type && e.source == Some(i as usize)
            && e.producer is Unit && e.producer->unit@ == m.units@[i].id@ && e.producer->port@
            == m.units@[i].outputs@[o].port@
}

spec fn distinct_entries(t: Seq<ProducerEntry>) -> bool {
    forall|p: int, q: int| 0 <= p < q < t.len() ==> #[trigger] t[p].resource@ != #[trigger] t[q].resource@
}

spec fn listed(t: Seq<ProducerEntry>, x: Seq<char>) -> bool {
    exists|q: int| 0 <= q < t.len() && #[trigger] t[q].resource@ == x
}

/// `t` lists every published Resource once, with its producer.
spec fn producer_table(m: ResolvedModule, t: Seq<ProducerEntry>) -> bool {
    &&& forall|q: int| 0 <= q < t.len() ==> entry_matches(m, #[trigger] t[q])
    &&& distinct_entries(t)
    &&& forall|x: Seq<char>| produced(m, x) ==> listed(t, x)
}

fn find_producer(prods: &Vec<ProducerEntry>, resource: &ResourceId) -> (r: Option<usize>)
    ensures
        r matches Some(i) ==> i < prods.len() && prods@[i as int].resource@ == resource@,
        r is None ==> !listed(prods@, resource@),
{
    let mut i: usize = 0;
    while i < prods.len()
        invariant
            i <= prods.len(),
            forall|k: int| 0 <= k < i ==> #[trigger] prods@[k].resource@ != resource@,
        decreases prods.len() - i,
    {
        if prods[i].resource == *resource {
            return Some(i);
        }
        i = i + 1;
    }
    None
}

fn ports_distinct(bindings: &Vec<ResolvedBinding>) -> (r: bool)
    ensures
        r == distinct_ports(bindings@),
{
    let mut b: usize = 0;
    while b < bindings.len()
        invariant
            b <= bindings.len(),
            forall|x: int, y: int| 0 <= x < y < b ==> #[trigger] bindings@[x].port@ != #[trigger] bindings@[y].port@,
        decreases bindings.len() - b,
    {
        let mut a: usize = 0;
        while a < b
            invariant
                a <= b < bindings.len(),
                forall|x: int, y: int| 0 <= x < y < b ==> #[trigger] bindings@[x].port@ != #[trigger] bindings@[y].port@,
                forall|x: int| 0 <= x < a ==> #[trigger] bindings@[x].port@ != bindings@[b as int].port@,
            decreases b - a,
        {
            if bindings[a].port == bindings[b].port {
                return false;
            }
            a = a + 1;
        }
        b = b + 1;
    }
    true
}

/// Output slots of units before `i`, and of unit `i` before port `o`.
spec fn done_slot(i: int, o: int, j: int, p: int) -> bool {
    j < i || (j == i && p < o)
}

/// Records the producer of every published Resource, rejecting duplicate
/// unit ids, duplicate ports and Resources published twice.
fn collect_producers(m: &ResolvedModule) -> (r: Result<Vec<ProducerEntry>, CompileError>)
    ensures
        r matches Ok(t) ==> unique_units(*m) && unique_ports(*m) && unique_producers(*m)
            && producer_table(*m, t@),
        r is Err ==> !(unique_units(*m) && unique_ports(*m) && unique_producers(*m)),
        r matches Err(CompileError::DuplicateUnit { unit }) ==> exists|i: int, j: int|
            0 <= i < j < m.units@.len() && #[trigger] m.units@[i].id@ == unit@
                && #[trigger] m.units@[j].id@ == unit@,
        r matches Err(CompileError::DuplicateResolvedPort { unit }) ==> exists|i: int|
            0 <= i < m.units@.len() && #[trigger] m.units@[i].id@ == unit@ && !(distinct_ports(
                m.units@[i].inputs@,
            ) && distinct_ports(m.units@[i].outputs@)),
        r matches Err(CompileError::DuplicateProducer { resource, .. }) ==> !unique_producers(*m),
        r matches Err(e) ==> e is DuplicateUnit || e is DuplicateResolvedPort || e is DuplicateProducer,
{
    let mut prods: Vec<ProducerEntry> = Vec::new();
    let mut a: usize = 0;
    while a < m.inputs.len()
        invariant
            a <= m.inputs@.len(),
            forall|q: int| 0 <= q < prods@.len() ==> entry_matches(*m, #[trigger] prods@[q]),
            distinct_entries(prods@),
            forall|q: int| #![trigger prods@[q]] 0 <= q < prods@.len() ==> exists|b: int| 0 <= b < a && #[trigger] input_slot(*m, b, prods@[q].resource@),
            forall|b: int| 0 <= b < a ==> listed(prods@, #[trigger] m.inputs@[b].resource@),
            forall|x: int, y: int| 0 <= x < y < a ==> #[trigger] m.inputs@[x].resource@ != #[trigger] m.inputs@[y].resource@,
        decreases m.inputs@.len() - a,
    {
        let input = &m.inputs[a];
        match find_producer(&prods, &input.resource) {
            Some(q) => {
                let first = prods[q].producer.copy();
                proof {
                    let b = choose|b: int| 0 <= b < a && #[trigger] input_slot(*m, b, prods@[q as int].resource@);
                    assert(m.inputs@[b].resource@ == m.inputs@[a as int].resource@);
                }
                return Err(CompileError::DuplicateProducer {
                    resource: input.resource.clone(),
                    first,
                    second: Producer::ModuleInput,
                });
            },
            None => {
                let ghost before = prods@;
                prods.push(ProducerEntry {
                    resource: input.resource.clone(),
                    semantic_type: input.semantic_type.clone(),
                    concrete_type: input.concrete_type,
                    producer: Producer::ModuleInput,
                    source: None,
                });
                proof {
                    let e = prods@[before.len() as int];
                    assert(input_slot(*m, a as int, e.resource@));
                    assert forall|q: int| 0 <= q < prods@.len() implies entry_matches(*m, #[trigger] prods@[q]) by {
                        if q < before.len() {
                            assert(prods@[q] == before[q]);
                        }
                    }
                    assert forall|p: int, q: int| 0 <= p < q < prods@.len() implies #[trigger] prods@[p].resource@ != #[trigger] prods@[q].resource@ by {
                        if q == before.len() {
                            assert(prods@[p] == before[p]);
                        } else {
                            assert(prods@[p] == before[p] && prods@[q] == before[q]);
                        }
                    }
                    assert forall|q: int| #![trigger prods@[q]] 0 <= q < prods@.len() implies exists|b: int| 0 <= b < a + 1 && #[trigger] input_slot(*m, b, prods@[q].resource@) by {
                        if q < before.len() {
                            assert(prods@[q] == before[q]);
                            let b = choose|b: int| 0 <= b < a && #[trigger] input_slot(*m, b, before[q].resource@);
                            assert(input_slot(*m, b, prods@[q].resource@));
                        }
                    }
                    assert forall|b: int| 0 <= b < a + 1 implies listed(prods@, #[trigger] m.inputs@[b].resource@) by {
                        if b < a {
                            let q = choose|q: int| 0 <= q < before.len() && #[trigger] before[q].resource@ == m.inputs@[b].resource@;
                            assert(prods@[q] == before[q]);
                        } else {
                            assert(prods@[before.len() as int].resource@ == m.inputs@[b].resource@);
                        }
                    }
                    assert forall|x: int, y: int| 0 <= x < y < a + 1 implies #[trigger] m.inputs@[x].resource@ != #[trigger] m.inputs@[y].resource@ by {
                        if y == a {
                            if m.inputs@[x].resource@ == m.inputs@[y].resource@ {
                                assert(listed(before, m.inputs@[x].resource@));
                            }
                        }
                    }
                }
            },
        }
        a = a + 1;
    }
    let mut i: usize = 0;
    while i < m.units.len()
        invariant
            i <= m.units@.len(),
            forall|q: int| 0 <= q < prods@.len() ==> entry_matches(*m, #[trigger] prods@[q]),
            distinct_entries(prods@),
            forall|q: int| #![trigger prods@[q]] 0 <= q < prods@.len() ==> (exists|b: int| #[trigger] input_slot(*m, b, prods@[q].resource@))
                || (exists|j: int, p: int| j < i && #[trigger] output_slot(*m, j, p, prods@[q].resource@)),
            forall|b: int| 0 <= b < m.inputs@.len() ==> listed(prods@, #[trigger] m.inputs@[b].resource@),
            forall|j: int, p: int, x: Seq<char>| j < i && #[trigger] output_slot(*m, j, p, x) ==> listed(prods@, x),
            forall|x: int, y: int| 0 <= x < y < m.inputs@.len() ==> #[trigger] m.inputs@[x].resource@ != #[trigger] m.inputs@[y].resource@,
            forall|b: int, j: int, p: int| 0 <= b < m.inputs@.len() && j < i && #[trigger] output_slot(*m, j, p, m.inputs@[b].resource@) ==> false,
            forall|j1: int, p1: int, j2: int, p2: int, x: Seq<char>|
                #![trigger output_slot(*m, j1, p1, x), output_slot(*m, j2, p2, x)]
                j1 < i && j2 < i && output_slot(*m, j1, p1, x) && output_slot(*m, j2, p2, x) ==> j1 == j2 && p1 == p2,
            forall|x: int, y: int| 0 <= x < y < i ==> #[trigger] m.units@[x].id@ != #[trigger] m.units@[y].id@,
            forall|x: int| 0 <= x < i ==> distinct_ports(#[trigger] m.units@[x].inputs@) && distinct_ports(m.units@[x].outputs@),
        decreases m.units@.len() - i,
    {
        let unit = &m.units[i];
        let mut j: usize = 0;
        while j < i
            invariant
                j <= i < m.units@.len(),
                unit == m.units@[i as int],
                forall|x: int| 0 <= x < j ==> #[trigger] m.units@[x].id@ != m.units@[i as int].id@,
            decreases i - j,
        {
            if m.units[j].id == unit.id {
                return Err(CompileError::DuplicateUnit { unit: unit.id.clone() });
            }
            j = j + 1;
        }
        if !(ports_distinct(&unit.inputs) && ports_distinct(&unit.outputs)) {
            return Err(CompileError::DuplicateResolvedPort { unit: unit.id.clone() });
        }
        let mut o: usize = 0;
        while o < unit.outputs.len()
            invariant
                i < m.units@.len(),
                unit == m.units@[i as int],
                o <= unit.outputs@.len(),
                forall|q: int| 0 <= q < prods@.len() ==> entry_matches(*m, #[trigger] prods@[q]),
                distinct_entries(prods@),
                forall|q: int| #![trigger prods@[q]] 0 <= q < prods@.len() ==> (exists|b: int| #[trigger] input_slot(*m, b, prods@[q].resource@))
                    || (exists|j: int, p: int| done_slot(i as int, o as int, j, p) && #[trigger] output_slot(*m, j, p, prods@[q].resource@)),
                forall|b: int| 0 <= b < m.inputs@.len() ==> listed(prods@, #[trigger] m.inputs@[b].resource@),
                forall|j: int, p: int, x: Seq<char>| done_slot(i as int, o as int, j, p) && #[trigger] output_slot(*m, j, p, x) ==> listed(prods@, x),
                forall|x: int, y: int| 0 <= x < y < m.inputs@.len() ==> #[trigger] m.inputs@[x].resource@ != #[trigger] m.inputs@[y].resource@,
                forall|b: int, j: int, p: int| 0 <= b < m.inputs@.len() && done_slot(i as int, o as int, j, p) && #[trigger] output_slot(*m, j, p, m.inputs@[b].resource@) ==> false,
                forall|j1: int, p1: int, j2: int, p2: int, x: Seq<char>|
                    #![trigger output_slot(*m, j1, p1, x), output_slot(*m, j2, p2, x)]
                    done_slot(i as int, o as int, j1, p1) && done_slot(i as int, o as int, j2, p2) && output_slot(*m, j1, p1, x) && output_slot(*m, j2, p2, x) ==> j1 == j2 && p1 == p2,
                forall|x: int| 0 <= x <= i ==> distinct_ports(#[trigger] m.units@[x].inputs@) && distinct_ports(m.units@[x].outputs@),
            decreases unit.outputs@.len() - o,
        {
            let output = &unit.outputs[o];
            let ghost x = output.resource@;
            assert(output_slot(*m, i as int, o as int, x));
            match find_producer(&prods, &output.resource) {
                Some(q) => {
                    let first = prods[q].producer.copy();
                    proof {
                        let y = prods@[q as int].resource@;
                        assert(y == x);
                        if exists|b: int| #[trigger] input_slot(*m, b, y) {
                            let b = choose|b: int| #[trigger] input_slot(*m, b, y);
                            assert(output_slot(*m, i as int, o as int, m.inputs@[b].resource@));
                        } else {
                            let (j, p) = choose|j: int, p: int| done_slot(i as int, o as int, j, p) && #[trigger] output_slot(*m, j, p, y);
                            assert(output_slot(*m, j, p, x));
                        }
                    }
                    return Err(CompileError::DuplicateProducer {
                        resource: output.resource.clone(),
                        first,
                        second: Producer::Unit { unit: unit.id.clone(), port: output.port.clone() },
                    });
                },
                None => {
                    let ghost before = prods@;
                    prods.push(ProducerEntry {
                        resource: output.resource.clone(),
                        semantic_type: output.semantic_type.clone(),
                        concrete_type: output.concrete_type,
                        producer: Producer::Unit { unit: unit.id.clone(), port: output.port.clone() },
                        source: Some(i),
                    });
                    proof {
                        let e = prods@[before.len() as int];
                        assert(e.resource@ == x);
                        assert(entry_matches(*m, e));
                        assert forall|q: int| 0 <= q < prods@.len() implies entry_matches(*m, #[trigger] prods@[q]) by {
                            if q < before.len() {
                                assert(prods@[q] == before[q]);
                            }
                        }
                        assert forall|p: int, q: int| 0 <= p < q < prods@.len() implies #[trigger] prods@[p].resource@ != #[trigger] prods@[q].resource@ by {
                            if q == before.len() {
                                assert(prods@[p] == before[p]);
                            } else {
                                assert(prods@[p] == before[p] && prods@[q] == before[q]);
                            }
                        }
                        assert forall|q: int| #![trigger prods@[q]] 0 <= q < prods@.len() implies (exists|b: int| #[trigger] input_slot(*m, b, prods@[q].resource@))
                            || (exists|j: int, p: int| done_slot(i as int, o + 1, j, p) && #[trigger] output_slot(*m, j, p, prods@[q].resource@)) by {
                            if q < before.len() {
                                assert(prods@[q] == before[q]);
                                if !(exists|b: int| #[trigger] input_slot(*m, b, prods@[q].resource@)) {
                                    let (j, p) = choose|j: int, p: int| done_slot(i as int, o as int, j, p) && #[trigger] output_slot(*m, j, p, before[q].resource@);
                                    assert(done_slot(i as int, o + 1, j, p));
                                }
                            } else {
                                assert(done_slot(i as int, o + 1, i as int, o as int));
                            }
                        }
                        assert forall|b: int| 0 <= b < m.inputs@.len() implies listed(prods@, #[trigger] m.inputs@[b].resource@) by {
                            let q = choose|q: int| 0 <= q < before.len() && #[trigger] before[q].resource@ == m.inputs@[b].resource@;
                            assert(prods@[q] == before[q]);
                        }
                        assert forall|j: int, p: int, y: Seq<char>| done_slot(i as int, o + 1, j, p) && #[trigger] output_slot(*m, j, p, y) implies listed(prods@, y) by {
                            if done_slot(i as int, o as int, j, p) {
                                let q = choose|q: int| 0 <= q < before.len() && #[trigger] before[q].resource@ == y;
                                assert(prods@[q] == before[q]);
                            } else {
                                assert(prods@[before.len() as int].resource@ == y);
                            }
                        }
                        assert forall|b: int, j: int, p: int| 0 <= b < m.inputs@.len() && done_slot(i as int, o + 1, j, p) && #[trigger] output_slot(*m, j, p, m.inputs@[b].resource@) implies false by {
                            if !done_slot(i as int, o as int, j, p) {
                                assert(listed(before, m.inputs@[b].resource@));
                            }
                        }
                        assert forall|j1: int, p1: int, j2: int, p2: int, y: Seq<char>|
                            done_slot(i as int, o + 1, j1, p1) && done_slot(i as int, o + 1, j2, p2) && output_slot(*m, j1, p1, y) && output_slot(*m, j2, p2, y)
                            implies j1 == j2 && p1 == p2 by {
                            if !done_slot(i as int, o as int, j1, p1) && done_slot(i as int, o as int, j2, p2) {
                                assert(listed(before, y));
                            } else if done_slot(i as int, o as int, j1, p1) && !done_slot(i as int, o as int, j2, p2) {
                                assert(listed(before, y));
                            }
                        }
                    }
                },
            }
            o = o + 1;
        }
        proof {
            assert forall|q: int| #![trigger prods@[q]] 0 <= q < prods@.len() implies (exists|b: int| #[trigger] input_slot(*m, b, prods@[q].resource@))
                || (exists|j: int, p: int| j < i + 1 && #[trigger] output_slot(*m, j, p, prods@[q].resource@)) by {
                if !(exists|b: int| #[trigger] input_slot(*m, b, prods@[q].resource@)) {
                    let (j, p) = choose|j: int, p: int| done_slot(i as int, o as int, j, p) && #[trigger] output_slot(*m, j, p, prods@[q].resource@);
                }
            }
            assert forall|j: int, p: int, x: Seq<char>| j < i + 1 && #[trigger] output_slot(*m, j, p, x) implies listed(prods@, x) by {
                assert(done_slot(i as int, o as int, j, p));
            }
            assert forall|b: int, j: int, p: int| 0 <= b < m.inputs@.len() && j < i + 1 && #[trigger] output_slot(*m, j, p, m.inputs@[b].resource@) implies false by {
                assert(done_slot(i as int, o as int, j, p));
            }
            assert forall|j1: int, p1: int, j2: int, p2: int, x: Seq<char>|
                j1 < i + 1 && j2 < i + 1 && output_slot(*m, j1, p1, x) && output_slot(*m, j2, p2, x) implies j1 == j2 && p1 == p2 by {
                assert(done_slot(i as int, o as int, j1, p1) && done_slot(i as int, o as int, j2, p2));
            }
        }
        i = i + 1;
    }
    proof {
        assert forall|x: Seq<char>| produced(*m, x) implies listed(prods@, x) by {
            if exists|b: int| input_slot(*m, b, x) {
                let b = choose|b: int| input_slot(*m, b, x);
                assert(listed(prods@, m.inputs@[b].resource@));
            } else {
                let (j, p) = choose|j: int, p: int| output_slot(*m, j, p, x);
            }
        }
    }
    Ok(prods)
}


/// Resource `x` is published with semantic type `sem` and representation `conc`.
pub open spec fn published_as(m: ResolvedModule, x: Seq<char>, sem: Seq<char>, conc: ConcreteType) -> bool {
    ||| exists|a: int|
        #[trigger] input_slot(m, a, x) && m.inputs@[a].semantic_type@ == sem
            && m.inputs@[a].concrete_type == conc
    ||| exists|i: int, o: int|
        #[trigger] output_slot(m, i, o, x) && m.units@[i].outputs@[o].semantic_type@ == sem
            && m.units@[i].outputs@[o].concrete_type == conc
}

/// Resource `x` is published with semantic type `sem`.
pub open spec fn published_semantic(m: ResolvedModule, x: Seq<char>, sem: Seq<char>) -> bool {
    ||| exists|a: int| #[trigger] input_slot(m, a, x) && m.inputs@[a].semantic_type@ == sem
    ||| exists|i: int, o: int|
        #[trigger] output_slot(m, i, o, x) && m.units@[i].outputs@[o].semantic_type@ == sem
}

/// Input port `b` of unit `i` exists.
pub open spec fn input_at(m: ResolvedModule, i: int, b: int) -> bool {
    0 <= i < m.units@.len() && 0 <= b < m.units@[i].inputs@.len()
}

proof fn lemma_entry_typed(m: ResolvedModule, e: ProducerEntry, bnd: ResolvedBinding)
    requires
        unique_producers(m),
        entry_matches(m, e),
        e.resource@ == bnd.resource@,
    ensures
        published_as(m, e.resource@, e.semantic_type@, e.concrete_type),
        published_semantic(m, e.resource@, e.semantic_type@),
        binding_typed(m, bnd) <==> (e.semantic_type@ == bnd.semantic_type@ && e.concrete_type
            == bnd.concrete_type),
{
    let x = e.resource@;
    if exists|a: int|
        #[trigger] input_slot(m, a, x) && e.semantic_type@ == m.inputs@[a].semantic_type@
            && e.concrete_type == m.inputs@[a].concrete_type && e.source is None
            && e.producer is ModuleInput {
        let a0 = choose|a: int|
            #[trigger] input_slot(m, a, x) && e.semantic_type@ == m.inputs@[a].semantic_type@
                && e.concrete_type == m.inputs@[a].concrete_type && e.source is None
                && e.producer is ModuleInput;
        assert forall|a: int| #[trigger] input_slot(m, a, x) implies a == a0 by {
            if a < a0 {
                assert(m.inputs@[a].resource@ != m.inputs@[a0].resource@);
            } else if a > a0 {
                assert(m.inputs@[a0].resource@ != m.inputs@[a].resource@);
            }
        }
        assert forall|i: int, o: int| #[trigger] output_slot(m, i, o, x) implies false by {
            assert(output_slot(m, i, o, m.inputs@[a0].resource@));
        }
    } else {
        let (i0, o0) = choose|i: int, o: int|
            #[trigger] output_slot(m, i, o, x) && e.semantic_type@
                == m.units@[i].outputs@[o].semantic_type@ && e.concrete_type
                == m.units@[i].outputs@[o].concrete_type && e.source == Some(i as usize)
                && e.producer is Unit && e.producer->unit@ == m.units@[i].id@ && e.producer->port@
                == m.units@[i].outputs@[o].port@;
        assert forall|a: int| #[trigger] input_slot(m, a, x) implies false by {
            assert(output_slot(m, i0, o0, m.inputs@[a].resource@));
        }
        assert forall|i: int, o: int| #[trigger] output_slot(m, i, o, x) implies i == i0 && o == o0 by {
            assert(output_slot(m, i0, o0, x));
        }
    }
}

/// Every (entry, unit, input port) link names an input reading that entry's
/// Resource, each input appears once, and links are ordered by (unit, port).
spec fn link_table(m: ResolvedModule, t: Seq<ProducerEntry>, links: Seq<(usize, usize, usize)>) -> bool {
    &&& forall|k: int|
        0 <= k < links.len() ==> (#[trigger] links[k]).0 < t.len() && input_at(m, links[k].1 as int, links[k].2 as int)
            && m.units@[links[k].1 as int].inputs@[links[k].2 as int].resource@ == t[links[k].0 as int].resource@
    &&& forall|i: int, b: int, q: int|
        input_at(m, i, b) && 0 <= q < t.len() && #[trigger] m.units@[i].inputs@[b].resource@ == #[trigger] t[q].resource@
            ==> links.contains((q as usize, i as usize, b as usize))
    &&& forall|k1: int, k2: int|
        0 <= k1 < k2 < links.len() ==> (#[trigger] links[k1]).1 < (#[trigger] links[k2]).1 || (links[k1].1
            == links[k2].1 && links[k1].2 < links[k2].2)
}

/// `deps[i]` lists exactly the units that unit `i` reads from.
pub open spec fn dependency_table(m: ResolvedModule, deps: Seq<Seq<usize>>) -> bool {
    &&& deps.len() == m.units@.len()
    &&& forall|i: int, k: int|
        0 <= i < deps.len() && 0 <= k < deps[i].len() ==> #[trigger] deps[i][k] < deps.len()
            && reads_from(m, i, deps[i][k] as int)
    &&& forall|i: int, j: int| #[trigger] reads_from(m, i, j) ==> deps[i].contains(j as usize)
}

/// Checks every unit input against its producer and records consumers and
/// unit dependencies.
fn link_inputs(m: &ResolvedModule, prods: &Vec<ProducerEntry>) -> (r: Result<(Vec<(usize, usize, usize)>, Vec<Vec<usize>>), CompileError>)
    requires
        unique_units(*m),
        unique_ports(*m),
        unique_producers(*m),
        producer_table(*m, prods@),
    ensures
        r matches Ok((links, deps)) ==> inputs_typed(*m) && link_table(*m, prods@, links@)
            && dependency_table(*m, deps@.map_values(|row: Vec<usize>| row@)),
        r is Err ==> !inputs_typed(*m),
        r matches Err(CompileError::UnknownResource { unit, port, resource }) ==> exists|i: int, b: int|
            #[trigger] input_at(*m, i, b) && m.units@[i].id@ == unit@ && m.units@[i].inputs@[b].port@ == port@
                && m.units@[i].inputs@[b].resource@ == resource@ && !produced(*m, resource@),
        r matches Err(CompileError::SemanticTypeMismatch { unit, port, resource, expected, actual }) ==> exists|i: int, b: int|
            #[trigger] input_at(*m, i, b) && m.units@[i].id@ == unit@ && m.units@[i].inputs@[b].port@ == port@
                && m.units@[i].inputs@[b].resource@ == resource@ && m.units@[i].inputs@[b].semantic_type@ == expected@
                && expected@ != actual@ && published_semantic(*m, resource@, actual@),
        r matches Err(CompileError::ConcreteBindingMismatch { unit, port, resource, expected, actual }) ==> exists|i: int, b: int|
            #[trigger] input_at(*m, i, b) && m.units@[i].id@ == unit@ && m.units@[i].inputs@[b].port@ == port@
                && m.units@[i].inputs@[b].resource@ == resource@ && m.units@[i].inputs@[b].concrete_type == expected
                && expected != actual && published_as(*m, resource@, m.units@[i].inputs@[b].semantic_type@, actual),
        r matches Err(e) ==> e is UnknownResource || e is SemanticTypeMismatch || e is ConcreteBindingMismatch,
{
    let mut links: Vec<(usize, usize, usize)> = Vec::new();
    let mut deps: Vec<Vec<usize>> = Vec::new();
    let mut i: usize = 0;
    while i < m.units.len()
        invariant
            i <= m.units@.len(),
            unique_units(*m),
            unique_ports(*m),
            unique_producers(*m),
            producer_table(*m, prods@),
            deps@.len() == i,
            forall|x: int, b: int| 0 <= x < i && input_at(*m, x, b) ==> binding_typed(*m, #[trigger] m.units@[x].inputs@[b]),
            forall|k: int|
                0 <= k < links@.len() ==> (#[trigger] links@[k]).0 < prods@.len() && input_at(*m, links@[k].1 as int, links@[k].2 as int)
                    && links@[k].1 < i
                    && m.units@[links@[k].1 as int].inputs@[links@[k].2 as int].resource@ == prods@[links@[k].0 as int].resource@,
            forall|x: int, b: int, q: int|
                0 <= x < i && input_at(*m, x, b) && 0 <= q < prods@.len() && #[trigger] m.units@[x].inputs@[b].resource@ == #[trigger] prods@[q].resource@
                    ==> links@.contains((q as usize, x as usize, b as usize)),
            forall|k1: int, k2: int|
                0 <= k1 < k2 < links@.len() ==> (#[trigger] links@[k1]).1 < (#[trigger] links@[k2]).1 || (links@[k1].1
                    == links@[k2].1 && links@[k1].2 < links@[k2].2),
            forall|x: int, k: int|
                0 <= x < i && 0 <= k < deps@[x]@.len() ==> #[trigger] deps@[x]@[k] < m.units@.len()
                    && reads_from(*m, x, deps@[x]@[k] as int),
            forall|x: int, j: int| 0 <= x < i && #[trigger] reads_from(*m, x, j) ==> deps@[x]@.contains(j as usize),
        decreases m.units@.len() - i,
    {
        let unit = &m.units[i];
        let mut row: Vec<usize> = Vec::new();
        let mut b: usize = 0;
        while b < unit.inputs.len()
            invariant
                i < m.units@.len(),
                unit == m.units@[i as int],
                b <= unit.inputs@.len(),
                unique_units(*m),
                unique_ports(*m),
                unique_producers(*m),
                producer_table(*m, prods@),
                deps@.len() == i,
                forall|x: int, c: int| 0 <= x < i && input_at(*m, x, c) ==> binding_typed(*m, #[trigger] m.units@[x].inputs@[c]),
                forall|c: int| 0 <= c < b ==> binding_typed(*m, #[trigger] m.units@[i as int].inputs@[c]),
                forall|k: int|
                    0 <= k < links@.len() ==> (#[trigger] links@[k]).0 < prods@.len() && input_at(*m, links@[k].1 as int, links@[k].2 as int)
                        && (links@[k].1 < i || (links@[k].1 == i && links@[k].2 < b))
                        && m.units@[links@[k].1 as int].inputs@[links@[k].2 as int].resource@ == prods@[links@[k].0 as int].resource@,
                forall|x: int, c: int, q: int|
                    (0 <= x < i || (x == i && c < b)) && input_at(*m, x, c) && 0 <= q < prods@.len() && #[trigger] m.units@[x].inputs@[c].resource@ == #[trigger] prods@[q].resource@
                        ==> links@.contains((q as usize, x as usize, c as usize)),
                forall|k1: int, k2: int|
                    0 <= k1 < k2 < links@.len() ==> (#[trigger] links@[k1]).1 < (#[trigger] links@[k2]).1 || (links@[k1].1
                        == links@[k2].1 && links@[k1].2 < links@[k2].2),
                forall|x: int, k: int|
                    0 <= x < i && 0 <= k < deps@[x]@.len() ==> #[trigger] deps@[x]@[k] < m.units@.len()
                        && reads_from(*m, x, deps@[x]@[k] as int),
                forall|x: int, j: int| 0 <= x < i && #[trigger] reads_from(*m, x, j) ==> deps@[x]@.contains(j as usize),
                forall|k: int| 0 <= k < row@.len() ==> #[trigger] row@[k] < m.units@.len() && reads_from(*m, i as int, row@[k] as int),
                forall|c: int, j: int, o: int| 0 <= c < b && #[trigger] output_slot(*m, j, o, m.units@[i as int].inputs@[c].resource@) ==> row@.contains(j as usize),
            decreases unit.inputs@.len() - b,
        {
            let input = &unit.inputs[b];
            let ghost x = input.resource@;
            assert(input_at(*m, i as int, b as int));
            match find_producer(prods, &input.resource) {
                None => {
                    proof {
                        if produced(*m, x) {
                            assert(listed(prods@, x));
                        }
                    }
                    return Err(CompileError::UnknownResource {
                        unit: unit.id.clone(),
                        port: input.port.clone(),
                        resource: input.resource.clone(),
                    });
                },
                Some(q) => {
                    let entry = &prods[q];
                    proof {
                        assert(entry_matches(*m, prods@[q as int]));
                        lemma_entry_typed(*m, prods@[q as int], m.units@[i as int].inputs@[b as int]);
                    }
                    if entry.semantic_type != input.semantic_type {
                        let expected = input.semantic_type.clone();
                        let actual = entry.semantic_type.clone();
                        assert(published_semantic(*m, x, actual@));
                        assert(expected@ != actual@);
                        return Err(CompileError::SemanticTypeMismatch {
                            unit: unit.id.clone(),
                            port: input.port.clone(),
                            resource: input.resource.clone(),
                            expected,
                            actual,
                        });
                    }
                    if !input.concrete_type.same_as(entry.concrete_type) {
                        return Err(CompileError::ConcreteBindingMismatch {
                            unit: unit.id.clone(),
                            port: input.port.clone(),
                            resource: input.resource.clone(),
                            expected: input.concrete_type,
                            actual: entry.concrete_type,
                        });
                    }
                    let ghost links_before = links@;
                    links.push((q, i, b));
                    proof {
                        assert forall|k: int|
                            0 <= k < links@.len() implies (#[trigger] links@[k]).0 < prods@.len() && input_at(*m, links@[k].1 as int, links@[k].2 as int)
                                && (links@[k].1 < i || (links@[k].1 == i && links@[k].2 < b + 1))
                                && m.units@[links@[k].1 as int].inputs@[links@[k].2 as int].resource@ == prods@[links@[k].0 as int].resource@ by {
                            if k < links_before.len() {
                                assert(links@[k] == links_before[k]);
                            }
                        }
                        assert forall|y: int, c: int, q2: int|
                            (0 <= y < i || (y == i && c < b + 1)) && input_at(*m, y, c) && 0 <= q2 < prods@.len() && #[trigger] m.units@[y].inputs@[c].resource@ == #[trigger] prods@[q2].resource@
                                implies links@.contains((q2 as usize, y as usize, c as usize)) by {
                            if y == i && c == b {
                                if q2 != q {
                                    assert(prods@[q2].resource@ == prods@[q as int].resource@);
                                    if q2 < q {
                                        assert(prods@[q2].resource@ != prods@[q as int].resource@);
                                    } else {
                                        assert(prods@[q as int].resource@ != prods@[q2].resource@);
                                    }
                                }
                                assert(links@[links_before.len() as int] == (q2 as usize, y as usize, c as usize));
                            } else {
                                assert(links_before.contains((q2 as usize, y as usize, c as usize)));
                                let w = choose|w: int| 0 <= w < links_before.len() && links_before[w] == (q2 as usize, y as usize, c as usize);
                                assert(links@[w] == links_before[w]);
                            }
                        }
                        assert forall|k1: int, k2: int|
                            0 <= k1 < k2 < links@.len() implies (#[trigger] links@[k1]).1 < (#[trigger] links@[k2]).1 || (links@[k1].1
                                == links@[k2].1 && links@[k1].2 < links@[k2].2) by {
                            assert(links@[k1] == links_before[k1]);
                            if k2 < links_before.len() {
                                assert(links@[k2] == links_before[k2]);
                            }
                        }
                    }
                    match entry.source {
                        Some(j) => {
                            proof {
                                assert(prods@[q as int].source == Some(j));
                                assert(prods@[q as int].resource@ == x);
                                assert(exists|j1: int, o1: int| #[trigger] output_slot(*m, j1, o1, x) && prods@[q as int].source == Some(j1 as usize));
                                let (j0, o0) = choose|j1: int, o1: int| #[trigger] output_slot(*m, j1, o1, x) && prods@[q as int].source == Some(j1 as usize);
                                assert(m.units@.len() == m.units.len());
                                assert(j0 == j);
                                assert(output_slot(*m, j0, o0, m.units@[i as int].inputs@[b as int].resource@));
                                assert(reads_from(*m, i as int, j as int));
                            }
                            let ghost row_before = row@;
                            row.push(j);
                            proof {
                                assert forall|c: int, j1: int, o: int| 0 <= c < b + 1 && #[trigger] output_slot(*m, j1, o, m.units@[i as int].inputs@[c].resource@) implies row@.contains(j1 as usize) by {
                                    if c < b {
                                        let w = choose|w: int| 0 <= w < row_before.len() && row_before[w] == j1 as usize;
                                        assert(row@[w] == row_before[w]);
                                    } else {
                                        let (j0, o0) = choose|j2: int, o2: int| #[trigger] output_slot(*m, j2, o2, x) && prods@[q as int].source == Some(j2 as usize);
                                        assert(output_slot(*m, j0, o0, x));
                                        assert(j1 == j0);
                                        assert(row@[row_before.len() as int] == j1 as usize);
                                    }
                                }
                                assert forall|k: int| 0 <= k < row@.len() implies #[trigger] row@[k] < m.units@.len() && reads_from(*m, i as int, row@[k] as int) by {
                                    if k < row_before.len() {
                                        assert(row@[k] == row_before[k]);
                                    }
                                }
                            }
                        },
                        None => {
                            proof {
                                assert forall|c: int, j1: int, o: int| 0 <= c < b + 1 && #[trigger] output_slot(*m, j1, o, m.units@[i as int].inputs@[c].resource@) implies row@.contains(j1 as usize) by {
                                    if c == b {
                                        let a0 = choose|a: int| #[trigger] input_slot(*m, a, x) && prods@[q as int].source is None;
                                        assert(output_slot(*m, j1, o, m.inputs@[a0].resource@));
                                    }
                                }
                            }
                        },
                    }
                },
            }
            b = b + 1;
        }
        let ghost deps_before = deps@;
        deps.push(row);
        proof {
            assert forall|x: int, k: int|
                0 <= x < i + 1 && 0 <= k < deps@[x]@.len() implies #[trigger] deps@[x]@[k] < m.units@.len()
                    && reads_from(*m, x, deps@[x]@[k] as int) by {
                if x < i {
                    assert(deps@[x] == deps_before[x]);
                }
            }
            assert forall|x: int, j: int| 0 <= x < i + 1 && #[trigger] reads_from(*m, x, j) implies deps@[x]@.contains(j as usize) by {
                if x < i {
                    assert(deps@[x] == deps_before[x]);
                } else {
                    let (c, o) = choose|c: int, o: int|
                        0 <= c < m.units@[x].inputs@.len() && #[trigger] output_slot(*m, j, o, m.units@[x].inputs@[c].resource@);
                    assert(output_slot(*m, j, o, m.units@[i as int].inputs@[c].resource@));
                }
            }
        }
        i = i + 1;
    }
    proof {
        let rows = deps@.map_values(|row: Vec<usize>| row@);
        assert forall|x: int, k: int|
            0 <= x < rows.len() && 0 <= k < rows[x].len() implies #[trigger] rows[x][k] < rows.len()
                && reads_from(*m, x, rows[x][k] as int) by {
            assert(rows[x] == deps@[x]@);
        }
        assert forall|x: int, j: int| #[trigger] reads_from(*m, x, j) implies rows[x].contains(j as usize) by {
            assert(rows[x] == deps@[x]@);
        }
    }
    Ok((links, deps))
}


/// Orders unit indices by unit id.
fn rank_units(m: &ResolvedModule) -> (p: Vec<usize>)
    requires
        unique_units(*m),
    ensures
        is_perm(p@, m.units@.len()),
        forall|a: int, b: int|
            0 <= a < b < p@.len() ==> seq_lt(
                m.units@[#[trigger] p@[a] as int].id@,
                m.units@[#[trigger] p@[b] as int].id@,
            ),
{
    let mut k1: Vec<Vec<char>> = Vec::new();
    let mut i: usize = 0;
    while i < m.units.len()
        invariant
            i <= m.units@.len(),
            k1@.len() == i,
            forall|t: int| 0 <= t < i ==> (#[trigger] k1@[t])@ == m.units@[t].id@,
        decreases m.units@.len() - i,
    {
        k1.push(chars_of(m.units[i].id.as_str()));
        i = i + 1;
    }
    let k2 = empty_keys(k1.len());
    let p = sort_by_keys(&k1, &k2);
    proof {
        let s1 = k1@.map_values(|v: Vec<char>| v@);
        let s2 = k2@.map_values(|v: Vec<char>| v@);
        assert forall|x: int, y: int| 0 <= x < y < s1.len() implies #[trigger] s1[x] != #[trigger] s1[y] || s2[x] != s2[y] by {
            assert(s1[x] == m.units@[x].id@ && s1[y] == m.units@[y].id@);
        }
        lemma_sorted_strict(p@, s1, s2);
        assert forall|a: int, b: int| 0 <= a < b < p@.len() implies seq_lt(
            m.units@[#[trigger] p@[a] as int].id@,
            m.units@[#[trigger] p@[b] as int].id@,
        ) by {
            let x = p@[a] as int;
            let y = p@[b] as int;
            assert(s1[x] == m.units@[x].id@ && s1[y] == m.units@[y].id@);
            assert(s2[x] == Seq::<char>::empty() && s2[y] == Seq::<char>::empty());
            lemma_pair_lt_primary(s1[x], s1[y]);
        }
    }
    p
}

/// Unit `i` carries identifier `id`.
pub open spec fn has_unit(m: ResolvedModule, i: int, id: Seq<char>) -> bool {
    0 <= i < m.units@.len() && m.units@[i].id@ == id
}

/// Some unit of `m` carries identifier `id`.
pub open spec fn names_unit(m: ResolvedModule, id: Seq<char>) -> bool {
    exists|i: int| #[trigger] has_unit(m, i, id)
}

/// The unit named `a` reads from the unit named `b`.
pub open spec fn reads_named(m: ResolvedModule, a: Seq<char>, b: Seq<char>) -> bool {
    exists|i: int, j: int| #[trigger] has_unit(m, i, a) && #[trigger] has_unit(m, j, b) && reads_from(m, i, j)
}

/// The identifier texts of a list of unit ids.
pub open spec fn id_views(ids: Seq<UnitId>) -> Seq<Seq<char>> {
    ids.map_values(|u: UnitId| u@)
}

/// `ids` names every unit once, each after every unit it reads from.
pub open spec fn valid_schedule(m: ResolvedModule, ids: Seq<Seq<char>>) -> bool {
    &&& ids.len() == m.units@.len()
    &&& forall|a: int, b: int| 0 <= a < b < ids.len() ==> #[trigger] ids[a] != #[trigger] ids[b]
    &&& forall|k: int| 0 <= k < ids.len() ==> names_unit(m, #[trigger] ids[k])
    &&& forall|i: int| 0 <= i < m.units@.len() ==> ids.contains(#[trigger] m.units@[i].id@)
    &&& forall|k: int, i: int, j: int|
        #![trigger has_unit(m, i, ids[k]), reads_from(m, i, j)]
        0 <= k < ids.len() && has_unit(m, i, ids[k]) && reads_from(m, i, j) ==> ids.take(k).contains(
            m.units@[j].id@,
        )
}

/// Every unit that unit `i` reads from is named in `placed`.
pub open spec fn unit_ready(m: ResolvedModule, i: int, placed: Seq<Seq<char>>) -> bool {
    forall|j: int| #[trigger] reads_from(m, i, j) ==> placed.contains(m.units@[j].id@)
}

/// At each step the scheduled unit has the least id among the units whose
/// producers were all scheduled before.
pub open spec fn least_first(m: ResolvedModule, ids: Seq<Seq<char>>) -> bool {
    forall|k: int, i: int|
        #![trigger unit_ready(m, i, ids.take(k)), ids[k]]
        0 <= k < ids.len() && 0 <= i < m.units@.len() && !ids.take(k).contains(m.units@[i].id@)
            && unit_ready(m, i, ids.take(k)) ==> !seq_lt(m.units@[i].id@, ids[k])
}

/// `path` runs from producer to consumer through units of `m` and closes on itself.
pub open spec fn closed_unit_walk(m: ResolvedModule, path: Seq<Seq<char>>) -> bool {
    &&& path.len() >= 2
    &&& path[0] == path[path.len() - 1]
    &&& forall|k: int| 1 <= k < path.len() ==> reads_named(m, #[trigger] path[k], path[k - 1])
}

/// Inverse of a permutation.
fn invert(p: &Vec<usize>) -> (rank: Vec<usize>)
    requires
        is_perm(p@, p@.len()),
    ensures
        rank@.len() == p@.len(),
        forall|i: int| 0 <= i < p@.len() ==> #[trigger] rank@[i] < p@.len() && p@[rank@[i] as int] == i,
        forall|t: int| 0 <= t < p@.len() ==> rank@[#[trigger] p@[t] as int] == t,
{
    let n = p.len();
    let mut rank: Vec<usize> = Vec::new();
    while rank.len() < n
        invariant
            rank@.len() <= n,
            forall|i: int| 0 <= i < rank@.len() ==> #[trigger] rank@[i] == 0,
        decreases n - rank.len(),
    {
        rank.push(0);
    }
    let mut r: usize = 0;
    while r < n
        invariant
            n == p@.len(),
            is_perm(p@, n as nat),
            r <= n,
            rank@.len() == n,
            forall|i: int| 0 <= i < n ==> #[trigger] rank@[i] < n || n == 0,
            forall|t: int| 0 <= t < r ==> rank@[#[trigger] p@[t] as int] == t,
        decreases n - r,
    {
        let ghost before = rank@;
        rank.set(p[r], r);
        proof {
            assert forall|t: int| 0 <= t < r + 1 implies rank@[#[trigger] p@[t] as int] == t by {
                if t < r {
                    assert(p@[t] != p@[r as int]);
                    assert(rank@[p@[t] as int] == before[p@[t] as int]);
                }
            }
        }
        r = r + 1;
    }
    proof {
        assert(distinct(p@) && bounded(p@, n as nat));
        lemma_distinct_bounded(p@, n as nat);
        assert forall|i: int| 0 <= i < n implies #[trigger] rank@[i] < n && p@[rank@[i] as int] == i by {
            assert(p@.contains(i as usize));
            let t = choose|t: int| 0 <= t < p@.len() && p@[t] == i as usize;
            assert(rank@[p@[t] as int] == t);
        }
    }
    rank
}

/// Re-indexes the dependency table by rank.
fn rank_dependencies(deps: &Vec<Vec<usize>>, p: &Vec<usize>, rank: &Vec<usize>) -> (out: Vec<Vec<usize>>)
    requires
        deps@.len() == p@.len(),
        rank@.len() == p@.len(),
        forall|i: int| 0 <= i < p@.len() ==> #[trigger] p@[i] < p@.len(),
        forall|i: int| 0 <= i < p@.len() ==> #[trigger] rank@[i] < p@.len(),
        well_indexed(rows(deps)),
    ensures
        out@.len() == p@.len(),
        forall|r: int| 0 <= r < p@.len() ==> (#[trigger] out@[r])@.len() == deps@[p@[r] as int]@.len(),
        forall|r: int, k: int|
            0 <= r < p@.len() && 0 <= k < out@[r]@.len() ==> #[trigger] out@[r]@[k] == rank@[deps@[p@[r] as int]@[k] as int],
        well_indexed(rows(&out)),
{
    let n = p.len();
    let ghost g = rows(deps);
    let mut out: Vec<Vec<usize>> = Vec::new();
    let mut r: usize = 0;
    while r < n
        invariant
            n == p@.len(),
            deps@.len() == n,
            rank@.len() == n,
            g == rows(deps),
            well_indexed(g),
            forall|i: int| 0 <= i < n ==> #[trigger] p@[i] < n,
            forall|i: int| 0 <= i < n ==> #[trigger] rank@[i] < n,
            r <= n,
            out@.len() == r,
            forall|x: int| 0 <= x < r ==> (#[trigger] out@[x])@.len() == deps@[p@[x] as int]@.len(),
            forall|x: int, k: int|
                0 <= x < r && 0 <= k < out@[x]@.len() ==> #[trigger] out@[x]@[k] == rank@[deps@[p@[x] as int]@[k] as int],
            forall|x: int, k: int| 0 <= x < r && 0 <= k < out@[x]@.len() ==> #[trigger] out@[x]@[k] < n,
        decreases n - r,
    {
        let row = &deps[p[r]];
        assert(row@ == g[p@[r as int] as int]);
        let mut o: Vec<usize> = Vec::new();
        let mut k: usize = 0;
        while k < row.len()
            invariant
                n == p@.len(),
                deps@.len() == n,
                rank@.len() == n,
                g == rows(deps),
                well_indexed(g),
                r < n,
                p@[r as int] < n,
                row@ == g[p@[r as int] as int],
                forall|i: int| 0 <= i < n ==> #[trigger] rank@[i] < n,
                k <= row@.len(),
                o@.len() == k,
                forall|t: int| 0 <= t < k ==> #[trigger] o@[t] == rank@[row@[t] as int],
                forall|t: int| 0 <= t < k ==> #[trigger] o@[t] < n,
            decreases row@.len() - k,
        {
            assert(row@[k as int] < n);
            o.push(rank[row[k]]);
            k = k + 1;
        }
        let ghost before = out@;
        out.push(o);
        proof {
            assert forall|x: int| 0 <= x < r + 1 implies (#[trigger] out@[x])@.len() == deps@[p@[x] as int]@.len() by {
                if x < r {
                    assert(out@[x] == before[x]);
                }
            }
            assert forall|x: int, t: int|
                0 <= x < r + 1 && 0 <= t < out@[x]@.len() implies #[trigger] out@[x]@[t] == rank@[deps@[p@[x] as int]@[t] as int] by {
                if x < r {
                    assert(out@[x] == before[x]);
                }
            }
            assert forall|x: int, t: int| 0 <= x < r + 1 && 0 <= t < out@[x]@.len() implies #[trigger] out@[x]@[t] < n by {
                if x < r {
                    assert(out@[x] == before[x]);
                }
            }
        }
        r = r + 1;
    }
    proof {
        let h = rows(&out);
        assert forall|i: int, k: int| 0 <= i < h.len() && 0 <= k < h[i].len() implies #[trigger] h[i][k] < h.len() by {
            assert(h[i] == out@[i]@);
        }
    }
    out
}


/// The ranks in `p` are ordered as the unit ids are.
spec fn ranked(m: ResolvedModule, p: Seq<usize>) -> bool {
    &&& is_perm(p, m.units@.len())
    &&& forall|a: int, b: int|
        0 <= a < b < p.len() ==> seq_lt(
            m.units@[#[trigger] p[a] as int].id@,
            m.units@[#[trigger] p[b] as int].id@,
        )
}

/// `rank` inverts `p`, and `h` is the dependency table `g` re-indexed by rank.
spec fn rank_indexed(m: ResolvedModule, g: Seq<Seq<usize>>, p: Seq<usize>, rank: Seq<usize>, h: Seq<Seq<usize>>) -> bool {
    &&& rank.len() == p.len()
    &&& forall|i: int| 0 <= i < p.len() ==> #[trigger] rank[i] < p.len() && p[rank[i] as int] == i
    &&& forall|t: int| 0 <= t < p.len() ==> rank[#[trigger] p[t] as int] == t
    &&& h.len() == p.len()
    &&& forall|r: int| 0 <= r < p.len() ==> (#[trigger] h[r]).len() == g[p[r] as int].len()
    &&& forall|r: int, k: int| 0 <= r < p.len() && 0 <= k < h[r].len() ==> #[trigger] h[r][k] == rank[g[p[r] as int][k] as int]
}

proof fn lemma_same_id(m: ResolvedModule, i: int, j: int)
    requires
        unique_units(m),
         0 <= i < m.units@.len(),
        0 <= j < m.units@.len(),
        m.units@[i].id@ == m.units@[j].id@,
    ensures
        i == j,
{
    if i < j {
        assert(m.units@[i].id@ != m.units@[j].id@);
    } else if j < i {
        assert(m.units@[j].id@ != m.units@[i].id@);
    }
}

proof fn lemma_rank_edge(m: ResolvedModule, g: Seq<Seq<usize>>, p: Seq<usize>, rank: Seq<usize>, h: Seq<Seq<usize>>, r1: int, r2: int)
    requires
        dependency_table(m, g),
        ranked(m, p),
        rank_indexed(m, g, p, rank, h),
        0 <= r1 < p.len(),
        0 <= r2 < p.len(),
        depends_on(h, r1, r2),
    ensures
        reads_from(m, p[r1] as int, p[r2] as int),
{
    let i = p[r1] as int;
    let k = choose|k: int| 0 <= k < h[r1].len() && h[r1][k] == r2 as usize;
    let j = g[i][k] as int;
    assert(h[r1][k] == rank[j]);
    assert(j < g.len());
    assert(p[rank[j] as int] == j);
    assert(reads_from(m, i, g[i][k] as int));
}

proof fn lemma_rank_read(m: ResolvedModule, g: Seq<Seq<usize>>, p: Seq<usize>, rank: Seq<usize>, h: Seq<Seq<usize>>, r1: int, j: int)
    requires
        dependency_table(m, g),
        ranked(m, p),
        rank_indexed(m, g, p, rank, h),
        0 <= r1 < p.len(),
        reads_from(m, p[r1] as int, j),
    ensures
        h[r1].contains(rank[j] as usize),
{
    let i = p[r1] as int;
    assert(g[i].contains(j as usize));
    let k = choose|k: int| 0 <= k < g[i].len() && g[i][k] == j as usize;
    assert(h[r1][k] == rank[g[i][k] as int]);
}

proof fn lemma_schedule_names(
    m: ResolvedModule,
    p: Seq<usize>,
    rank: Seq<usize>,
    order: Seq<usize>,
    ids: Seq<Seq<char>>,
)
    requires
        unique_units(m),
        ranked(m, p),
        rank.len() == p.len(),
        forall|i: int| 0 <= i < p.len() ==> #[trigger] rank[i] < p.len() && p[rank[i] as int] == i,
        is_perm(order, p.len()),
        m.units@.len() <= usize::MAX,
        ids.len() == order.len(),
        forall|t: int| 0 <= t < order.len() ==> #[trigger] ids[t] == m.units@[p[order[t] as int] as int].id@,
    ensures
        ids.len() == m.units@.len(),
        forall|a: int, b: int| 0 <= a < b < ids.len() ==> #[trigger] ids[a] != #[trigger] ids[b],
        forall|k: int| 0 <= k < ids.len() ==> names_unit(m, #[trigger] ids[k]),
        forall|i: int| 0 <= i < m.units@.len() ==> ids.contains(#[trigger] m.units@[i].id@),
{
    let n = p.len();
    assert forall|a: int, b: int| 0 <= a < b < ids.len() implies #[trigger] ids[a] != #[trigger] ids[b] by {
        assert(order[a] != order[b]);
        assert(p[order[a] as int] != p[order[b] as int]);
        if ids[a] == ids[b] {
            lemma_same_id(m, p[order[a] as int] as int, p[order[b] as int] as int);
        }
    }
    assert forall|k: int| 0 <= k < ids.len() implies names_unit(m, #[trigger] ids[k]) by {
        let r = order[k] as int;
        assert(0 <= r < n);
        assert(p[r] < n);
        assert(has_unit(m, p[r] as int, ids[k]));
    }
    lemma_distinct_bounded(order, n);
    assert forall|i: int| 0 <= i < m.units@.len() implies ids.contains(#[trigger] m.units@[i].id@) by {
        assert(order.contains(rank[i]));
        let t = choose|t: int| 0 <= t < order.len() && order[t] == rank[i];
        assert(ids[t] == m.units@[i].id@);
    }
}

proof fn lemma_schedule_respects(
    m: ResolvedModule,
    g: Seq<Seq<usize>>,
    p: Seq<usize>,
    rank: Seq<usize>,
    h: Seq<Seq<usize>>,
    order: Seq<usize>,
    ids: Seq<Seq<char>>,
)
    requires
        unique_units(m),
        dependency_table(m, g),
        ranked(m, p),
        rank_indexed(m, g, p, rank, h),
        is_perm(order, p.len()),
        respects(h, order),
        ids.len() == order.len(),
        forall|t: int| 0 <= t < order.len() ==> #[trigger] ids[t] == m.units@[p[order[t] as int] as int].id@,
    ensures
        forall|k: int, i: int, j: int|
            #![trigger has_unit(m, i, ids[k]), reads_from(m, i, j)]
            0 <= k < ids.len() && has_unit(m, i, ids[k]) && reads_from(m, i, j) ==> ids.take(k).contains(
                m.units@[j].id@,
            ),
{
    assert forall|k: int, i: int, j: int|
        0 <= k < ids.len() && has_unit(m, i, ids[k]) && reads_from(m, i, j) implies ids.take(k).contains(m.units@[j].id@) by {
        let r1 = order[k] as int;
        lemma_same_id(m, i, p[r1] as int);
        lemma_rank_read(m, g, p, rank, h, r1, j);
        assert(ready(h, order[k] as int, order.take(k)));
        let c = choose|c: int| 0 <= c < h[r1].len() && h[r1][c] == rank[j] as usize;
        assert(order.take(k).contains(h[r1][c]));
        let w = choose|w: int| 0 <= w < k && order.take(k)[w] == rank[j] as usize;
        assert(ids[w] == m.units@[j].id@);
        assert(ids.take(k)[w] == ids[w]);
    }
}

proof fn lemma_schedule_least(
    m: ResolvedModule,
    g: Seq<Seq<usize>>,
    p: Seq<usize>,
    rank: Seq<usize>,
    h: Seq<Seq<usize>>,
    order: Seq<usize>,
    ids: Seq<Seq<char>>,
)
    requires
        unique_units(m),
        dependency_table(m, g),
        ranked(m, p),
        rank_indexed(m, g, p, rank, h),
        is_perm(order, p.len()),
        greedy(h, order),
        ids.len() == order.len(),
        forall|t: int| 0 <= t < order.len() ==> #[trigger] ids[t] == m.units@[p[order[t] as int] as int].id@,
    ensures
        least_first(m, ids),
{
    assert forall|k: int, i: int|
        #![trigger unit_ready(m, i, ids.take(k)), ids[k]]
        0 <= k < ids.len() && 0 <= i < m.units@.len() && !ids.take(k).contains(m.units@[i].id@)
            && unit_ready(m, i, ids.take(k)) implies !seq_lt(m.units@[i].id@, ids[k]) by {
        let v = rank[i] as int;
        let u = order[k] as int;
        if seq_lt(m.units@[i].id@, ids[k]) {
            assert(p[v] == i);
            if v == u {
                lemma_seq_lt_irreflexive(m.units@[i].id@);
            } else if u < v {
                assert(seq_lt(m.units@[p[u] as int].id@, m.units@[p[v] as int].id@));
                lemma_seq_lt_total(m.units@[p[u] as int].id@, m.units@[p[v] as int].id@);
            }
            assert(v < u);
            assert(!order.take(k).contains(v as usize)) by {
                if order.take(k).contains(v as usize) {
                    let w = choose|w: int| 0 <= w < k && order.take(k)[w] == v as usize;
                    assert(ids[w] == m.units@[i].id@);
                    assert(ids.take(k)[w] == ids[w]);
                }
            }
            assert(ready(h, v, order.take(k))) by {
                assert forall|c: int| 0 <= c < h[v].len() implies order.take(k).contains(#[trigger] h[v][c]) by {
                    let j = g[i][c] as int;
                    assert(h[v][c] == rank[j]);
                    assert(reads_from(m, i, j));
                    assert(ids.take(k).contains(m.units@[j].id@));
                    let w = choose|w: int| 0 <= w < k && ids.take(k)[w] == m.units@[j].id@;
                    assert(ids[w] == m.units@[j].id@);
                    lemma_same_id(m, p[order[w] as int] as int, j);
                    assert(order[w] == rank[j]);
                    assert(order.take(k)[w] == order[w]);
                }
            }
            assert(!ready(h, v, order.take(k)));
        }
    }
}

proof fn lemma_schedule_cycle(
    m: ResolvedModule,
    g: Seq<Seq<usize>>,
    p: Seq<usize>,
    rank: Seq<usize>,
    h: Seq<Seq<usize>>,
    walk: Seq<usize>,
    path: Seq<Seq<char>>,
)
    requires
        dependency_table(m, g),
        ranked(m, p),
        rank_indexed(m, g, p, rank, h),
        closed_walk(h, walk),
        path.len() == walk.len(),
        forall|t: int| 0 <= t < walk.len() ==> #[trigger] path[t] == m.units@[p[walk[t] as int] as int].id@,
    ensures
        closed_unit_walk(m, path),
{
    assert(path[0] == path[path.len() - 1]) by {
        assert(path[0] == m.units@[p[walk[0] as int] as int].id@);
        assert(path[path.len() - 1] == m.units@[p[walk[walk.len() - 1] as int] as int].id@);
    }
    assert forall|k: int| 1 <= k < path.len() implies reads_named(m, #[trigger] path[k], path[k - 1]) by {
        let r1 = walk[k] as int;
        let r2 = walk[k - 1] as int;
        assert(depends_on(h, r1, r2));
        lemma_rank_edge(m, g, p, rank, h, r1, r2);
        assert(has_unit(m, p[r1] as int, path[k]));
        assert(has_unit(m, p[r2] as int, path[k - 1]));
    }
}

/// Orders the units so that each follows the units it reads from, taking the
/// least unit id at each step; when no order exists returns a closed walk.
fn schedule(m: &ResolvedModule, deps: &Vec<Vec<usize>>, p: &Vec<usize>) -> (r: Result<Vec<UnitId>, Vec<UnitId>>)
    requires
        unique_units(*m),
        dependency_table(*m, rows(deps)),
        ranked(*m, p@),
    ensures
        r matches Ok(ids) ==> valid_schedule(*m, id_views(ids@)) && least_first(*m, id_views(ids@)),
        r matches Err(path) ==> closed_unit_walk(*m, id_views(path@)),
{
    let rank = invert(p);
    let dr = rank_dependencies(deps, p, &rank);
    proof {
        assert(rank_indexed(*m, rows(deps), p@, rank@, rows(&dr))) by {
            let h = rows(&dr);
            assert forall|r: int| 0 <= r < p@.len() implies (#[trigger] h[r]).len() == rows(deps)[p@[r] as int].len() by {
                assert(h[r] == dr@[r]@);
            }
            assert forall|r: int, k: int| 0 <= r < p@.len() && 0 <= k < h[r].len() implies #[trigger] h[r][k] == rank@[rows(deps)[p@[r] as int][k] as int] by {
                assert(h[r] == dr@[r]@);
            }
        }
    }
    match stable_topological_order(&dr) {
        Ok(order) => {
            let mut ids: Vec<UnitId> = Vec::new();
            let mut k: usize = 0;
            while k < order.len()
                invariant
                    is_perm(order@, p@.len()),
                    p@.len() == m.units@.len(),
                    forall|t: int| 0 <= t < p@.len() ==> #[trigger] p@[t] < p@.len(),
                    k <= order@.len(),
                    ids@.len() == k,
                    forall|t: int| 0 <= t < k ==> #[trigger] ids@[t]@ == m.units@[p@[order@[t] as int] as int].id@,
                decreases order@.len() - k,
            {
                ids.push(m.units[p[order[k]]].id.clone());
                k = k + 1;
            }
            proof {
                let v = id_views(ids@);
                assert forall|t: int| 0 <= t < order@.len() implies #[trigger] v[t] == m.units@[p@[order@[t] as int] as int].id@ by {
                    assert(v[t] == ids@[t]@);
                }
                assert(m.units@.len() == m.units.len());
                lemma_schedule_names(*m, p@, rank@, order@, v);
                lemma_schedule_respects(*m, rows(deps), p@, rank@, rows(&dr), order@, v);
                lemma_schedule_least(*m, rows(deps), p@, rank@, rows(&dr), order@, v);
            }
            Ok(ids)
        },
        Err(walk) => {
            let mut path: Vec<UnitId> = Vec::new();
            let mut k: usize = 0;
            while k < walk.len()
                invariant
                    closed_walk(rows(&dr), walk@),
                    dr@.len() == p@.len(),
                    p@.len() == m.units@.len(),
                    forall|t: int| 0 <= t < p@.len() ==> #[trigger] p@[t] < p@.len(),
                    k <= walk@.len(),
                    path@.len() == k,
                    forall|t: int| 0 <= t < k ==> #[trigger] path@[t]@ == m.units@[p@[walk@[t] as int] as int].id@,
                decreases walk@.len() - k,
            {
                assert(walk@[k as int] < rows(&dr).len());
                path.push(m.units[p[walk[k]]].id.clone());
                k = k + 1;
            }
            proof {
                let v = id_views(path@);
                assert forall|t: int| 0 <= t < walk@.len() implies #[trigger] v[t] == m.units@[p@[walk@[t] as int] as int].id@ by {
                    assert(v[t] == path@[t]@);
                }
                lemma_schedule_cycle(*m, rows(deps), p@, rank@, rows(&dr), walk@, v);
            }
            Err(path)
        },
    }
}


/// Two bindings agree field by field.
pub open spec fn binding_same(x: ResolvedBinding, y: ResolvedBinding) -> bool {
    &&& x.port@ == y.port@
    &&& x.resource@ == y.resource@
    &&& x.semantic_type@ == y.semantic_type@
    &&& x.concrete_type == y.concrete_type
}

/// `x` agrees with some binding of `src`.
pub open spec fn binding_in(src: Seq<ResolvedBinding>, x: ResolvedBinding) -> bool {
    exists|b: int| 0 <= b < src.len() && #[trigger] binding_same(x, src[b])
}

/// `out` holds the bindings of `src` ordered by port name.
pub open spec fn sorted_bindings(out: Seq<ResolvedBinding>, src: Seq<ResolvedBinding>) -> bool {
    &&& out.len() == src.len()
    &&& forall|k: int| 0 <= k < out.len() ==> binding_in(src, #[trigger] out[k])
    &&& forall|a: int, b: int| 0 <= a < b < out.len() ==> seq_lt(#[trigger] out[a].port@, #[trigger] out[b].port@)
}

/// Copies bindings, ordered by port name.
pub(crate) fn sort_bindings(src: &Vec<ResolvedBinding>) -> (out: Vec<ResolvedBinding>)
    requires
        distinct_ports(src@),
    ensures
        sorted_bindings(out@, src@),
{
    let mut k1: Vec<Vec<char>> = Vec::new();
    let mut i: usize = 0;
    while i < src.len()
        invariant
            i <= src@.len(),
            k1@.len() == i,
            forall|t: int| 0 <= t < i ==> (#[trigger] k1@[t])@ == src@[t].port@,
        decreases src@.len() - i,
    {
        k1.push(chars_of(src[i].port.as_str()));
        i = i + 1;
    }
    let k2 = empty_keys(k1.len());
    let p = sort_by_keys(&k1, &k2);
    let ghost s1 = k1@.map_values(|v: Vec<char>| v@);
    let ghost s2 = k2@.map_values(|v: Vec<char>| v@);
    proof {
        assert forall|x: int, y: int| 0 <= x < y < s1.len() implies #[trigger] s1[x] != #[trigger] s1[y] || s2[x] != s2[y] by {
            assert(s1[x] == src@[x].port@ && s1[y] == src@[y].port@);
        }
        lemma_sorted_strict(p@, s1, s2);
    }
    let mut out: Vec<ResolvedBinding> = Vec::new();
    let mut k: usize = 0;
    while k < p.len()
        invariant
            is_perm(p@, src@.len()),
            s1 == k1@.map_values(|v: Vec<char>| v@),
            s2 == k2@.map_values(|v: Vec<char>| v@),
            s1.len() == src@.len(),
            s2.len() == src@.len(),
            forall|t: int| 0 <= t < src@.len() ==> (#[trigger] s1[t]) == src@[t].port@,
            forall|t: int| 0 <= t < src@.len() ==> (#[trigger] s2[t]) == Seq::<char>::empty(),
            forall|a: int, b: int|
                0 <= a < b < p@.len() ==> pair_lt(
                    s1[#[trigger] p@[a] as int],
                    s2[p@[a] as int],
                    s1[#[trigger] p@[b] as int],
                    s2[p@[b] as int],
                ),
            k <= p@.len(),
            out@.len() == k,
            forall|t: int| 0 <= t < k ==> binding_same(#[trigger] out@[t], src@[p@[t] as int]),
        decreases p@.len() - k,
    {
        out.push(src[p[k]].copy());
        k = k + 1;
    }
    proof {
        assert forall|t: int| 0 <= t < out@.len() implies binding_in(src@, #[trigger] out@[t]) by {
            assert(binding_same(out@[t], src@[p@[t] as int]));
        }
        assert forall|a: int, b: int| 0 <= a < b < out@.len() implies seq_lt(#[trigger] out@[a].port@, #[trigger] out@[b].port@) by {
            let x = p@[a] as int;
            let y = p@[b] as int;
            assert(binding_same(out@[a], src@[x]) && binding_same(out@[b], src@[y]));
            lemma_pair_lt_primary(s1[x], s1[y]);
        }
    }
    out
}

fn index_listed(v: &Vec<usize>, x: usize) -> (r: bool)
    ensures
        r == v@.contains(x),
{
    let mut k: usize = 0;
    while k < v.len()
        invariant
            k <= v@.len(),
            forall|t: int| 0 <= t < k ==> v@[t] != x,
        decreases v@.len() - k,
    {
        if v[k] == x {
            return true;
        }
        k = k + 1;
    }
    false
}

/// `deps` names, in increasing order, exactly the units that unit `i` reads from.
pub open spec fn dependency_list(m: ResolvedModule, i: int, deps: Seq<UnitId>) -> bool {
    &&& forall|a: int, b: int| 0 <= a < b < deps.len() ==> seq_lt(#[trigger] deps[a]@, #[trigger] deps[b]@)
    &&& forall|d: int| 0 <= d < deps.len() ==> reads_named(m, m.units@[i].id@, #[trigger] deps[d]@)
    &&& forall|j: int| #[trigger] reads_from(m, i, j) ==> id_views(deps).contains(m.units@[j].id@)
}

/// The ids of the units that unit `i` reads from, in id order.
fn dependency_ids_of(m: &ResolvedModule, deps: &Vec<Vec<usize>>, p: &Vec<usize>, i: usize) -> (out: Vec<UnitId>)
    requires
        unique_units(*m),
        dependency_table(*m, rows(deps)),
        ranked(*m, p@),
        i < m.units@.len(),
    ensures
        dependency_list(*m, i as int, out@),
{
    let ghost g = rows(deps);
    let n = p.len();
    let row = &deps[i];
    assert(row@ == g[i as int]);
    let mut out: Vec<UnitId> = Vec::new();
    let ghost mut rs: Seq<int> = Seq::empty();
    let mut r: usize = 0;
    while r < n
        invariant
            n == p@.len(),
            n == m.units@.len(),
            ranked(*m, p@),
            dependency_table(*m, g),
            row@ == g[i as int],
            i < n,
            r <= n,
            out@.len() == rs.len(),
            forall|t: int| 0 <= t < rs.len() ==> 0 <= #[trigger] rs[t] < r,
            forall|a: int, b: int| 0 <= a < b < rs.len() ==> #[trigger] rs[a] < #[trigger] rs[b],
            forall|t: int| 0 <= t < rs.len() ==> #[trigger] out@[t]@ == m.units@[p@[rs[t]] as int].id@,
            forall|t: int| 0 <= t < rs.len() ==> row@.contains(#[trigger] p@[rs[t]]),
            forall|x: int| 0 <= x < r && row@.contains(p@[x]) ==> exists|t: int| 0 <= t < rs.len() && #[trigger] rs[t] == x,
        decreases n - r,
    {
        let ghost rs0 = rs;
        if index_listed(row, p[r]) {
            out.push(m.units[p[r]].id.clone());
            proof {
                rs = rs.push(r as int);
            }
        }
        proof {
            assert forall|x: int| 0 <= x < r + 1 && row@.contains(p@[x]) implies exists|t: int| 0 <= t < rs.len() && #[trigger] rs[t] == x by {
                if x < r {
                    let t = choose|t: int| 0 <= t < rs0.len() && #[trigger] rs0[t] == x;
                    assert(rs[t] == rs0[t]);
                } else {
                    assert(rs[rs0.len() as int] == x);
                }
            }
        }
        r = r + 1;
    }
    proof {
        let v = id_views(out@);
        assert forall|a: int, b: int| 0 <= a < b < out@.len() implies seq_lt(#[trigger] out@[a]@, #[trigger] out@[b]@) by {
            assert(rs[a] < rs[b]);
        }
        assert forall|d: int| 0 <= d < out@.len() implies reads_named(*m, m.units@[i as int].id@, #[trigger] out@[d]@) by {
            let j = p@[rs[d]] as int;
            let c = choose|c: int| 0 <= c < row@.len() && row@[c] == j as usize;
            assert(reads_from(*m, i as int, g[i as int][c] as int));
            assert(has_unit(*m, i as int, m.units@[i as int].id@));
            assert(has_unit(*m, j, out@[d]@));
        }
        assert forall|j: int| #[trigger] reads_from(*m, i as int, j) implies v.contains(m.units@[j].id@) by {
            assert(g[i as int].contains(j as usize));
            lemma_distinct_bounded(p@, n as nat);
            assert(p@.contains(j as usize));
            let x = choose|x: int| 0 <= x < n && p@[x] == j as usize;
            let t = choose|t: int| 0 <= t < rs.len() && #[trigger] rs[t] == x;
            assert(v[t] == out@[t]@);
        }
    }
    out
}


/// Input port `b` of unit `i` reads `x`; the unit is named `unit` and the port `port`.
pub open spec fn consumer_of(m: ResolvedModule, x: Seq<char>, unit: Seq<char>, port: Seq<char>) -> bool {
    exists|i: int, b: int|
        #[trigger] input_at(m, i, b) && m.units@[i].inputs@[b].resource@ == x && m.units@[i].id@ == unit
            && m.units@[i].inputs@[b].port@ == port
}

/// `cs` holds a consumer named (`unit`, `port`).
pub open spec fn lists_consumer(cs: Seq<Consumer>, unit: Seq<char>, port: Seq<char>) -> bool {
    exists|k: int| 0 <= k < cs.len() && #[trigger] cs[k].unit@ == unit && cs[k].port@ == port
}

/// `cs` names every input port reading `x`, once, ordered by (unit, port).
pub open spec fn consumers_listed(m: ResolvedModule, x: Seq<char>, cs: Seq<Consumer>) -> bool {
    &&& forall|k: int| 0 <= k < cs.len() ==> consumer_of(m, x, (#[trigger] cs[k]).unit@, cs[k].port@)
    &&& forall|i: int, b: int|
        #[trigger] input_at(m, i, b) && m.units@[i].inputs@[b].resource@ == x ==> lists_consumer(
            cs,
            m.units@[i].id@,
            m.units@[i].inputs@[b].port@,
        )
    &&& forall|a: int, b: int|
        0 <= a < b < cs.len() ==> pair_lt(
            (#[trigger] cs[a]).unit@,
            cs[a].port@,
            (#[trigger] cs[b]).unit@,
            cs[b].port@,
        )
}

spec fn pair_before(a: (usize, usize), b: (usize, usize)) -> bool {
    a.0 < b.0 || (a.0 == b.0 && a.1 < b.1)
}

/// The consumers of the Resource of entry `q`, ordered by (unit, port).
fn consumers_of(m: &ResolvedModule, prods: &Vec<ProducerEntry>, links: &Vec<(usize, usize, usize)>, q: usize) -> (out: Vec<Consumer>)
    requires
        unique_units(*m),
        unique_ports(*m),
        link_table(*m, prods@, links@),
        q < prods@.len(),
    ensures
        consumers_listed(*m, prods@[q as int].resource@, out@),
{
    let ghost x = prods@[q as int].resource@;
    let mut pairs: Vec<(usize, usize)> = Vec::new();
    let mut k1: Vec<Vec<char>> = Vec::new();
    let mut k2: Vec<Vec<char>> = Vec::new();
    let mut k: usize = 0;
    while k < links.len()
        invariant
            link_table(*m, prods@, links@),
            q < prods@.len(),
            x == prods@[q as int].resource@,
            k <= links@.len(),
            pairs@.len() == k1@.len(),
            pairs@.len() == k2@.len(),
            forall|t: int| 0 <= t < pairs@.len() ==> input_at(*m, (#[trigger] pairs@[t]).0 as int, pairs@[t].1 as int)
                && m.units@[pairs@[t].0 as int].inputs@[pairs@[t].1 as int].resource@ == x
                && k1@[t]@ == m.units@[pairs@[t].0 as int].id@
                && k2@[t]@ == m.units@[pairs@[t].0 as int].inputs@[pairs@[t].1 as int].port@,
            forall|t: int| #![trigger pairs@[t]] 0 <= t < pairs@.len() ==> exists|w: int| 0 <= w < k && (#[trigger] links@[w]).1 == pairs@[t].0 && links@[w].2 == pairs@[t].1,
            forall|a: int, b: int| 0 <= a < b < pairs@.len() ==> pair_before(#[trigger] pairs@[a], #[trigger] pairs@[b]),
            forall|w: int| 0 <= w < k && (#[trigger] links@[w]).0 == q ==> pairs@.contains((links@[w].1, links@[w].2)),
        decreases links@.len() - k,
    {
        let (lq, li, lb) = links[k];
        if lq == q {
            assert(links@[k as int] == (lq, li, lb));
            let ghost before = pairs@;
            pairs.push((li, lb));
            k1.push(chars_of(m.units[li].id.as_str()));
            k2.push(chars_of(m.units[li].inputs[lb].port.as_str()));
            proof {
                assert forall|t: int| #![trigger pairs@[t]] 0 <= t < pairs@.len() implies exists|w: int| 0 <= w < k + 1 && (#[trigger] links@[w]).1 == pairs@[t].0 && links@[w].2 == pairs@[t].1 by {
                    if t < before.len() {
                        assert(pairs@[t] == before[t]);
                        let w = choose|w: int| 0 <= w < k && (#[trigger] links@[w]).1 == before[t].0 && links@[w].2 == before[t].1;
                    } else {
                        assert(links@[k as int].1 == pairs@[t].0);
                    }
                }
                assert forall|a: int, b: int| 0 <= a < b < pairs@.len() implies pair_before(#[trigger] pairs@[a], #[trigger] pairs@[b]) by {
                    if b == before.len() {
                        assert(pairs@[a] == before[a]);
                        let w = choose|w: int| 0 <= w < k && (#[trigger] links@[w]).1 == before[a].0 && links@[w].2 == before[a].1;
                        assert(links@[w].1 < links@[k as int].1 || (links@[w].1 == links@[k as int].1 && links@[w].2 < links@[k as int].2));
                    } else {
                        assert(pairs@[a] == before[a] && pairs@[b] == before[b]);
                    }
                }
                assert forall|w: int| 0 <= w < k + 1 && (#[trigger] links@[w]).0 == q implies pairs@.contains((links@[w].1, links@[w].2)) by {
                    if w < k {
                        let t = choose|t: int| 0 <= t < before.len() && before[t] == (links@[w].1, links@[w].2);
                        assert(pairs@[t] == before[t]);
                    } else {
                        assert(pairs@[before.len() as int] == (links@[w].1, links@[w].2));
                    }
                }
            }
        }
        k = k + 1;
    }
    let p = sort_by_keys(&k1, &k2);
    let ghost s1 = k1@.map_values(|v: Vec<char>| v@);
    let ghost s2 = k2@.map_values(|v: Vec<char>| v@);
    proof {
        assert forall|a: int, b: int| 0 <= a < b < s1.len() implies #[trigger] s1[a] != #[trigger] s1[b] || s2[a] != s2[b] by {
            assert(s1[a] == k1@[a]@ && s1[b] == k1@[b]@ && s2[a] == k2@[a]@ && s2[b] == k2@[b]@);
            assert(pair_before(pairs@[a], pairs@[b]));
            let (ia, ba) = pairs@[a];
            let (ib, bb) = pairs@[b];
            if ia == ib {
                assert(distinct_ports(m.units@[ia as int].inputs@));
                assert(m.units@[ia as int].inputs@[ba as int].port@ != m.units@[ia as int].inputs@[bb as int].port@);
            } else {
                assert(m.units@[ia as int].id@ != m.units@[ib as int].id@);
            }
        }
        lemma_sorted_strict(p@, s1, s2);
    }
    let mut out: Vec<Consumer> = Vec::new();
    let mut t: usize = 0;
    while t < p.len()
        invariant
            is_perm(p@, pairs@.len()),
            pairs@.len() == k1@.len(),
            pairs@.len() == k2@.len(),
            s1 == k1@.map_values(|v: Vec<char>| v@),
            s2 == k2@.map_values(|v: Vec<char>| v@),
            forall|w: int| 0 <= w < pairs@.len() ==> input_at(*m, (#[trigger] pairs@[w]).0 as int, pairs@[w].1 as int)
                && m.units@[pairs@[w].0 as int].inputs@[pairs@[w].1 as int].resource@ == x
                && k1@[w]@ == m.units@[pairs@[w].0 as int].id@
                && k2@[w]@ == m.units@[pairs@[w].0 as int].inputs@[pairs@[w].1 as int].port@,
            t <= p@.len(),
            out@.len() == t,
            forall|w: int| 0 <= w < t ==> (#[trigger] out@[w]).unit@ == s1[p@[w] as int] && out@[w].port@ == s2[p@[w] as int],
        decreases p@.len() - t,
    {
        let (i, b) = pairs[p[t]];
        out.push(Consumer { unit: m.units[i].id.clone(), port: m.units[i].inputs[b].port.clone() });
        proof {
            let w = p@[t as int] as int;
            assert(s1[w] == k1@[w]@ && s2[w] == k2@[w]@);
        }
        t = t + 1;
    }
    proof {
        assert forall|w: int| 0 <= w < out@.len() implies consumer_of(*m, x, (#[trigger] out@[w]).unit@, out@[w].port@) by {
            let v = p@[w] as int;
            let (i, b) = pairs@[v];
            assert(s1[v] == k1@[v]@ && s2[v] == k2@[v]@);
            assert(input_at(*m, i as int, b as int));
        }
        lemma_distinct_bounded(p@, pairs@.len() as nat);
        assert forall|i: int, b: int|
            #[trigger] input_at(*m, i, b) && m.units@[i].inputs@[b].resource@ == x implies lists_consumer(
                out@,
                m.units@[i].id@,
                m.units@[i].inputs@[b].port@,
            ) by {
            assert(m.units@.len() == m.units.len());
            assert(m.units@[i].inputs@.len() == m.units@[i].inputs.len());
            assert(links@.contains((q, i as usize, b as usize)));
            let w = choose|w: int| 0 <= w < links@.len() && links@[w] == (q, i as usize, b as usize);
            assert(links@[w].0 == q);
            assert(pairs@.contains((i as usize, b as usize)));
            let v = choose|v: int| 0 <= v < pairs@.len() && pairs@[v] == (i as usize, b as usize);
            assert(p@.contains(v as usize));
            let z = choose|z: int| 0 <= z < p@.len() && p@[z] == v as usize;
            assert(s1[v] == k1@[v]@ && s2[v] == k2@[v]@);
            assert(out@[z].unit@ == s1[v]);
            assert(pairs@[v].0 as int == i);
            assert(out@[z].unit@ == m.units@[i].id@);
            assert(out@[z].port@ == m.units@[i].inputs@[b].port@);
        }
    }
    out
}

/// The Resource `x` is published with these semantic type, representation and producer.
pub open spec fn producer_record(m: ResolvedModule, x: Seq<char>, sem: Seq<char>, conc: ConcreteType, producer: Producer) -> bool {
    ||| exists|a: int|
        #[trigger] input_slot(m, a, x) && sem == m.inputs@[a].semantic_type@ && conc == m.inputs@[a].concrete_type
            && producer is ModuleInput
    ||| exists|i: int, o: int|
        #[trigger] output_slot(m, i, o, x) && sem == m.units@[i].outputs@[o].semantic_type@ && conc
            == m.units@[i].outputs@[o].concrete_type && producer is Unit && producer->unit@
            == m.units@[i].id@ && producer->port@ == m.units@[i].outputs@[o].port@
}

/// The compiled Resource records its producer and lists its consumers.
pub open spec fn compiled_resource_of(m: ResolvedModule, res: CompiledResource) -> bool {
    &&& producer_record(m, res.id@, res.semantic_type@, res.concrete_type, res.producer)
    &&& consumers_listed(m, res.id@, res.consumers@)
}

/// `res` holds a Resource whose id is `x`.
pub open spec fn resource_listed(res: Seq<CompiledResource>, x: Seq<char>) -> bool {
    exists|k: int| 0 <= k < res.len() && #[trigger] res[k].id@ == x
}

/// The compiled Resources, ordered by id.
fn resources_of(m: &ResolvedModule, prods: &Vec<ProducerEntry>, links: &Vec<(usize, usize, usize)>) -> (out: Vec<CompiledResource>)
    requires
        unique_units(*m),
        unique_ports(*m),
        producer_table(*m, prods@),
        link_table(*m, prods@, links@),
    ensures
        forall|a: int, b: int| 0 <= a < b < out@.len() ==> seq_lt(#[trigger] out@[a].id@, #[trigger] out@[b].id@),
        forall|k: int| 0 <= k < out@.len() ==> compiled_resource_of(*m, #[trigger] out@[k]),
        forall|x: Seq<char>| produced(*m, x) ==> resource_listed(out@, x),
{
    let mut k1: Vec<Vec<char>> = Vec::new();
    let mut i: usize = 0;
    while i < prods.len()
        invariant
            i <= prods@.len(),
            k1@.len() == i,
            forall|t: int| 0 <= t < i ==> (#[trigger] k1@[t])@ == prods@[t].resource@,
        decreases prods@.len() - i,
    {
        k1.push(chars_of(prods[i].resource.as_str()));
        i = i + 1;
    }
    let k2 = empty_keys(k1.len());
    let p = sort_by_keys(&k1, &k2);
    let ghost s1 = k1@.map_values(|v: Vec<char>| v@);
    let ghost s2 = k2@.map_values(|v: Vec<char>| v@);
    proof {
        assert forall|a: int, b: int| 0 <= a < b < s1.len() implies #[trigger] s1[a] != #[trigger] s1[b] || s2[a] != s2[b] by {
            assert(s1[a] == prods@[a].resource@ && s1[b] == prods@[b].resource@);
        }
        lemma_sorted_strict(p@, s1, s2);
    }
    let mut out: Vec<CompiledResource> = Vec::new();
    let mut t: usize = 0;
    while t < p.len()
        invariant
            unique_units(*m),
            unique_ports(*m),
            producer_table(*m, prods@),
            link_table(*m, prods@, links@),
            is_perm(p@, prods@.len()),
            s1 == k1@.map_values(|v: Vec<char>| v@),
            s2 == k2@.map_values(|v: Vec<char>| v@),
            s1.len() == prods@.len(),
            s2.len() == prods@.len(),
            forall|w: int| 0 <= w < prods@.len() ==> (#[trigger] s1[w]) == prods@[w].resource@,
            forall|w: int| 0 <= w < prods@.len() ==> (#[trigger] s2[w]) == Seq::<char>::empty(),
            forall|a: int, b: int|
                0 <= a < b < p@.len() ==> pair_lt(
                    s1[#[trigger] p@[a] as int],
                    s2[p@[a] as int],
                    s1[#[trigger] p@[b] as int],
                    s2[p@[b] as int],
                ),
            t <= p@.len(),
            out@.len() == t,
            forall|w: int| 0 <= w < t ==> (#[trigger] out@[w]).id@ == prods@[p@[w] as int].resource@,
            forall|w: int| 0 <= w < t ==> compiled_resource_of(*m, #[trigger] out@[w]),
        decreases p@.len() - t,
    {
        let e = &prods[p[t]];
        let consumers = consumers_of(m, prods, links, p[t]);
        let res = CompiledResource {
            id: e.resource.clone(),
            semantic_type: e.semantic_type.clone(),
            concrete_type: e.concrete_type,
            producer: e.producer.copy(),
            consumers,
        };
        proof {
            assert(entry_matches(*m, prods@[p@[t as int] as int]));
            assert(producer_record(*m, res.id@, res.semantic_type@, res.concrete_type, res.producer));
        }
        out.push(res);
        t = t + 1;
    }
    proof {
        assert forall|a: int, b: int| 0 <= a < b < out@.len() implies seq_lt(#[trigger] out@[a].id@, #[trigger] out@[b].id@) by {
            let x = p@[a] as int;
            let y = p@[b] as int;
            lemma_pair_lt_primary(s1[x], s1[y]);
        }
        lemma_distinct_bounded(p@, prods@.len() as nat);
        assert forall|x: Seq<char>| produced(*m, x) implies resource_listed(out@, x) by {
            assert(listed(prods@, x));
            let q = choose|q: int| 0 <= q < prods@.len() && #[trigger] prods@[q].resource@ == x;
            assert(p@.contains(q as usize));
            let z = choose|z: int| 0 <= z < p@.len() && p@[z] == q as usize;
            assert(out@[z].id@ == x);
        }
    }
    out
}


/// Every Module output names a published Resource.
pub open spec fn outputs_known(m: ResolvedModule) -> bool {
    forall|k: int| 0 <= k < m.outputs@.len() ==> produced(m, #[trigger] m.outputs@[k]@)
}

/// No Module output is listed twice.
pub open spec fn outputs_unique(m: ResolvedModule) -> bool {
    forall|a: int, b: int| 0 <= a < b < m.outputs@.len() ==> #[trigger] m.outputs@[a]@ != #[trigger] m.outputs@[b]@
}

/// No chain of reads among the units closes on itself.
pub open spec fn acyclic(m: ResolvedModule) -> bool {
    forall|path: Seq<Seq<char>>| !#[trigger] closed_unit_walk(m, path)
}

/// Everything compilation checks holds of `m`.
pub open spec fn compilable(m: ResolvedModule) -> bool {
    &&& unique_units(m)
    &&& unique_ports(m)
    &&& unique_producers(m)
    &&& inputs_typed(m)
    &&& outputs_known(m)
    &&& acyclic(m)
    &&& outputs_unique(m)
}

/// `x` is one of the Module outputs.
pub open spec fn output_listed(m: ResolvedModule, x: Seq<char>) -> bool {
    exists|a: int| 0 <= a < m.outputs@.len() && #[trigger] m.outputs@[a]@ == x
}

/// The compiled unit is a unit of `m` with sorted bindings and its dependencies.
pub open spec fn compiled_unit_of(m: ResolvedModule, cu: CompiledUnit) -> bool {
    exists|i: int|
        #[trigger] has_unit(m, i, cu.id@) && cu.unit_type@ == m.units@[i].unit_type@
            && sorted_bindings(cu.inputs@, m.units@[i].inputs@) && sorted_bindings(
            cu.outputs@,
            m.units@[i].outputs@,
        ) && dependency_list(m, i, cu.dependencies@)
}

/// `g` is the normalized compiled form of `m`.
pub open spec fn compiled_from(m: ResolvedModule, g: CompiledGraph) -> bool {
    &&& g.schema@ == m.schema@
    &&& g.module@ == m.name@
    &&& g.units@.len() == m.units@.len()
    &&& forall|a: int, b: int| 0 <= a < b < g.units@.len() ==> seq_lt(#[trigger] g.units@[a].id@, #[trigger] g.units@[b].id@)
    &&& forall|k: int| 0 <= k < g.units@.len() ==> compiled_unit_of(m, #[trigger] g.units@[k])
    &&& forall|a: int, b: int| 0 <= a < b < g.resources@.len() ==> seq_lt(#[trigger] g.resources@[a].id@, #[trigger] g.resources@[b].id@)
    &&& forall|k: int| 0 <= k < g.resources@.len() ==> compiled_resource_of(m, #[trigger] g.resources@[k])
    &&& forall|x: Seq<char>| produced(m, x) ==> resource_listed(g.resources@, x)
    &&& g.module_outputs@.len() == m.outputs@.len()
    &&& forall|a: int, b: int| 0 <= a < b < g.module_outputs@.len() ==> seq_lt(#[trigger] g.module_outputs@[a]@, #[trigger] g.module_outputs@[b]@)
    &&& forall|k: int| 0 <= k < g.module_outputs@.len() ==> output_listed(m, #[trigger] g.module_outputs@[k]@)
    &&& valid_schedule(m, id_views(g.execution_order@))
    &&& least_first(m, id_views(g.execution_order@))
}

fn check_outputs(m: &ResolvedModule, prods: &Vec<ProducerEntry>) -> (r: Result<(), CompileError>)
    requires
        producer_table(*m, prods@),
    ensures
        r is Ok <==> outputs_known(*m),
        r matches Err(CompileError::UnknownModuleOutput { resource }) ==> output_listed(*m, resource@) && !produced(*m, resource@),
        r matches Err(e) ==> e is UnknownModuleOutput,
{
    let mut k: usize = 0;
    while k < m.outputs.len()
        invariant
            producer_table(*m, prods@),
            k <= m.outputs@.len(),
            forall|t: int| 0 <= t < k ==> produced(*m, #[trigger] m.outputs@[t]@),
        decreases m.outputs@.len() - k,
    {
        match find_producer(prods, &m.outputs[k]) {
            Some(q) => {
                proof {
                    assert(entry_matches(*m, prods@[q as int]));
                }
            },
            None => {
                proof {
                    if produced(*m, m.outputs@[k as int]@) {
                        assert(listed(prods@, m.outputs@[k as int]@));
                    }
                    assert(output_listed(*m, m.outputs@[k as int]@));
                }
                return Err(CompileError::UnknownModuleOutput { resource: m.outputs[k].clone() });
            },
        }
        k = k + 1;
    }
    Ok(())
}

fn outputs_distinct(m: &ResolvedModule) -> (r: bool)
    ensures
        r == outputs_unique(*m),
{
    let mut b: usize = 0;
    while b < m.outputs.len()
        invariant
            b <= m.outputs@.len(),
            forall|x: int, y: int| 0 <= x < y < b ==> #[trigger] m.outputs@[x]@ != #[trigger] m.outputs@[y]@,
        decreases m.outputs@.len() - b,
    {
        let mut a: usize = 0;
        while a < b
            invariant
                a <= b < m.outputs@.len(),
                forall|x: int, y: int| 0 <= x < y < b ==> #[trigger] m.outputs@[x]@ != #[trigger] m.outputs@[y]@,
                forall|x: int| 0 <= x < a ==> #[trigger] m.outputs@[x]@ != m.outputs@[b as int]@,
            decreases b - a,
        {
            if m.outputs[a] == m.outputs[b] {
                return false;
            }
            a = a + 1;
        }
        b = b + 1;
    }
    true
}

/// The Module outputs ordered by id.
fn sorted_outputs(m: &ResolvedModule) -> (out: Vec<ResourceId>)
    requires
        outputs_unique(*m),
    ensures
        out@.len() == m.outputs@.len(),
        forall|a: int, b: int| 0 <= a < b < out@.len() ==> seq_lt(#[trigger] out@[a]@, #[trigger] out@[b]@),
        forall|k: int| 0 <= k < out@.len() ==> output_listed(*m, #[trigger] out@[k]@),
{
    let mut k1: Vec<Vec<char>> = Vec::new();
    let mut i: usize = 0;
    while i < m.outputs.len()
        invariant
            i <= m.outputs@.len(),
            k1@.len() == i,
            forall|t: int| 0 <= t < i ==> (#[trigger] k1@[t])@ == m.outputs@[t]@,
        decreases m.outputs@.len() - i,
    {
        k1.push(chars_of(m.outputs[i].as_str()));
        i = i + 1;
    }
    let k2 = empty_keys(k1.len());
    let p = sort_by_keys(&k1, &k2);
    let ghost s1 = k1@.map_values(|v: Vec<char>| v@);
    let ghost s2 = k2@.map_values(|v: Vec<char>| v@);
    proof {
        assert forall|a: int, b: int| 0 <= a < b < s1.len() implies #[trigger] s1[a] != #[trigger] s1[b] || s2[a] != s2[b] by {
            assert(s1[a] == m.outputs@[a]@ && s1[b] == m.outputs@[b]@);
        }
        lemma_sorted_strict(p@, s1, s2);
    }
    let mut out: Vec<ResourceId> = Vec::new();
    let mut t: usize = 0;
    while t < p.len()
        invariant
            is_perm(p@, m.outputs@.len()),
            s1 == k1@.map_values(|v: Vec<char>| v@),
            s2 == k2@.map_values(|v: Vec<char>| v@),
            s1.len() == m.outputs@.len(),
            s2.len() == m.outputs@.len(),
            forall|w: int| 0 <= w < m.outputs@.len() ==> (#[trigger] s1[w]) == m.outputs@[w]@,
            forall|w: int| 0 <= w < m.outputs@.len() ==> (#[trigger] s2[w]) == Seq::<char>::empty(),
            forall|a: int, b: int|
                0 <= a < b < p@.len() ==> pair_lt(
                    s1[#[trigger] p@[a] as int],
                    s2[p@[a] as int],
                    s1[#[trigger] p@[b] as int],
                    s2[p@[b] as int],
                ),
            t <= p@.len(),
            out@.len() == t,
            forall|w: int| 0 <= w < t ==> (#[trigger] out@[w])@ == m.outputs@[p@[w] as int]@,
        decreases p@.len() - t,
    {
        out.push(m.outputs[p[t]].clone());
        t = t + 1;
    }
    proof {
        assert forall|a: int, b: int| 0 <= a < b < out@.len() implies seq_lt(#[trigger] out@[a]@, #[trigger] out@[b]@) by {
            let x = p@[a] as int;
            let y = p@[b] as int;
            lemma_pair_lt_primary(s1[x], s1[y]);
        }
        assert forall|k: int| 0 <= k < out@.len() implies output_listed(*m, #[trigger] out@[k]@) by {
            assert(out@[k]@ == m.outputs@[p@[k] as int]@);
        }
    }
    out
}

spec fn pos_in(ids: Seq<Seq<char>>, x: Seq<char>) -> int {
    choose|w: int| 0 <= w < ids.len() && ids[w] == x
}

proof fn lemma_pos_in(m: ResolvedModule, ids: Seq<Seq<char>>, x: Seq<char>)
    requires
        valid_schedule(m, ids),
        names_unit(m, x),
    ensures
        0 <= pos_in(ids, x) < ids.len(),
        ids[pos_in(ids, x)] == x,
        forall|w: int| 0 <= w < ids.len() && ids[w] == x ==> w == pos_in(ids, x),
{
    let i = choose|i: int| #[trigger] has_unit(m, i, x);
    assert(ids.contains(m.units@[i].id@));
    let w0 = pos_in(ids, x);
    assert forall|w: int| 0 <= w < ids.len() && ids[w] == x implies w == w0 by {
        if w < w0 {
            assert(ids[w] != ids[w0]);
        } else if w0 < w {
            assert(ids[w0] != ids[w]);
        }
    }
}

proof fn lemma_walk_advances(m: ResolvedModule, ids: Seq<Seq<char>>, path: Seq<Seq<char>>, k: int)
    requires
        valid_schedule(m, ids),
        closed_unit_walk(m, path),
        1 <= k < path.len(),
    ensures
        names_unit(m, path[0]),
        pos_in(ids, path[0]) < pos_in(ids, path[k]),
    decreases k,
{
    assert(reads_named(m, path[k], path[k - 1]));
    let (i, j) = choose|i: int, j: int|
        #[trigger] has_unit(m, i, path[k]) && #[trigger] has_unit(m, j, path[k - 1]) && reads_from(m, i, j);
    assert(names_unit(m, path[k]));
    assert(names_unit(m, path[k - 1]));
    lemma_pos_in(m, ids, path[k]);
    lemma_pos_in(m, ids, path[k - 1]);
    let a = pos_in(ids, path[k]);
    assert(has_unit(m, i, ids[a]));
    assert(ids.take(a).contains(m.units@[j].id@));
    let w = choose|w: int| 0 <= w < a && ids.take(a)[w] == m.units@[j].id@;
    assert(ids[w] == path[k - 1]);
    if k > 1 {
        lemma_walk_advances(m, ids, path, k - 1);
    }
}

/// Law: a Module that has a valid schedule has no closed chain of reads, so a
/// compiled graph is acyclic.
pub proof fn lemma_schedule_excludes_cycle(m: ResolvedModule, ids: Seq<Seq<char>>, path: Seq<Seq<char>>)
    requires
        valid_schedule(m, ids),
    ensures
        !closed_unit_walk(m, path),
{
    if closed_unit_walk(m, path) {
        lemma_walk_advances(m, ids, path, path.len() - 1);
    }
}

impl ResolvedModule {
    /// Compiles the Module into its normalized graph: unique producers,
    /// typed consumers, unit dependencies, a stable schedule and sorted
    /// units, Resources and outputs.
    pub fn compile(self) -> (r: Result<CompiledGraph, CompileError>)
        ensures
            r is Ok <==> compilable(self),
            r matches Ok(g) ==> compiled_from(self, g),
            r matches Err(CompileError::DuplicateUnit { unit }) ==> exists|i: int, j: int|
                0 <= i < j < self.units@.len() && #[trigger] self.units@[i].id@ == unit@
                    && #[trigger] self.units@[j].id@ == unit@,
            r matches Err(CompileError::DuplicateResolvedPort { unit }) ==> exists|i: int|
                0 <= i < self.units@.len() && #[trigger] self.units@[i].id@ == unit@ && !(distinct_ports(
                    self.units@[i].inputs@,
                ) && distinct_ports(self.units@[i].outputs@)),
            r matches Err(CompileError::DuplicateProducer { resource, .. }) ==> !unique_producers(self),
            r matches Err(CompileError::UnknownResource { unit, port, resource }) ==> exists|i: int, b: int|
                #[trigger] input_at(self, i, b) && self.units@[i].id@ == unit@ && self.units@[i].inputs@[b].port@ == port@
                    && self.units@[i].inputs@[b].resource@ == resource@ && !produced(self, resource@),
            r matches Err(CompileError::SemanticTypeMismatch { unit, port, resource, expected, actual }) ==> exists|i: int, b: int|
                #[trigger] input_at(self, i, b) && self.units@[i].id@ == unit@ && self.units@[i].inputs@[b].port@ == port@
                    && self.units@[i].inputs@[b].resource@ == resource@ && self.units@[i].inputs@[b].semantic_type@ == expected@
                    && expected@ != actual@ && published_semantic(self, resource@, actual@),
            r matches Err(CompileError::ConcreteBindingMismatch { unit, port, resource, expected, actual }) ==> exists|i: int, b: int|
                #[trigger] input_at(self, i, b) && self.units@[i].id@ == unit@ && self.units@[i].inputs@[b].port@ == port@
                    && self.units@[i].inputs@[b].resource@ == resource@ && self.units@[i].inputs@[b].concrete_type == expected
                    && expected != actual && published_as(self, resource@, self.units@[i].inputs@[b].semantic_type@, actual),
            r matches Err(CompileError::UnknownModuleOutput { resource }) ==> output_listed(self, resource@)
                && !produced(self, resource@),
            r matches Err(CompileError::Cycle { path }) ==> closed_unit_walk(self, id_views(path@)),
            r matches Err(e) ==> e is DuplicateUnit || e is DuplicateResolvedPort || e is DuplicateProducer
                || e is UnknownResource || e is SemanticTypeMismatch || e is ConcreteBindingMismatch
                || e is UnknownModuleOutput || e is Cycle || e is DuplicateModuleOutput,
    {
        let m = &self;
        let prods = match collect_producers(m) {
            Ok(t) => t,
            Err(e) => {
                return Err(e);
            },
        };
        let (links, deps) = match link_inputs(m, &prods) {
            Ok(v) => v,
            Err(e) => {
                return Err(e);
            },
        };
        match check_outputs(m, &prods) {
            Ok(()) => {},
            Err(e) => {
                return Err(e);
            },
        }
        let p = rank_units(m);
        let execution_order = match schedule(m, &deps, &p) {
            Ok(ids) => ids,
            Err(path) => {
                return Err(CompileError::Cycle { path });
            },
        };
        if !outputs_distinct(m) {
            return Err(CompileError::DuplicateModuleOutput);
        }
        let mut units: Vec<CompiledUnit> = Vec::new();
        let mut r: usize = 0;
        while r < p.len()
            invariant
                unique_units(*m),
                unique_ports(*m),
                dependency_table(*m, rows(&deps)),
                ranked(*m, p@),
                r <= p@.len(),
                units@.len() == r,
                forall|w: int| 0 <= w < r ==> (#[trigger] units@[w]).id@ == m.units@[p@[w] as int].id@,
                forall|w: int| 0 <= w < r ==> compiled_unit_of(*m, #[trigger] units@[w]),
            decreases p@.len() - r,
        {
            let i = p[r];
            let unit = &m.units[i];
            let cu = CompiledUnit {
                id: unit.id.clone(),
                unit_type: unit.unit_type.clone(),
                inputs: sort_bindings(&unit.inputs),
                outputs: sort_bindings(&unit.outputs),
                dependencies: dependency_ids_of(m, &deps, &p, i),
            };
            proof {
                assert(has_unit(*m, i as int, cu.id@));
            }
            units.push(cu);
            r = r + 1;
        }
        let resources = resources_of(m, &prods, &links);
        let module_outputs = sorted_outputs(m);
        proof {
            assert forall|a: int, b: int| 0 <= a < b < units@.len() implies seq_lt(#[trigger] units@[a].id@, #[trigger] units@[b].id@) by {
                assert(units@[a].id@ == m.units@[p@[a] as int].id@);
            }
            assert forall|path: Seq<Seq<char>>| !#[trigger] closed_unit_walk(*m, path) by {
                lemma_schedule_excludes_cycle(*m, id_views(execution_order@), path);
            }
        }
        Ok(CompiledGraph {
            schema: self.schema.clone(),
            module: self.name.clone(),
            units,
            resources,
            module_outputs,
            execution_order,
        })
    }
}

} // verus!
