//! The compiled graph is a normal form: whatever order the Units of a
//! resolved Module come in, compilation yields the same graph.

use vstd::prelude::*;

use vstd::set_lib::lemma_subset_equality;
use vstd::seq_lib::seq_to_set_is_finite;

use crate::compile::{
    acyclic, binding_typed, closed_unit_walk, inputs_typed, names_unit, outputs_known, outputs_unique,
    binding_same, compilable, compiled_from, compiled_resource_of, compiled_unit_of, consumer_of, dependency_list,
    distinct_ports, has_unit, id_views, input_at, input_slot, least_first, lists_consumer, output_listed, output_slot,
    produced, producer_record, reads_from, reads_named, resource_listed, sorted_bindings, unit_ready, unique_ports,
    unique_producers, unique_units, valid_schedule,
};
use crate::sort::{lemma_pair_lt_total, lemma_pair_lt_transitive, pair_lt};
use crate::text::{lemma_seq_lt_irreflexive, lemma_seq_lt_total, lemma_seq_lt_transitive, seq_lt};
use crate::types::{CompiledGraph, CompiledResource, CompiledUnit, ConcreteType, Consumer, Producer, ResolvedBinding, ResolvedModule};

verus! {

/// A binding by value: port, Resource, semantic type, representation.
pub open spec fn binding_view(b: ResolvedBinding) -> (Seq<char>, Seq<char>, Seq<char>, ConcreteType) {
    (b.port@, b.resource@, b.semantic_type@, b.concrete_type)
}

/// A compiled Unit by value.
pub open spec fn unit_view(u: CompiledUnit) -> (
    Seq<char>,
    Seq<char>,
    Seq<(Seq<char>, Seq<char>, Seq<char>, ConcreteType)>,
    Seq<(Seq<char>, Seq<char>, Seq<char>, ConcreteType)>,
    Seq<Seq<char>>,
) {
    (
        u.id@,
        u.unit_type@,
        u.inputs@.map_values(|b: ResolvedBinding| binding_view(b)),
        u.outputs@.map_values(|b: ResolvedBinding| binding_view(b)),
        id_views(u.dependencies@),
    )
}

/// Who publishes a Resource, by value: a Unit's id and port, or no Unit.
pub open spec fn producer_view(p: Producer) -> Option<(Seq<char>, Seq<char>)> {
    match p {
        Producer::ModuleInput => None,
        Producer::Unit { unit, port } => Some((unit@, port@)),
    }
}

/// A consumer by value: Unit id and port.
pub open spec fn consumer_view(c: Consumer) -> (Seq<char>, Seq<char>) {
    (c.unit@, c.port@)
}

/// A compiled Resource by value.
pub open spec fn resource_view(r: CompiledResource) -> (
    Seq<char>,
    Seq<char>,
    ConcreteType,
    Option<(Seq<char>, Seq<char>)>,
    Seq<(Seq<char>, Seq<char>)>,
) {
    (r.id@, r.semantic_type@, r.concrete_type, producer_view(r.producer), r.consumers@.map_values(|c: Consumer| consumer_view(c)))
}

/// A compiled graph by value: schema, Module name, Units, Resources,
/// Module outputs and schedule.
pub open spec fn graph_view(g: CompiledGraph) -> (
    Seq<char>,
    Seq<char>,
    Seq<(Seq<char>, Seq<char>, Seq<(Seq<char>, Seq<char>, Seq<char>, ConcreteType)>, Seq<(Seq<char>, Seq<char>, Seq<char>, ConcreteType)>, Seq<Seq<char>>)>,
    Seq<(Seq<char>, Seq<char>, ConcreteType, Option<(Seq<char>, Seq<char>)>, Seq<(Seq<char>, Seq<char>)>)>,
    Seq<Seq<char>>,
    Seq<Seq<char>>,
) {
    (
        g.schema@,
        g.module@,
        g.units@.map_values(|u: CompiledUnit| unit_view(u)),
        g.resources@.map_values(|r: CompiledResource| resource_view(r)),
        g.module_outputs@.map_values(|x: crate::ids::ResourceId| x@),
        id_views(g.execution_order@),
    )
}

/// Two port-sorted copies of one binding list with distinct ports agree.
proof fn lemma_sorted_bindings_equal(src: Seq<ResolvedBinding>, out1: Seq<ResolvedBinding>, out2: Seq<ResolvedBinding>)
    requires
        distinct_ports(src),
        sorted_bindings(out1, src),
        sorted_bindings(out2, src),
    ensures
        out1.map_values(|b: ResolvedBinding| binding_view(b)) == out2.map_values(|b: ResolvedBinding| binding_view(b)),
{
    lemma_text_order();
    let all = src.map_values(|b: ResolvedBinding| binding_view(b));
    let v1 = out1.map_values(|b: ResolvedBinding| binding_view(b));
    let v2 = out2.map_values(|b: ResolvedBinding| binding_view(b));
    let lt = |a: (Seq<char>, Seq<char>, Seq<char>, ConcreteType), b: (Seq<char>, Seq<char>, Seq<char>, ConcreteType)| seq_lt(a.0, b.0);
    assert(all.no_duplicates()) by {
        assert forall|i: int, j: int| 0 <= i < all.len() && 0 <= j < all.len() && i != j implies all[i] != all[j] by {
            if i < j {
                assert(src[i].port@ != src[j].port@);
            } else {
                assert(src[j].port@ != src[i].port@);
            }
        }
    }
    assert forall|i: int, j: int| 0 <= i < j < v1.len() implies lt(#[trigger] v1[i], #[trigger] v1[j]) by {
        assert(seq_lt(out1[i].port@, out1[j].port@));
    }
    assert forall|i: int, j: int| 0 <= i < j < v2.len() implies lt(#[trigger] v2[i], #[trigger] v2[j]) by {
        assert(seq_lt(out2[i].port@, out2[j].port@));
    }
    assert(v1.no_duplicates()) by {
        assert forall|i: int, j: int| 0 <= i < v1.len() && 0 <= j < v1.len() && i != j implies v1[i] != v1[j] by {
            if i < j {
                assert(lt(v1[i], v1[j]));
            } else {
                assert(lt(v1[j], v1[i]));
            }
        }
    }
    assert(v2.no_duplicates()) by {
        assert forall|i: int, j: int| 0 <= i < v2.len() && 0 <= j < v2.len() && i != j implies v2[i] != v2[j] by {
            if i < j {
                assert(lt(v2[i], v2[j]));
            } else {
                assert(lt(v2[j], v2[i]));
            }
        }
    }
    assert forall|x| #[trigger] v1.contains(x) implies all.contains(x) by {
        let k = choose|k: int| 0 <= k < v1.len() && v1[k] == x;
        assert(crate::compile::binding_in(src, out1[k]));
        let b = choose|b: int| 0 <= b < src.len() && #[trigger] binding_same(out1[k], src[b]);
        assert(all[b] == x);
    }
    assert forall|x| #[trigger] v2.contains(x) implies all.contains(x) by {
        let k = choose|k: int| 0 <= k < v2.len() && v2[k] == x;
        assert(crate::compile::binding_in(src, out2[k]));
        let b = choose|b: int| 0 <= b < src.len() && #[trigger] binding_same(out2[k], src[b]);
        assert(all[b] == x);
    }
    lemma_covers(v1, all);
    lemma_covers(v2, all);
    lemma_sorted_equal(v1, v2, lt);
}

/// The dependency list of a Unit is determined by what it reads.
proof fn lemma_dependency_lists_equal(m: ResolvedModule, i: int, d1: Seq<crate::ids::UnitId>, d2: Seq<crate::ids::UnitId>)
    requires
        unique_units(m),
        0 <= i < m.units@.len(),
        dependency_list(m, i, d1),
        dependency_list(m, i, d2),
    ensures
        id_views(d1) == id_views(d2),
{
    lemma_text_order();
    let v1 = id_views(d1);
    let v2 = id_views(d2);
    let lt = |a: Seq<char>, b: Seq<char>| seq_lt(a, b);
    assert forall|a: int, b: int| 0 <= a < b < v1.len() implies lt(#[trigger] v1[a], #[trigger] v1[b]) by {
        assert(seq_lt(d1[a]@, d1[b]@));
    }
    assert forall|a: int, b: int| 0 <= a < b < v2.len() implies lt(#[trigger] v2[a], #[trigger] v2[b]) by {
        assert(seq_lt(d2[a]@, d2[b]@));
    }
    assert forall|x: Seq<char>| #[trigger] v1.contains(x) implies v2.contains(x) by {
        let k = choose|k: int| 0 <= k < v1.len() && v1[k] == x;
        assert(reads_named(m, m.units@[i].id@, d1[k]@));
        let (a, j) = choose|a: int, j: int| #[trigger] has_unit(m, a, m.units@[i].id@) && #[trigger] has_unit(m, j, d1[k]@) && reads_from(m, a, j);
        if a != i {
            if a < i {
                assert(m.units@[a].id@ != m.units@[i].id@);
            } else {
                assert(m.units@[i].id@ != m.units@[a].id@);
            }
        }
        assert(reads_from(m, i, j));
    }
    assert forall|x: Seq<char>| #[trigger] v2.contains(x) implies v1.contains(x) by {
        let k = choose|k: int| 0 <= k < v2.len() && v2[k] == x;
        assert(reads_named(m, m.units@[i].id@, d2[k]@));
        let (a, j) = choose|a: int, j: int| #[trigger] has_unit(m, a, m.units@[i].id@) && #[trigger] has_unit(m, j, d2[k]@) && reads_from(m, a, j);
        if a != i {
            if a < i {
                assert(m.units@[a].id@ != m.units@[i].id@);
            } else {
                assert(m.units@[i].id@ != m.units@[a].id@);
            }
        }
        assert(reads_from(m, i, j));
    }
    lemma_sorted_equal(v1, v2, lt);
}

/// Two compiled Units of one Module with the same id agree.
proof fn lemma_compiled_units_equal(m: ResolvedModule, cu1: CompiledUnit, cu2: CompiledUnit)
    requires
        unique_units(m),
        unique_ports(m),
        compiled_unit_of(m, cu1),
        compiled_unit_of(m, cu2),
        cu1.id@ == cu2.id@,
    ensures
        unit_view(cu1) == unit_view(cu2),
{
    let i1 = choose|i: int|
        #[trigger] has_unit(m, i, cu1.id@) && cu1.unit_type@ == m.units@[i].unit_type@ && sorted_bindings(cu1.inputs@, m.units@[i].inputs@)
            && sorted_bindings(cu1.outputs@, m.units@[i].outputs@) && dependency_list(m, i, cu1.dependencies@);
    let i2 = choose|i: int|
        #[trigger] has_unit(m, i, cu2.id@) && cu2.unit_type@ == m.units@[i].unit_type@ && sorted_bindings(cu2.inputs@, m.units@[i].inputs@)
            && sorted_bindings(cu2.outputs@, m.units@[i].outputs@) && dependency_list(m, i, cu2.dependencies@);
    if i1 != i2 {
        if i1 < i2 {
            assert(m.units@[i1].id@ != m.units@[i2].id@);
        } else {
            assert(m.units@[i2].id@ != m.units@[i1].id@);
        }
    }
    assert(distinct_ports(m.units@[i1].inputs@) && distinct_ports(m.units@[i1].outputs@));
    lemma_sorted_bindings_equal(m.units@[i1].inputs@, cu1.inputs@, cu2.inputs@);
    lemma_sorted_bindings_equal(m.units@[i1].outputs@, cu1.outputs@, cu2.outputs@);
    lemma_dependency_lists_equal(m, i1, cu1.dependencies@, cu2.dependencies@);
}

/// The Unit lists of two compiled forms of one Module agree.
proof fn lemma_unit_lists_equal(m: ResolvedModule, g1: CompiledGraph, g2: CompiledGraph)
    requires
        compilable(m),
        compiled_from(m, g1),
        compiled_from(m, g2),
    ensures
        g1.units@.map_values(|u: CompiledUnit| unit_view(u)) == g2.units@.map_values(|u: CompiledUnit| unit_view(u)),
{
    lemma_text_order();
    let all = m.units@.map_values(|u: crate::types::ResolvedUnit| u.id@);
    let ids1 = g1.units@.map_values(|u: CompiledUnit| u.id@);
    let ids2 = g2.units@.map_values(|u: CompiledUnit| u.id@);
    let v1 = g1.units@.map_values(|u: CompiledUnit| unit_view(u));
    let v2 = g2.units@.map_values(|u: CompiledUnit| unit_view(u));
    assert(all.no_duplicates()) by {
        assert forall|i: int, j: int| 0 <= i < all.len() && 0 <= j < all.len() && i != j implies all[i] != all[j] by {
            if i < j {
                assert(m.units@[i].id@ != m.units@[j].id@);
            } else {
                assert(m.units@[j].id@ != m.units@[i].id@);
            }
        }
    }
    assert(ids1.no_duplicates()) by {
        assert forall|i: int, j: int| 0 <= i < ids1.len() && 0 <= j < ids1.len() && i != j implies ids1[i] != ids1[j] by {
            if i < j {
                assert(seq_lt(g1.units@[i].id@, g1.units@[j].id@));
            } else {
                assert(seq_lt(g1.units@[j].id@, g1.units@[i].id@));
            }
        }
    }
    assert(ids2.no_duplicates()) by {
        assert forall|i: int, j: int| 0 <= i < ids2.len() && 0 <= j < ids2.len() && i != j implies ids2[i] != ids2[j] by {
            if i < j {
                assert(seq_lt(g2.units@[i].id@, g2.units@[j].id@));
            } else {
                assert(seq_lt(g2.units@[j].id@, g2.units@[i].id@));
            }
        }
    }
    assert forall|x: Seq<char>| #[trigger] ids1.contains(x) implies all.contains(x) by {
        let k = choose|k: int| 0 <= k < ids1.len() && ids1[k] == x;
        assert(compiled_unit_of(m, g1.units@[k]));
        let i = choose|i: int| #[trigger] has_unit(m, i, g1.units@[k].id@) && g1.units@[k].unit_type@ == m.units@[i].unit_type@
            && sorted_bindings(g1.units@[k].inputs@, m.units@[i].inputs@) && sorted_bindings(g1.units@[k].outputs@, m.units@[i].outputs@)
            && dependency_list(m, i, g1.units@[k].dependencies@);
        assert(all[i] == x);
    }
    assert forall|x: Seq<char>| #[trigger] ids2.contains(x) implies all.contains(x) by {
        let k = choose|k: int| 0 <= k < ids2.len() && ids2[k] == x;
        assert(compiled_unit_of(m, g2.units@[k]));
        let i = choose|i: int| #[trigger] has_unit(m, i, g2.units@[k].id@) && g2.units@[k].unit_type@ == m.units@[i].unit_type@
            && sorted_bindings(g2.units@[k].inputs@, m.units@[i].inputs@) && sorted_bindings(g2.units@[k].outputs@, m.units@[i].outputs@)
            && dependency_list(m, i, g2.units@[k].dependencies@);
        assert(all[i] == x);
    }
    lemma_covers(ids1, all);
    lemma_covers(ids2, all);
    let lt = |a: (Seq<char>, Seq<char>, Seq<(Seq<char>, Seq<char>, Seq<char>, ConcreteType)>, Seq<(Seq<char>, Seq<char>, Seq<char>, ConcreteType)>, Seq<Seq<char>>), b: (Seq<char>, Seq<char>, Seq<(Seq<char>, Seq<char>, Seq<char>, ConcreteType)>, Seq<(Seq<char>, Seq<char>, Seq<char>, ConcreteType)>, Seq<Seq<char>>)| seq_lt(a.0, b.0);
    assert forall|i: int, j: int| 0 <= i < j < v1.len() implies lt(#[trigger] v1[i], #[trigger] v1[j]) by {
        assert(seq_lt(g1.units@[i].id@, g1.units@[j].id@));
    }
    assert forall|i: int, j: int| 0 <= i < j < v2.len() implies lt(#[trigger] v2[i], #[trigger] v2[j]) by {
        assert(seq_lt(g2.units@[i].id@, g2.units@[j].id@));
    }
    assert forall|x| #[trigger] v1.contains(x) implies v2.contains(x) by {
        let k = choose|k: int| 0 <= k < v1.len() && v1[k] == x;
        assert(ids1.contains(ids1[k]));
        assert(all.contains(ids1[k]));
        assert(ids2.contains(ids1[k]));
        let w = choose|w: int| 0 <= w < ids2.len() && ids2[w] == ids1[k];
        lemma_compiled_units_equal(m, g1.units@[k], g2.units@[w]);
        assert(v2[w] == x);
    }
    assert forall|x| #[trigger] v2.contains(x) implies v1.contains(x) by {
        let k = choose|k: int| 0 <= k < v2.len() && v2[k] == x;
        assert(ids2.contains(ids2[k]));
        assert(all.contains(ids2[k]));
        assert(ids1.contains(ids2[k]));
        let w = choose|w: int| 0 <= w < ids1.len() && ids1[w] == ids2[k];
        lemma_compiled_units_equal(m, g2.units@[k], g1.units@[w]);
        assert(v1[w] == x);
    }
    lemma_sorted_equal(v1, v2, lt);
}

/// Two records of the same published Resource agree.
proof fn lemma_producer_records_equal(
    m: ResolvedModule,
    x: Seq<char>,
    sem1: Seq<char>,
    conc1: ConcreteType,
    p1: Producer,
    sem2: Seq<char>,
    conc2: ConcreteType,
    p2: Producer,
)
    requires
        unique_producers(m),
        producer_record(m, x, sem1, conc1, p1),
        producer_record(m, x, sem2, conc2, p2),
    ensures
        sem1 == sem2,
        conc1 == conc2,
        producer_view(p1) == producer_view(p2),
{
    if exists|a: int| #[trigger] input_slot(m, a, x) && sem1 == m.inputs@[a].semantic_type@ && conc1 == m.inputs@[a].concrete_type && p1 is ModuleInput {
        let a = choose|a: int| #[trigger] input_slot(m, a, x) && sem1 == m.inputs@[a].semantic_type@ && conc1 == m.inputs@[a].concrete_type && p1 is ModuleInput;
        if exists|b: int| #[trigger] input_slot(m, b, x) && sem2 == m.inputs@[b].semantic_type@ && conc2 == m.inputs@[b].concrete_type && p2 is ModuleInput {
            let b = choose|b: int| #[trigger] input_slot(m, b, x) && sem2 == m.inputs@[b].semantic_type@ && conc2 == m.inputs@[b].concrete_type && p2 is ModuleInput;
            if a != b {
                if a < b {
                    assert(m.inputs@[a].resource@ != m.inputs@[b].resource@);
                } else {
                    assert(m.inputs@[b].resource@ != m.inputs@[a].resource@);
                }
            }
        } else {
            let (i, o) = choose|i: int, o: int| #[trigger] output_slot(m, i, o, x) && sem2 == m.units@[i].outputs@[o].semantic_type@ && conc2
                == m.units@[i].outputs@[o].concrete_type && p2 is Unit && p2->unit@ == m.units@[i].id@ && p2->port@ == m.units@[i].outputs@[o].port@;
            assert(output_slot(m, i, o, m.inputs@[a].resource@));
        }
    } else {
        let (i, o) = choose|i: int, o: int| #[trigger] output_slot(m, i, o, x) && sem1 == m.units@[i].outputs@[o].semantic_type@ && conc1
            == m.units@[i].outputs@[o].concrete_type && p1 is Unit && p1->unit@ == m.units@[i].id@ && p1->port@ == m.units@[i].outputs@[o].port@;
        if exists|b: int| #[trigger] input_slot(m, b, x) && sem2 == m.inputs@[b].semantic_type@ && conc2 == m.inputs@[b].concrete_type && p2 is ModuleInput {
            let b = choose|b: int| #[trigger] input_slot(m, b, x) && sem2 == m.inputs@[b].semantic_type@ && conc2 == m.inputs@[b].concrete_type && p2 is ModuleInput;
            assert(output_slot(m, i, o, m.inputs@[b].resource@));
        } else {
            let (j, q) = choose|j: int, q: int| #[trigger] output_slot(m, j, q, x) && sem2 == m.units@[j].outputs@[q].semantic_type@ && conc2
                == m.units@[j].outputs@[q].concrete_type && p2 is Unit && p2->unit@ == m.units@[j].id@ && p2->port@ == m.units@[j].outputs@[q].port@;
            assert(output_slot(m, i, o, x) && output_slot(m, j, q, x));
            assert(i == j && o == q);
        }
    }
}

/// `pair_lt` is a strict order on every pair and triple of text pairs.
pub proof fn lemma_pair_order()
    ensures
        forall|a: (Seq<char>, Seq<char>)| !#[trigger] pair_lt(a.0, a.1, a.0, a.1),
        forall|a: (Seq<char>, Seq<char>), b: (Seq<char>, Seq<char>), c: (Seq<char>, Seq<char>)|
            #[trigger] pair_lt(a.0, a.1, b.0, b.1) && #[trigger] pair_lt(b.0, b.1, c.0, c.1) ==> pair_lt(a.0, a.1, c.0, c.1),
{
    assert forall|a: (Seq<char>, Seq<char>)| !#[trigger] pair_lt(a.0, a.1, a.0, a.1) by {
        lemma_pair_lt_total(a.0, a.1, a.0, a.1);
    }
    assert forall|a: (Seq<char>, Seq<char>), b: (Seq<char>, Seq<char>), c: (Seq<char>, Seq<char>)|
        #[trigger] pair_lt(a.0, a.1, b.0, b.1) && #[trigger] pair_lt(b.0, b.1, c.0, c.1) implies pair_lt(a.0, a.1, c.0, c.1) by {
        lemma_pair_lt_transitive(a.0, a.1, b.0, b.1, c.0, c.1);
    }
}

/// Two compiled Resources of one Module with the same id agree.
proof fn lemma_compiled_resources_equal(m: ResolvedModule, r1: CompiledResource, r2: CompiledResource)
    requires
        unique_producers(m),
        compiled_resource_of(m, r1),
        compiled_resource_of(m, r2),
        r1.id@ == r2.id@,
    ensures
        resource_view(r1) == resource_view(r2),
{
    let x = r1.id@;
    lemma_producer_records_equal(m, x, r1.semantic_type@, r1.concrete_type, r1.producer, r2.semantic_type@, r2.concrete_type, r2.producer);
    lemma_pair_order();
    let c1 = r1.consumers@.map_values(|c: Consumer| consumer_view(c));
    let c2 = r2.consumers@.map_values(|c: Consumer| consumer_view(c));
    let lt = |a: (Seq<char>, Seq<char>), b: (Seq<char>, Seq<char>)| pair_lt(a.0, a.1, b.0, b.1);
    assert forall|i: int, j: int| 0 <= i < j < c1.len() implies lt(#[trigger] c1[i], #[trigger] c1[j]) by {
        assert(pair_lt(r1.consumers@[i].unit@, r1.consumers@[i].port@, r1.consumers@[j].unit@, r1.consumers@[j].port@));
    }
    assert forall|i: int, j: int| 0 <= i < j < c2.len() implies lt(#[trigger] c2[i], #[trigger] c2[j]) by {
        assert(pair_lt(r2.consumers@[i].unit@, r2.consumers@[i].port@, r2.consumers@[j].unit@, r2.consumers@[j].port@));
    }
    assert forall|v| #[trigger] c1.contains(v) implies c2.contains(v) by {
        let k = choose|k: int| 0 <= k < c1.len() && c1[k] == v;
        assert(consumer_of(m, x, r1.consumers@[k].unit@, r1.consumers@[k].port@));
        let (i, b) = choose|i: int, b: int| #[trigger] input_at(m, i, b) && m.units@[i].inputs@[b].resource@ == x
            && m.units@[i].id@ == r1.consumers@[k].unit@ && m.units@[i].inputs@[b].port@ == r1.consumers@[k].port@;
        assert(lists_consumer(r2.consumers@, m.units@[i].id@, m.units@[i].inputs@[b].port@));
        let w = choose|w: int| 0 <= w < r2.consumers@.len() && #[trigger] r2.consumers@[w].unit@ == m.units@[i].id@
            && r2.consumers@[w].port@ == m.units@[i].inputs@[b].port@;
        assert(c2[w] == v);
    }
    assert forall|v| #[trigger] c2.contains(v) implies c1.contains(v) by {
        let k = choose|k: int| 0 <= k < c2.len() && c2[k] == v;
        assert(consumer_of(m, x, r2.consumers@[k].unit@, r2.consumers@[k].port@));
        let (i, b) = choose|i: int, b: int| #[trigger] input_at(m, i, b) && m.units@[i].inputs@[b].resource@ == x
            && m.units@[i].id@ == r2.consumers@[k].unit@ && m.units@[i].inputs@[b].port@ == r2.consumers@[k].port@;
        assert(lists_consumer(r1.consumers@, m.units@[i].id@, m.units@[i].inputs@[b].port@));
        let w = choose|w: int| 0 <= w < r1.consumers@.len() && #[trigger] r1.consumers@[w].unit@ == m.units@[i].id@
            && r1.consumers@[w].port@ == m.units@[i].inputs@[b].port@;
        assert(c1[w] == v);
    }
    lemma_sorted_equal(c1, c2, lt);
}

/// A recorded Resource is published.
proof fn lemma_recorded_is_produced(m: ResolvedModule, r: CompiledResource)
    requires
        compiled_resource_of(m, r),
    ensures
        produced(m, r.id@),
{
    let x = r.id@;
    if exists|a: int| #[trigger] input_slot(m, a, x) && r.semantic_type@ == m.inputs@[a].semantic_type@ && r.concrete_type
        == m.inputs@[a].concrete_type && r.producer is ModuleInput {
        let a = choose|a: int| #[trigger] input_slot(m, a, x) && r.semantic_type@ == m.inputs@[a].semantic_type@ && r.concrete_type
            == m.inputs@[a].concrete_type && r.producer is ModuleInput;
        assert(input_slot(m, a, x));
    } else {
        let (i, o) = choose|i: int, o: int| #[trigger] output_slot(m, i, o, x) && r.semantic_type@ == m.units@[i].outputs@[o].semantic_type@
            && r.concrete_type == m.units@[i].outputs@[o].concrete_type && r.producer is Unit && r.producer->unit@ == m.units@[i].id@
            && r.producer->port@ == m.units@[i].outputs@[o].port@;
        assert(output_slot(m, i, o, x));
    }
}

/// The Resource lists of two compiled forms of one Module agree.
proof fn lemma_resource_lists_equal(m: ResolvedModule, g1: CompiledGraph, g2: CompiledGraph)
    requires
        compilable(m),
        compiled_from(m, g1),
        compiled_from(m, g2),
    ensures
        g1.resources@.map_values(|r: CompiledResource| resource_view(r)) == g2.resources@.map_values(|r: CompiledResource| resource_view(r)),
{
    lemma_text_order();
    let v1 = g1.resources@.map_values(|r: CompiledResource| resource_view(r));
    let v2 = g2.resources@.map_values(|r: CompiledResource| resource_view(r));
    let lt = |a: (Seq<char>, Seq<char>, ConcreteType, Option<(Seq<char>, Seq<char>)>, Seq<(Seq<char>, Seq<char>)>), b: (Seq<char>, Seq<char>, ConcreteType, Option<(Seq<char>, Seq<char>)>, Seq<(Seq<char>, Seq<char>)>)| seq_lt(a.0, b.0);
    assert forall|i: int, j: int| 0 <= i < j < v1.len() implies lt(#[trigger] v1[i], #[trigger] v1[j]) by {
        assert(seq_lt(g1.resources@[i].id@, g1.resources@[j].id@));
    }
    assert forall|i: int, j: int| 0 <= i < j < v2.len() implies lt(#[trigger] v2[i], #[trigger] v2[j]) by {
        assert(seq_lt(g2.resources@[i].id@, g2.resources@[j].id@));
    }
    assert forall|x| #[trigger] v1.contains(x) implies v2.contains(x) by {
        let k = choose|k: int| 0 <= k < v1.len() && v1[k] == x;
        assert(compiled_resource_of(m, g1.resources@[k]));
        lemma_recorded_is_produced(m, g1.resources@[k]);
        assert(resource_listed(g2.resources@, g1.resources@[k].id@));
        let w = choose|w: int| 0 <= w < g2.resources@.len() && #[trigger] g2.resources@[w].id@ == g1.resources@[k].id@;
        lemma_compiled_resources_equal(m, g1.resources@[k], g2.resources@[w]);
        assert(v2[w] == x);
    }
    assert forall|x| #[trigger] v2.contains(x) implies v1.contains(x) by {
        let k = choose|k: int| 0 <= k < v2.len() && v2[k] == x;
        assert(compiled_resource_of(m, g2.resources@[k]));
        lemma_recorded_is_produced(m, g2.resources@[k]);
        assert(resource_listed(g1.resources@, g2.resources@[k].id@));
        let w = choose|w: int| 0 <= w < g1.resources@.len() && #[trigger] g1.resources@[w].id@ == g2.resources@[k].id@;
        lemma_compiled_resources_equal(m, g2.resources@[k], g1.resources@[w]);
        assert(v1[w] == x);
    }
    lemma_sorted_equal(v1, v2, lt);
}

/// The Module output lists of two compiled forms of one Module agree.
proof fn lemma_output_lists_equal(m: ResolvedModule, g1: CompiledGraph, g2: CompiledGraph)
    requires
        compilable(m),
        compiled_from(m, g1),
        compiled_from(m, g2),
    ensures
        g1.module_outputs@.map_values(|x: crate::ids::ResourceId| x@) == g2.module_outputs@.map_values(|x: crate::ids::ResourceId| x@),
{
    lemma_text_order();
    let all = m.outputs@.map_values(|x: crate::ids::ResourceId| x@);
    let v1 = g1.module_outputs@.map_values(|x: crate::ids::ResourceId| x@);
    let v2 = g2.module_outputs@.map_values(|x: crate::ids::ResourceId| x@);
    let lt = |a: Seq<char>, b: Seq<char>| seq_lt(a, b);
    assert(all.no_duplicates()) by {
        assert forall|i: int, j: int| 0 <= i < all.len() && 0 <= j < all.len() && i != j implies all[i] != all[j] by {
            if i < j {
                assert(m.outputs@[i]@ != m.outputs@[j]@);
            } else {
                assert(m.outputs@[j]@ != m.outputs@[i]@);
            }
        }
    }
    assert forall|i: int, j: int| 0 <= i < j < v1.len() implies lt(#[trigger] v1[i], #[trigger] v1[j]) by {
        assert(seq_lt(g1.module_outputs@[i]@, g1.module_outputs@[j]@));
    }
    assert forall|i: int, j: int| 0 <= i < j < v2.len() implies lt(#[trigger] v2[i], #[trigger] v2[j]) by {
        assert(seq_lt(g2.module_outputs@[i]@, g2.module_outputs@[j]@));
    }
    assert(v1.no_duplicates()) by {
        assert forall|i: int, j: int| 0 <= i < v1.len() && 0 <= j < v1.len() && i != j implies v1[i] != v1[j] by {
            if i < j {
                assert(lt(v1[i], v1[j]));
            } else {
                assert(lt(v1[j], v1[i]));
            }
        }
    }
    assert(v2.no_duplicates()) by {
        assert forall|i: int, j: int| 0 <= i < v2.len() && 0 <= j < v2.len() && i != j implies v2[i] != v2[j] by {
            if i < j {
                assert(lt(v2[i], v2[j]));
            } else {
                assert(lt(v2[j], v2[i]));
            }
        }
    }
    assert forall|x: Seq<char>| #[trigger] v1.contains(x) implies all.contains(x) by {
        let k = choose|k: int| 0 <= k < v1.len() && v1[k] == x;
        assert(output_listed(m, g1.module_outputs@[k]@));
        let a = choose|a: int| 0 <= a < m.outputs@.len() && #[trigger] m.outputs@[a]@ == g1.module_outputs@[k]@;
        assert(all[a] == x);
    }
    assert forall|x: Seq<char>| #[trigger] v2.contains(x) implies all.contains(x) by {
        let k = choose|k: int| 0 <= k < v2.len() && v2[k] == x;
        assert(output_listed(m, g2.module_outputs@[k]@));
        let a = choose|a: int| 0 <= a < m.outputs@.len() && #[trigger] m.outputs@[a]@ == g2.module_outputs@[k]@;
        assert(all[a] == x);
    }
    lemma_covers(v1, all);
    lemma_covers(v2, all);
    lemma_sorted_equal(v1, v2, lt);
}

/// Law: compilation has one result. Every graph that is the compiled form
/// of a compilable Module has the same Units, Resources, Module outputs and
/// schedule, field by field.
pub proof fn lemma_compiled_form_unique(m: ResolvedModule, g1: CompiledGraph, g2: CompiledGraph)
    requires
        compilable(m),
        compiled_from(m, g1),
        compiled_from(m, g2),
    ensures
        graph_view(g1) == graph_view(g2),
{
    lemma_unit_lists_equal(m, g1, g2);
    lemma_resource_lists_equal(m, g1, g2);
    lemma_output_lists_equal(m, g1, g2);
    lemma_schedule_unique(m, id_views(g1.execution_order@), id_views(g2.execution_order@));
}

/// `m2` holds the Units of `m1` reordered: Unit `k` of `m2` is Unit `p[k]`
/// of `m1`, `q` undoes `p`, and schema, name, inputs and outputs are the same.
pub open spec fn units_reordered(m1: ResolvedModule, m2: ResolvedModule, p: Seq<int>, q: Seq<int>) -> bool {
    &&& m2.schema@ == m1.schema@
    &&& m2.name@ == m1.name@
    &&& m2.inputs@ == m1.inputs@
    &&& m2.outputs@ == m1.outputs@
    &&& m2.units@.len() == m1.units@.len()
    &&& p.len() == m1.units@.len()
    &&& q.len() == m1.units@.len()
    &&& forall|k: int| 0 <= k < p.len() ==> 0 <= #[trigger] p[k] < p.len() && q[p[k]] == k
    &&& forall|i: int| 0 <= i < q.len() ==> 0 <= #[trigger] q[i] < q.len() && p[q[i]] == i
    &&& forall|k: int| 0 <= k < p.len() ==> #[trigger] m2.units@[k] == m1.units@[p[k]]
}

/// Reordering is symmetric.
proof fn lemma_reordered_symmetric(m1: ResolvedModule, m2: ResolvedModule, p: Seq<int>, q: Seq<int>)
    requires
        units_reordered(m1, m2, p, q),
    ensures
        units_reordered(m2, m1, q, p),
{
    assert forall|i: int| 0 <= i < q.len() implies #[trigger] m1.units@[i] == m2.units@[q[i]] by {
        assert(m2.units@[q[i]] == m1.units@[p[q[i]]]);
    }
}

/// The index-level predicates of `m2` translate to `m1` through `p`.
proof fn lemma_reordered_slots(m1: ResolvedModule, m2: ResolvedModule, p: Seq<int>, q: Seq<int>)
    requires
        units_reordered(m1, m2, p, q),
    ensures
        forall|k: int, id: Seq<char>| 0 <= k < p.len() ==> (#[trigger] has_unit(m2, k, id) <==> has_unit(m1, p[k], id)),
        forall|k: int, o: int, x: Seq<char>|
            0 <= k < p.len() ==> (#[trigger] output_slot(m2, k, o, x) <==> output_slot(m1, p[k], o, x)),
        forall|k: int, b: int| 0 <= k < p.len() ==> (#[trigger] input_at(m2, k, b) <==> input_at(m1, p[k], b)),
        forall|a: int, x: Seq<char>| #[trigger] input_slot(m2, a, x) <==> input_slot(m1, a, x),
        forall|k: int, l: int|
            0 <= k < p.len() && 0 <= l < p.len() ==> (#[trigger] reads_from(m2, k, l) <==> reads_from(m1, p[k], p[l])),
        forall|x: Seq<char>| #[trigger] produced(m2, x) <==> produced(m1, x),
        forall|id: Seq<char>| #[trigger] names_unit(m2, id) <==> names_unit(m1, id),
        forall|a: Seq<char>, b: Seq<char>| #[trigger] reads_named(m2, a, b) <==> reads_named(m1, a, b),
{
    assert forall|k: int, l: int| 0 <= k < p.len() && 0 <= l < p.len() implies (#[trigger] reads_from(m2, k, l) <==> reads_from(m1, p[k], p[l])) by {
        assert(m2.units@[k] == m1.units@[p[k]]);
        assert(m2.units@[l] == m1.units@[p[l]]);
        if reads_from(m2, k, l) {
            let (b, o) = choose|b: int, o: int| 0 <= b < m2.units@[k].inputs@.len() && #[trigger] output_slot(m2, l, o, m2.units@[k].inputs@[b].resource@);
            assert(output_slot(m1, p[l], o, m1.units@[p[k]].inputs@[b].resource@));
        }
        if reads_from(m1, p[k], p[l]) {
            let (b, o) = choose|b: int, o: int| 0 <= b < m1.units@[p[k]].inputs@.len() && #[trigger] output_slot(m1, p[l], o, m1.units@[p[k]].inputs@[b].resource@);
            assert(output_slot(m2, l, o, m2.units@[k].inputs@[b].resource@));
        }
    }
    assert forall|x: Seq<char>| #[trigger] produced(m2, x) <==> produced(m1, x) by {
        if exists|i: int, o: int| output_slot(m2, i, o, x) {
            let (i, o) = choose|i: int, o: int| output_slot(m2, i, o, x);
            assert(m2.units@[i] == m1.units@[p[i]]);
            assert(output_slot(m1, p[i], o, x));
        }
        if exists|i: int, o: int| output_slot(m1, i, o, x) {
            let (i, o) = choose|i: int, o: int| output_slot(m1, i, o, x);
            assert(m2.units@[q[i]] == m1.units@[p[q[i]]]);
            assert(output_slot(m2, q[i], o, x));
        }
        if exists|a: int| input_slot(m2, a, x) {
            let a = choose|a: int| input_slot(m2, a, x);
            assert(input_slot(m1, a, x));
        }
        if exists|a: int| input_slot(m1, a, x) {
            let a = choose|a: int| input_slot(m1, a, x);
            assert(input_slot(m2, a, x));
        }
    }
    assert forall|id: Seq<char>| #[trigger] names_unit(m2, id) <==> names_unit(m1, id) by {
        if names_unit(m2, id) {
            let k = choose|k: int| #[trigger] has_unit(m2, k, id);
            assert(m2.units@[k] == m1.units@[p[k]]);
            assert(has_unit(m1, p[k], id));
        }
        if names_unit(m1, id) {
            let i = choose|i: int| #[trigger] has_unit(m1, i, id);
            assert(m2.units@[q[i]] == m1.units@[p[q[i]]]);
            assert(has_unit(m2, q[i], id));
        }
    }
    assert forall|a: Seq<char>, b: Seq<char>| #[trigger] reads_named(m2, a, b) <==> reads_named(m1, a, b) by {
        if reads_named(m2, a, b) {
            let (k, l) = choose|k: int, l: int| #[trigger] has_unit(m2, k, a) && #[trigger] has_unit(m2, l, b) && reads_from(m2, k, l);
            assert(m2.units@[k] == m1.units@[p[k]]);
            assert(m2.units@[l] == m1.units@[p[l]]);
            assert(has_unit(m1, p[k], a) && has_unit(m1, p[l], b) && reads_from(m1, p[k], p[l]));
        }
        if reads_named(m1, a, b) {
            let (i, j) = choose|i: int, j: int| #[trigger] has_unit(m1, i, a) && #[trigger] has_unit(m1, j, b) && reads_from(m1, i, j);
            assert(m2.units@[q[i]] == m1.units@[p[q[i]]]);
            assert(m2.units@[q[j]] == m1.units@[p[q[j]]]);
            assert(reads_from(m2, q[i], q[j]));
            assert(has_unit(m2, q[i], a) && has_unit(m2, q[j], b));
        }
    }
    assert forall|k: int, id: Seq<char>| 0 <= k < p.len() implies (#[trigger] has_unit(m2, k, id) <==> has_unit(m1, p[k], id)) by {
        assert(m2.units@[k] == m1.units@[p[k]]);
    }
    assert forall|k: int, o: int, x: Seq<char>| 0 <= k < p.len() implies (#[trigger] output_slot(m2, k, o, x) <==> output_slot(m1, p[k], o, x)) by {
        assert(m2.units@[k] == m1.units@[p[k]]);
    }
    assert forall|k: int, b: int| 0 <= k < p.len() implies (#[trigger] input_at(m2, k, b) <==> input_at(m1, p[k], b)) by {
        assert(m2.units@[k] == m1.units@[p[k]]);
    }
}

proof fn lemma_unit_of_reordered(m1: ResolvedModule, m2: ResolvedModule, p: Seq<int>, q: Seq<int>, cu: CompiledUnit)
    requires
        units_reordered(m1, m2, p, q),
        compiled_unit_of(m2, cu),
    ensures
        compiled_unit_of(m1, cu),
{
    lemma_reordered_slots(m1, m2, p, q);
    let k = choose|k: int|
        #[trigger] has_unit(m2, k, cu.id@) && cu.unit_type@ == m2.units@[k].unit_type@ && sorted_bindings(cu.inputs@, m2.units@[k].inputs@)
            && sorted_bindings(cu.outputs@, m2.units@[k].outputs@) && dependency_list(m2, k, cu.dependencies@);
    let i = p[k];
    assert(m2.units@[k] == m1.units@[i]);
    let deps = cu.dependencies@;
    assert forall|d: int| 0 <= d < deps.len() implies reads_named(m1, m1.units@[i].id@, #[trigger] deps[d]@) by {
        assert(reads_named(m2, m2.units@[k].id@, deps[d]@));
    }
    assert forall|j: int| #[trigger] reads_from(m1, i, j) implies id_views(deps).contains(m1.units@[j].id@) by {
        assert(0 <= j < q.len());
        assert(p[q[j]] == j);
        assert(reads_from(m2, k, q[j]));
        assert(m2.units@[q[j]] == m1.units@[p[q[j]]]);
    }
    assert(dependency_list(m1, i, deps));
    assert(has_unit(m1, i, cu.id@));
}

proof fn lemma_resource_of_reordered(m1: ResolvedModule, m2: ResolvedModule, p: Seq<int>, q: Seq<int>, r: CompiledResource)
    requires
        units_reordered(m1, m2, p, q),
        compiled_resource_of(m2, r),
    ensures
        compiled_resource_of(m1, r),
{
    lemma_reordered_slots(m1, m2, p, q);
    let x = r.id@;
    if exists|a: int| #[trigger] input_slot(m2, a, x) && r.semantic_type@ == m2.inputs@[a].semantic_type@ && r.concrete_type
        == m2.inputs@[a].concrete_type && r.producer is ModuleInput {
        let a = choose|a: int| #[trigger] input_slot(m2, a, x) && r.semantic_type@ == m2.inputs@[a].semantic_type@ && r.concrete_type
            == m2.inputs@[a].concrete_type && r.producer is ModuleInput;
        assert(input_slot(m1, a, x));
    } else {
        let (k, o) = choose|k: int, o: int| #[trigger] output_slot(m2, k, o, x) && r.semantic_type@ == m2.units@[k].outputs@[o].semantic_type@
            && r.concrete_type == m2.units@[k].outputs@[o].concrete_type && r.producer is Unit && r.producer->unit@ == m2.units@[k].id@
            && r.producer->port@ == m2.units@[k].outputs@[o].port@;
        assert(m2.units@[k] == m1.units@[p[k]]);
        assert(output_slot(m1, p[k], o, x));
    }
    let cs = r.consumers@;
    assert forall|w: int| 0 <= w < cs.len() implies consumer_of(m1, x, (#[trigger] cs[w]).unit@, cs[w].port@) by {
        assert(consumer_of(m2, x, cs[w].unit@, cs[w].port@));
        let (k, b) = choose|k: int, b: int| #[trigger] input_at(m2, k, b) && m2.units@[k].inputs@[b].resource@ == x
            && m2.units@[k].id@ == cs[w].unit@ && m2.units@[k].inputs@[b].port@ == cs[w].port@;
        assert(m2.units@[k] == m1.units@[p[k]]);
        assert(input_at(m1, p[k], b));
    }
    assert forall|i: int, b: int| #[trigger] input_at(m1, i, b) && m1.units@[i].inputs@[b].resource@ == x implies lists_consumer(
        cs,
        m1.units@[i].id@,
        m1.units@[i].inputs@[b].port@,
    ) by {
        assert(p[q[i]] == i);
        assert(m2.units@[q[i]] == m1.units@[i]);
        assert(input_at(m2, q[i], b));
    }
}

proof fn lemma_schedule_reordered(m1: ResolvedModule, m2: ResolvedModule, p: Seq<int>, q: Seq<int>, ids: Seq<Seq<char>>)
    requires
        units_reordered(m1, m2, p, q),
        valid_schedule(m2, ids),
        least_first(m2, ids),
    ensures
        valid_schedule(m1, ids),
        least_first(m1, ids),
{
    lemma_reordered_slots(m1, m2, p, q);
    assert forall|k: int| 0 <= k < ids.len() implies names_unit(m1, #[trigger] ids[k]) by {
        assert(names_unit(m2, ids[k]));
    }
    assert forall|i: int| 0 <= i < m1.units@.len() implies ids.contains(#[trigger] m1.units@[i].id@) by {
        assert(p[q[i]] == i);
        assert(m2.units@[q[i]] == m1.units@[i]);
        assert(ids.contains(m2.units@[q[i]].id@));
    }
    assert forall|k: int, i: int, j: int|
        #![trigger has_unit(m1, i, ids[k]), reads_from(m1, i, j)]
        0 <= k < ids.len() && has_unit(m1, i, ids[k]) && reads_from(m1, i, j) implies ids.take(k).contains(m1.units@[j].id@) by {
        assert(p[q[i]] == i && p[q[j]] == j);
        assert(m2.units@[q[i]] == m1.units@[i]);
        assert(m2.units@[q[j]] == m1.units@[j]);
        assert(has_unit(m2, q[i], ids[k]));
        assert(reads_from(m2, q[i], q[j]));
    }
    assert forall|k: int, i: int|
        #![trigger unit_ready(m1, i, ids.take(k)), ids[k]]
        0 <= k < ids.len() && 0 <= i < m1.units@.len() && !ids.take(k).contains(m1.units@[i].id@) && unit_ready(m1, i, ids.take(k))
        implies !seq_lt(m1.units@[i].id@, ids[k]) by {
        let placed = ids.take(k);
        assert(p[q[i]] == i);
        assert(m2.units@[q[i]] == m1.units@[i]);
        assert forall|l: int| #[trigger] reads_from(m2, q[i], l) implies placed.contains(m2.units@[l].id@) by {
            assert(0 <= l < p.len());
            assert(reads_from(m1, i, p[l]));
            assert(m2.units@[l] == m1.units@[p[l]]);
        }
        assert(unit_ready(m2, q[i], placed));
    }
}

/// A compiled form of a reordered Module is a compiled form of the Module.
proof fn lemma_compiled_from_reordered(m1: ResolvedModule, m2: ResolvedModule, p: Seq<int>, q: Seq<int>, g: CompiledGraph)
    requires
        units_reordered(m1, m2, p, q),
        compiled_from(m2, g),
    ensures
        compiled_from(m1, g),
{
    lemma_reordered_slots(m1, m2, p, q);
    assert forall|k: int| 0 <= k < g.units@.len() implies compiled_unit_of(m1, #[trigger] g.units@[k]) by {
        lemma_unit_of_reordered(m1, m2, p, q, g.units@[k]);
    }
    assert forall|k: int| 0 <= k < g.resources@.len() implies compiled_resource_of(m1, #[trigger] g.resources@[k]) by {
        lemma_resource_of_reordered(m1, m2, p, q, g.resources@[k]);
    }
    assert forall|x: Seq<char>| produced(m1, x) implies resource_listed(g.resources@, x) by {
        assert(produced(m2, x));
    }
    assert forall|k: int| 0 <= k < g.module_outputs@.len() implies output_listed(m1, #[trigger] g.module_outputs@[k]@) by {
        assert(output_listed(m2, g.module_outputs@[k]@));
    }
    lemma_schedule_reordered(m1, m2, p, q, id_views(g.execution_order@));
}

/// Everything compilation checks of a reordered Module holds of the Module.
proof fn lemma_compilable_reordered(m1: ResolvedModule, m2: ResolvedModule, p: Seq<int>, q: Seq<int>)
    requires
        units_reordered(m1, m2, p, q),
        compilable(m2),
    ensures
        compilable(m1),
{
    lemma_reordered_slots(m1, m2, p, q);
    assert forall|i: int| 0 <= i < q.len() implies #[trigger] m2.units@[q[i]] == m1.units@[i] by {
        assert(p[q[i]] == i);
    }
    assert(unique_units(m1)) by {
        assert forall|i: int, j: int| 0 <= i < j < m1.units@.len() implies #[trigger] m1.units@[i].id@ != #[trigger] m1.units@[j].id@ by {
            assert(m2.units@[q[i]] == m1.units@[i]);
            assert(m2.units@[q[j]] == m1.units@[j]);
            assert(q[i] != q[j]) by {
                assert(p[q[i]] == i && p[q[j]] == j);
            }
            if q[i] < q[j] {
                assert(m2.units@[q[i]].id@ != m2.units@[q[j]].id@);
            } else {
                assert(m2.units@[q[j]].id@ != m2.units@[q[i]].id@);
            }
        }
    }
    assert(unique_ports(m1)) by {
        assert forall|i: int| 0 <= i < m1.units@.len() implies distinct_ports(#[trigger] m1.units@[i].inputs@) && distinct_ports(m1.units@[i].outputs@) by {
            assert(m2.units@[q[i]] == m1.units@[i]);
            assert(distinct_ports(m2.units@[q[i]].inputs@) && distinct_ports(m2.units@[q[i]].outputs@));
        }
    }
    assert(unique_producers(m1)) by {
        assert forall|a: int, i: int, o: int| 0 <= a < m1.inputs@.len() && #[trigger] output_slot(m1, i, o, m1.inputs@[a].resource@) implies false by {
            assert(m2.units@[q[i]] == m1.units@[i]);
            assert(output_slot(m2, q[i], o, m2.inputs@[a].resource@));
        }
        assert forall|i: int, o: int, j: int, r: int, x: Seq<char>|
            #![trigger output_slot(m1, i, o, x), output_slot(m1, j, r, x)]
            output_slot(m1, i, o, x) && output_slot(m1, j, r, x) implies i == j && o == r by {
            assert(m2.units@[q[i]] == m1.units@[i]);
            assert(m2.units@[q[j]] == m1.units@[j]);
            assert(output_slot(m2, q[i], o, x) && output_slot(m2, q[j], r, x));
            assert(p[q[i]] == i && p[q[j]] == j);
        }
    }
    assert(inputs_typed(m1)) by {
        assert forall|i: int, b: int| 0 <= i < m1.units@.len() && 0 <= b < m1.units@[i].inputs@.len() implies binding_typed(
            m1,
            #[trigger] m1.units@[i].inputs@[b],
        ) by {
            assert(m2.units@[q[i]] == m1.units@[i]);
            let bnd = m1.units@[i].inputs@[b];
            assert(binding_typed(m2, m2.units@[q[i]].inputs@[b]));
            assert forall|j: int, o: int| #[trigger] output_slot(m1, j, o, bnd.resource@) implies m1.units@[j].outputs@[o].semantic_type@
                == bnd.semantic_type@ && m1.units@[j].outputs@[o].concrete_type == bnd.concrete_type by {
                assert(m2.units@[q[j]] == m1.units@[j]);
                assert(output_slot(m2, q[j], o, bnd.resource@));
            }
            assert forall|a: int| #[trigger] input_slot(m1, a, bnd.resource@) implies m1.inputs@[a].semantic_type@ == bnd.semantic_type@
                && m1.inputs@[a].concrete_type == bnd.concrete_type by {
                assert(input_slot(m2, a, bnd.resource@));
            }
        }
    }
    assert(outputs_known(m1)) by {
        assert forall|k: int| 0 <= k < m1.outputs@.len() implies produced(m1, #[trigger] m1.outputs@[k]@) by {
            assert(produced(m2, m2.outputs@[k]@));
        }
    }
    assert(acyclic(m1)) by {
        assert forall|path: Seq<Seq<char>>| !#[trigger] closed_unit_walk(m1, path) by {
            if closed_unit_walk(m1, path) {
                assert forall|k: int| 1 <= k < path.len() implies reads_named(m2, #[trigger] path[k], path[k - 1]) by {
                    assert(reads_named(m1, path[k], path[k - 1]));
                }
                assert(closed_unit_walk(m2, path));
            }
        }
    }
    assert(outputs_unique(m1)) by {
        assert forall|a: int, b: int| 0 <= a < b < m1.outputs@.len() implies #[trigger] m1.outputs@[a]@ != #[trigger] m1.outputs@[b]@ by {
            assert(m2.outputs@[a]@ != m2.outputs@[b]@);
        }
    }
}

/// Law: the compiled graph is independent of the order of the Units. A
/// Module compiles exactly when every reordering of its Units compiles, and
/// their compiled graphs agree field by field.
pub proof fn lemma_compile_ignores_unit_order(
    m1: ResolvedModule,
    m2: ResolvedModule,
    p: Seq<int>,
    q: Seq<int>,
    g1: CompiledGraph,
    g2: CompiledGraph,
)
    requires
        units_reordered(m1, m2, p, q),
    ensures
        compilable(m1) <==> compilable(m2),
        compilable(m1) && compiled_from(m1, g1) && compiled_from(m2, g2) ==> graph_view(g1) == graph_view(g2),
{
    lemma_reordered_symmetric(m1, m2, p, q);
    if compilable(m2) {
        lemma_compilable_reordered(m1, m2, p, q);
    }
    if compilable(m1) {
        lemma_compilable_reordered(m2, m1, q, p);
    }
    if compilable(m1) && compiled_from(m1, g1) && compiled_from(m2, g2) {
        lemma_compiled_from_reordered(m1, m2, p, q, g2);
        lemma_compiled_form_unique(m1, g1, g2);
    }
}

/// Two sequences, strictly increasing in the same strict order and holding
/// the same elements, are equal.
pub proof fn lemma_sorted_equal<A>(s: Seq<A>, t: Seq<A>, lt: spec_fn(A, A) -> bool)
    requires
        forall|a: A| !#[trigger] lt(a, a),
        forall|a: A, b: A, c: A| #[trigger] lt(a, b) && #[trigger] lt(b, c) ==> lt(a, c),
        forall|i: int, j: int| 0 <= i < j < s.len() ==> lt(#[trigger] s[i], #[trigger] s[j]),
        forall|i: int, j: int| 0 <= i < j < t.len() ==> lt(#[trigger] t[i], #[trigger] t[j]),
        forall|x: A| #![trigger s.contains(x)] #![trigger t.contains(x)] s.contains(x) <==> t.contains(x),
    ensures
        s == t,
    decreases s.len(),
{
    if s.len() == 0 {
        if t.len() > 0 {
            assert(t.contains(t[0]));
        }
        assert(s =~= t);
    } else {
        assert(s.contains(s[0]));
        let j = choose|j: int| 0 <= j < t.len() && t[j] == s[0];
        assert(t.contains(t[0]));
        let i = choose|i: int| 0 <= i < s.len() && s[i] == t[0];
        if j > 0 {
            assert(lt(t[0], t[j]));
            if i > 0 {
                assert(lt(s[0], s[i]));
                assert(lt(s[0], s[0]));
            } else {
                assert(lt(t[j], t[j]));
            }
        }
        let s1 = s.drop_first();
        let t1 = t.drop_first();
        assert forall|x: A| #[trigger] s1.contains(x) implies t1.contains(x) by {
            let k = choose|k: int| 0 <= k < s1.len() && s1[k] == x;
            assert(s[k + 1] == x);
            assert(s.contains(x));
            let w = choose|w: int| 0 <= w < t.len() && t[w] == x;
            assert(lt(s[0], s[k + 1]));
            if w == 0 {
                assert(lt(x, x));
            }
            assert(t1[w - 1] == x);
        }
        assert forall|x: A| #[trigger] t1.contains(x) implies s1.contains(x) by {
            let k = choose|k: int| 0 <= k < t1.len() && t1[k] == x;
            assert(t[k + 1] == x);
            assert(t.contains(x));
            let w = choose|w: int| 0 <= w < s.len() && s[w] == x;
            assert(lt(t[0], t[k + 1]));
            if w == 0 {
                assert(lt(x, x));
            }
            assert(s1[w - 1] == x);
        }
        assert forall|a: int, b: int| 0 <= a < b < s1.len() implies lt(#[trigger] s1[a], #[trigger] s1[b]) by {
            assert(s1[a] == s[a + 1] && s1[b] == s[b + 1]);
        }
        assert forall|a: int, b: int| 0 <= a < b < t1.len() implies lt(#[trigger] t1[a], #[trigger] t1[b]) by {
            assert(t1[a] == t[a + 1] && t1[b] == t[b + 1]);
        }
        lemma_sorted_equal(s1, t1, lt);
        assert(s =~= seq![s[0]] + s1);
        assert(t =~= seq![t[0]] + t1);
    }
}

/// A duplicate-free sequence whose elements all occur in a duplicate-free
/// sequence of the same length holds every element of it.
pub proof fn lemma_covers<A>(sub: Seq<A>, all: Seq<A>)
    requires
        sub.no_duplicates(),
        all.no_duplicates(),
        sub.len() == all.len(),
        forall|x: A| #[trigger] sub.contains(x) ==> all.contains(x),
    ensures
        forall|x: A| #[trigger] all.contains(x) ==> sub.contains(x),
{
    sub.unique_seq_to_set();
    all.unique_seq_to_set();
    seq_to_set_is_finite(sub);
    seq_to_set_is_finite(all);
    assert(sub.to_set().subset_of(all.to_set()));
    lemma_subset_equality(sub.to_set(), all.to_set());
    assert forall|x: A| #[trigger] all.contains(x) implies sub.contains(x) by {
        assert(all.to_set().contains(x));
        assert(sub.to_set().contains(x));
    }
}

/// `seq_lt` is a strict order on every pair and triple of texts.
pub proof fn lemma_text_order()
    ensures
        forall|a: Seq<char>| !#[trigger] seq_lt(a, a),
        forall|a: Seq<char>, b: Seq<char>, c: Seq<char>| #[trigger] seq_lt(a, b) && #[trigger] seq_lt(b, c) ==> seq_lt(a, c),
{
    assert forall|a: Seq<char>| !#[trigger] seq_lt(a, a) by {
        lemma_seq_lt_irreflexive(a);
    }
    assert forall|a: Seq<char>, b: Seq<char>, c: Seq<char>| #[trigger] seq_lt(a, b) && #[trigger] seq_lt(b, c) implies seq_lt(a, c) by {
        lemma_seq_lt_transitive(a, b, c);
    }
}

/// A resolved Module has one schedule: a valid schedule that always takes
/// the least ready Unit is unique.
pub proof fn lemma_schedule_unique(m: ResolvedModule, ids1: Seq<Seq<char>>, ids2: Seq<Seq<char>>)
    requires
        unique_units(m),
        valid_schedule(m, ids1),
        valid_schedule(m, ids2),
        least_first(m, ids1),
        least_first(m, ids2),
    ensures
        ids1 == ids2,
{
    let n = ids1.len();
    assert forall|k: int| 0 <= k < n implies #[trigger] ids1[k] == ids2[k] by {
        lemma_schedule_prefix(m, ids1, ids2, k + 1);
        assert(ids1.take(k + 1)[k] == ids1[k]);
        assert(ids2.take(k + 1)[k] == ids2[k]);
    }
    assert(ids1 =~= ids2);
}

proof fn lemma_schedule_prefix(m: ResolvedModule, ids1: Seq<Seq<char>>, ids2: Seq<Seq<char>>, n: int)
    requires
        unique_units(m),
        valid_schedule(m, ids1),
        valid_schedule(m, ids2),
        least_first(m, ids1),
        least_first(m, ids2),
        0 <= n <= ids1.len(),
    ensures
        ids1.take(n) == ids2.take(n),
    decreases n,
{
    if n > 0 {
        let k = n - 1;
        lemma_schedule_prefix(m, ids1, ids2, k);
        let placed = ids1.take(k);
        assert(placed == ids2.take(k));
        let u1 = ids1[k];
        let u2 = ids2[k];
        let i1 = choose|i: int| #[trigger] has_unit(m, i, u1);
        let i2 = choose|i: int| #[trigger] has_unit(m, i, u2);
        assert(crate::compile::names_unit(m, u1));
        assert(crate::compile::names_unit(m, u2));
        assert(!placed.contains(u1)) by {
            if placed.contains(u1) {
                let w = choose|w: int| 0 <= w < placed.len() && placed[w] == u1;
                assert(ids1[w] == ids1[k]);
            }
        }
        assert(!placed.contains(u2)) by {
            if placed.contains(u2) {
                let w = choose|w: int| 0 <= w < placed.len() && placed[w] == u2;
                assert(ids2[w] == ids2[k]);
            }
        }
        assert(unit_ready(m, i1, placed)) by {
            assert forall|j: int| #[trigger] reads_from(m, i1, j) implies placed.contains(m.units@[j].id@) by {
                assert(has_unit(m, i1, ids1[k]));
            }
        }
        assert(unit_ready(m, i2, placed)) by {
            assert forall|j: int| #[trigger] reads_from(m, i2, j) implies placed.contains(m.units@[j].id@) by {
                assert(has_unit(m, i2, ids2[k]));
            }
        }
        assert(unit_ready(m, i1, ids2.take(k)));
        assert(unit_ready(m, i2, ids1.take(k)));
        assert(!seq_lt(u1, u2));
        assert(!seq_lt(u2, u1));
        lemma_seq_lt_total(u1, u2);
        assert(ids1.take(n) =~= ids1.take(k).push(u1));
        assert(ids2.take(n) =~= ids2.take(k).push(u2));
    }
}

} // verus!
