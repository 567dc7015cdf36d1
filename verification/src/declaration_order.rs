//! Normalization reads what a Module Definition declares, not the order in
//! which it declares it.

use vstd::prelude::*;

use vstd::multiset::Multiset;
use vstd::relations::{sorted_by, total_ordering};
use vstd::seq_lib::lemma_sorted_unique;

use crate::frontend::{bindings_of, field_index, field_text, has_field, inputs_of, key_text, mapping_field, outputs_of, units_of, value_text};
use crate::ids::ResourceId;
use crate::normal_form::{lemma_covers, lemma_pair_order, lemma_sorted_equal, lemma_text_order};
use crate::sort::{is_perm, lemma_pair_lt_total, pair_lt};
use crate::text::{lemma_seq_lt_irreflexive, lemma_seq_lt_total, seq_lt};
use crate::types::{ParsedModule, ParsedModuleInput, ParsedUnit};
use crate::yaml_syntax::{child_at, key_ok, keys_valid, lemma_keys_valid_step, locally_valid, scalar_text, Node};

verus! {

/// The entries of a mapping node.
pub open spec fn entries_of(n: Node) -> Seq<(Node, Node)> {
    n.kind->Mapping_0@
}

/// No two entries carry the same key text.
pub open spec fn distinct_keys(es: Seq<(Node, Node)>) -> bool {
    forall|i: int, j: int| 0 <= i < j < es.len() ==> #[trigger] key_text(es, i) != #[trigger] key_text(es, j)
}

/// The (key, value) texts a mapping of string entries declares.
pub open spec fn declared_pairs(es: Seq<(Node, Node)>) -> Set<(Seq<char>, Seq<char>)> {
    Set::new(|x: (Seq<char>, Seq<char>)| exists|i: int| 0 <= i < es.len() && #[trigger] key_text(es, i) == x.0 && value_text(es, i) == x.1)
}

/// The (Resource, semantic type) pairs that Module input declarations declare.
pub open spec fn declared_inputs(es: Seq<(Node, Node)>) -> Set<(Seq<char>, Seq<char>)> {
    Set::new(|x: (Seq<char>, Seq<char>)| exists|i: int| 0 <= i < es.len() && #[trigger] key_text(es, i) == x.0 && field_text(es[i].1, "type"@) == x.1)
}

/// What the Unit declaration of entry `i` declares: id, type, and its input
/// and output bindings.
pub open spec fn declared_unit(es: Seq<(Node, Node)>, i: int) -> (Seq<char>, Seq<char>, Set<(Seq<char>, Seq<char>)>, Set<(Seq<char>, Seq<char>)>) {
    (
        key_text(es, i),
        field_text(es[i].1, "type"@),
        declared_pairs(entries_of(mapping_field(es[i].1, "inputs"@))),
        declared_pairs(entries_of(mapping_field(es[i].1, "outputs"@))),
    )
}

/// What the Unit declarations declare.
pub open spec fn declared_units(es: Seq<(Node, Node)>) -> Set<(Seq<char>, Seq<char>, Set<(Seq<char>, Seq<char>)>, Set<(Seq<char>, Seq<char>)>)> {
    Set::new(|t: (Seq<char>, Seq<char>, Set<(Seq<char>, Seq<char>)>, Set<(Seq<char>, Seq<char>)>)| exists|i: int| 0 <= i < es.len() && #[trigger] declared_unit(es, i) == t)
}

/// The output Resources declared, counted with multiplicity.
pub open spec fn declared_outputs(es: Seq<(Node, Node)>) -> Multiset<Seq<char>> {
    Seq::new(es.len(), |i: int| value_text(es, i)).to_multiset()
}

/// Every mapping normalization reads by key lists each key once: the
/// inputs, the Units, and the bindings of each Unit.
pub open spec fn distinct_declarations(root: Node) -> bool {
    let units = entries_of(mapping_field(root, "units"@));
    &&& distinct_keys(entries_of(mapping_field(root, "inputs"@)))
    &&& distinct_keys(units)
    &&& forall|i: int|
        0 <= i < units.len() ==> distinct_keys(entries_of(mapping_field(#[trigger] units[i].1, "inputs"@))) && distinct_keys(
            entries_of(mapping_field(units[i].1, "outputs"@)),
        )
}

/// Two documents declare the same schema, name, inputs, Units and outputs.
pub open spec fn same_declarations(r1: Node, r2: Node) -> bool {
    &&& field_text(r1, "schema"@) == field_text(r2, "schema"@)
    &&& field_text(r1, "module"@) == field_text(r2, "module"@)
    &&& declared_inputs(entries_of(mapping_field(r1, "inputs"@))) == declared_inputs(entries_of(mapping_field(r2, "inputs"@)))
    &&& declared_units(entries_of(mapping_field(r1, "units"@))) == declared_units(entries_of(mapping_field(r2, "units"@)))
    &&& declared_outputs(entries_of(mapping_field(r1, "outputs"@))) == declared_outputs(entries_of(mapping_field(r2, "outputs"@)))
}

/// `m` is the parsed Module that normalization reads from `root`.
pub open spec fn normalized_module(root: Node, m: ParsedModule) -> bool {
    &&& root.kind is Mapping
    &&& has_field(entries_of(root), "inputs"@)
    &&& has_field(entries_of(root), "units"@)
    &&& has_field(entries_of(root), "outputs"@)
    &&& m.schema@ == field_text(root, "schema"@)
    &&& m.name@ == field_text(root, "module"@)
    &&& mapping_field(root, "inputs"@).kind is Mapping
    &&& inputs_of(entries_of(mapping_field(root, "inputs"@)), m.inputs@)
    &&& mapping_field(root, "units"@).kind is Mapping
    &&& units_of(entries_of(mapping_field(root, "units"@)), m.units@)
    &&& mapping_field(root, "outputs"@).kind is Mapping
    &&& outputs_of(entries_of(mapping_field(root, "outputs"@)), m.outputs@)
}

/// Bindings by value.
pub open spec fn pair_views(bs: Seq<(String, ResourceId)>) -> Seq<(Seq<char>, Seq<char>)> {
    bs.map_values(|b: (String, ResourceId)| (b.0@, b.1@))
}

/// A parsed Unit by value.
pub open spec fn parsed_unit_view(u: ParsedUnit) -> (Seq<char>, Seq<char>, Seq<(Seq<char>, Seq<char>)>, Seq<(Seq<char>, Seq<char>)>) {
    (u.id@, u.unit_type@, pair_views(u.inputs@), pair_views(u.outputs@))
}

/// A parsed Module by value.
pub open spec fn parsed_view(m: ParsedModule) -> (
    Seq<char>,
    Seq<char>,
    Seq<(Seq<char>, Seq<char>)>,
    Seq<(Seq<char>, Seq<char>, Seq<(Seq<char>, Seq<char>)>, Seq<(Seq<char>, Seq<char>)>)>,
    Seq<Seq<char>>,
) {
    (
        m.schema@,
        m.name@,
        m.inputs@.map_values(|x: ParsedModuleInput| (x.resource@, x.semantic_type@)),
        m.units@.map_values(|u: ParsedUnit| parsed_unit_view(u)),
        m.outputs@.map_values(|x: ResourceId| x@),
    )
}

/// Some position of `p` holds `j`.
pub open spec fn takes(p: Seq<usize>, j: int) -> bool {
    exists|w: int| 0 <= w < p.len() && p[w] as int == j
}

/// A permutation of `0..n` takes every value below `n`.
proof fn lemma_perm_onto(p: Seq<usize>, n: nat)
    requires
        is_perm(p, n),
    ensures
        forall|j: int| 0 <= j < n ==> #[trigger] takes(p, j),
{
    let all = Seq::new(n, |i: int| i);
    let pi = p.map_values(|x: usize| x as int);
    assert(pi.no_duplicates()) by {
        assert forall|a: int, b: int| 0 <= a < pi.len() && 0 <= b < pi.len() && a != b implies pi[a] != pi[b] by {
            if a < b {
                assert(p[a] != p[b]);
            } else {
                assert(p[b] != p[a]);
            }
        }
    }
    assert forall|x: int| #[trigger] pi.contains(x) implies all.contains(x) by {
        let k = choose|k: int| 0 <= k < pi.len() && pi[k] == x;
        assert(p[k] < n);
        assert(all[x] == x);
    }
    lemma_covers(pi, all);
    assert forall|j: int| 0 <= j < n implies #[trigger] takes(p, j) by {
        assert(all[j] == j);
        assert(all.contains(j));
        assert(pi.contains(j));
        let w = choose|w: int| 0 <= w < pi.len() && pi[w] == j;
        assert(p[w] as int == j);
    }
}

/// Bindings normalized from two mappings that declare the same pairs, each
/// key once, agree.
pub proof fn lemma_bindings_determined(
    es1: Seq<(Node, Node)>,
    es2: Seq<(Node, Node)>,
    out1: Seq<(String, ResourceId)>,
    out2: Seq<(String, ResourceId)>,
)
    requires
        distinct_keys(es1),
        distinct_keys(es2),
        bindings_of(es1, out1),
        bindings_of(es2, out2),
        declared_pairs(es1) == declared_pairs(es2),
    ensures
        pair_views(out1) == pair_views(out2),
{
    lemma_pair_order();
    let v1 = pair_views(out1);
    let v2 = pair_views(out2);
    let p1 = choose|p: Seq<usize>|
        is_perm(p, es1.len()) && (forall|k: int| 0 <= k < out1.len() ==> (#[trigger] out1[k]).0@ == key_text(es1, p[k] as int) && out1[k].1@ == value_text(es1, p[k] as int));
    let p2 = choose|p: Seq<usize>|
        is_perm(p, es2.len()) && (forall|k: int| 0 <= k < out2.len() ==> (#[trigger] out2[k]).0@ == key_text(es2, p[k] as int) && out2[k].1@ == value_text(es2, p[k] as int));
    let lt = |a: (Seq<char>, Seq<char>), b: (Seq<char>, Seq<char>)| pair_lt(a.0, a.1, b.0, b.1);
    assert forall|a: int, b: int| 0 <= a < b < v1.len() implies lt(#[trigger] v1[a], #[trigger] v1[b]) by {
        assert(!pair_lt(out1[b].0@, out1[b].1@, out1[a].0@, out1[a].1@));
        assert(p1[a] != p1[b]);
        if p1[a] < p1[b] {
            assert(key_text(es1, p1[a] as int) != key_text(es1, p1[b] as int));
        } else {
            assert(key_text(es1, p1[b] as int) != key_text(es1, p1[a] as int));
        }
        lemma_pair_lt_total(v1[a].0, v1[a].1, v1[b].0, v1[b].1);
    }
    assert forall|a: int, b: int| 0 <= a < b < v2.len() implies lt(#[trigger] v2[a], #[trigger] v2[b]) by {
        assert(!pair_lt(out2[b].0@, out2[b].1@, out2[a].0@, out2[a].1@));
        assert(p2[a] != p2[b]);
        if p2[a] < p2[b] {
            assert(key_text(es2, p2[a] as int) != key_text(es2, p2[b] as int));
        } else {
            assert(key_text(es2, p2[b] as int) != key_text(es2, p2[a] as int));
        }
        lemma_pair_lt_total(v2[a].0, v2[a].1, v2[b].0, v2[b].1);
    }
    lemma_perm_onto(p1, es1.len());
    lemma_perm_onto(p2, es2.len());
    assert forall|x: (Seq<char>, Seq<char>)| #[trigger] v1.contains(x) implies v2.contains(x) by {
        let k = choose|k: int| 0 <= k < v1.len() && v1[k] == x;
        assert(key_text(es1, p1[k] as int) == x.0 && value_text(es1, p1[k] as int) == x.1);
        assert(declared_pairs(es1).contains(x));
        assert(declared_pairs(es2).contains(x));
        let j = choose|j: int| 0 <= j < es2.len() && #[trigger] key_text(es2, j) == x.0 && value_text(es2, j) == x.1;
        assert(takes(p2, j));
        let w = choose|w: int| 0 <= w < p2.len() && p2[w] as int == j;
        assert(v2[w] == x);
    }
    assert forall|x: (Seq<char>, Seq<char>)| #[trigger] v2.contains(x) implies v1.contains(x) by {
        let k = choose|k: int| 0 <= k < v2.len() && v2[k] == x;
        assert(key_text(es2, p2[k] as int) == x.0 && value_text(es2, p2[k] as int) == x.1);
        assert(declared_pairs(es2).contains(x));
        assert(declared_pairs(es1).contains(x));
        let j = choose|j: int| 0 <= j < es1.len() && #[trigger] key_text(es1, j) == x.0 && value_text(es1, j) == x.1;
        assert(takes(p1, j));
        let w = choose|w: int| 0 <= w < p1.len() && p1[w] as int == j;
        assert(v1[w] == x);
    }
    lemma_sorted_equal(v1, v2, lt);
}

/// Module inputs normalized from two declarations of the same inputs, each
/// Resource once, agree.
proof fn lemma_inputs_determined(es1: Seq<(Node, Node)>, es2: Seq<(Node, Node)>, out1: Seq<ParsedModuleInput>, out2: Seq<ParsedModuleInput>)
    requires
        distinct_keys(es1),
        distinct_keys(es2),
        inputs_of(es1, out1),
        inputs_of(es2, out2),
        declared_inputs(es1) == declared_inputs(es2),
    ensures
        out1.map_values(|x: ParsedModuleInput| (x.resource@, x.semantic_type@)) == out2.map_values(
            |x: ParsedModuleInput| (x.resource@, x.semantic_type@),
        ),
{
    lemma_text_order();
    let v1 = out1.map_values(|x: ParsedModuleInput| (x.resource@, x.semantic_type@));
    let v2 = out2.map_values(|x: ParsedModuleInput| (x.resource@, x.semantic_type@));
    let p1 = choose|p: Seq<usize>|
        is_perm(p, es1.len()) && (forall|k: int|
            0 <= k < out1.len() ==> (#[trigger] out1[k]).resource@ == key_text(es1, p[k] as int) && out1[k].semantic_type@ == field_text(
                es1[p[k] as int].1,
                "type"@,
            ));
    let p2 = choose|p: Seq<usize>|
        is_perm(p, es2.len()) && (forall|k: int|
            0 <= k < out2.len() ==> (#[trigger] out2[k]).resource@ == key_text(es2, p[k] as int) && out2[k].semantic_type@ == field_text(
                es2[p[k] as int].1,
                "type"@,
            ));
    let lt = |a: (Seq<char>, Seq<char>), b: (Seq<char>, Seq<char>)| seq_lt(a.0, b.0);
    assert forall|a: int, b: int| 0 <= a < b < v1.len() implies lt(#[trigger] v1[a], #[trigger] v1[b]) by {
        assert(!seq_lt(out1[b].resource@, out1[a].resource@));
        assert(p1[a] != p1[b]);
        if p1[a] < p1[b] {
            assert(key_text(es1, p1[a] as int) != key_text(es1, p1[b] as int));
        } else {
            assert(key_text(es1, p1[b] as int) != key_text(es1, p1[a] as int));
        }
        lemma_seq_lt_total(v1[a].0, v1[b].0);
    }
    assert forall|a: int, b: int| 0 <= a < b < v2.len() implies lt(#[trigger] v2[a], #[trigger] v2[b]) by {
        assert(!seq_lt(out2[b].resource@, out2[a].resource@));
        assert(p2[a] != p2[b]);
        if p2[a] < p2[b] {
            assert(key_text(es2, p2[a] as int) != key_text(es2, p2[b] as int));
        } else {
            assert(key_text(es2, p2[b] as int) != key_text(es2, p2[a] as int));
        }
        lemma_seq_lt_total(v2[a].0, v2[b].0);
    }
    lemma_perm_onto(p1, es1.len());
    lemma_perm_onto(p2, es2.len());
    assert forall|x: (Seq<char>, Seq<char>)| #[trigger] v1.contains(x) implies v2.contains(x) by {
        let k = choose|k: int| 0 <= k < v1.len() && v1[k] == x;
        assert(key_text(es1, p1[k] as int) == x.0 && field_text(es1[p1[k] as int].1, "type"@) == x.1);
        assert(declared_inputs(es1).contains(x));
        assert(declared_inputs(es2).contains(x));
        let j = choose|j: int| 0 <= j < es2.len() && #[trigger] key_text(es2, j) == x.0 && field_text(es2[j].1, "type"@) == x.1;
        assert(takes(p2, j));
        let w = choose|w: int| 0 <= w < p2.len() && p2[w] as int == j;
        assert(v2[w] == x);
    }
    assert forall|x: (Seq<char>, Seq<char>)| #[trigger] v2.contains(x) implies v1.contains(x) by {
        let k = choose|k: int| 0 <= k < v2.len() && v2[k] == x;
        assert(key_text(es2, p2[k] as int) == x.0 && field_text(es2[p2[k] as int].1, "type"@) == x.1);
        assert(declared_inputs(es2).contains(x));
        assert(declared_inputs(es1).contains(x));
        let j = choose|j: int| 0 <= j < es1.len() && #[trigger] key_text(es1, j) == x.0 && field_text(es1[j].1, "type"@) == x.1;
        assert(takes(p1, j));
        let w = choose|w: int| 0 <= w < p1.len() && p1[w] as int == j;
        assert(v1[w] == x);
    }
    lemma_sorted_equal(v1, v2, lt);
}

/// The normalized Unit at position `k` is the declaration of entry `j`.
pub open spec fn unit_from(es: Seq<(Node, Node)>, u: ParsedUnit, j: int) -> bool {
    &&& 0 <= j < es.len()
    &&& u.id@ == key_text(es, j)
    &&& u.unit_type@ == field_text(es[j].1, "type"@)
    &&& crate::frontend::declared_bindings(es[j].1, "inputs"@, u.inputs@)
    &&& crate::frontend::declared_bindings(es[j].1, "outputs"@, u.outputs@)
}

/// Two normalized Units read from declarations that declare the same
/// things, each binding key once, agree.
proof fn lemma_unit_determined(es1: Seq<(Node, Node)>, es2: Seq<(Node, Node)>, u1: ParsedUnit, u2: ParsedUnit, j1: int, j2: int)
    requires
        unit_from(es1, u1, j1),
        unit_from(es2, u2, j2),
        declared_unit(es1, j1) == declared_unit(es2, j2),
        distinct_keys(entries_of(mapping_field(es1[j1].1, "inputs"@))),
        distinct_keys(entries_of(mapping_field(es1[j1].1, "outputs"@))),
        distinct_keys(entries_of(mapping_field(es2[j2].1, "inputs"@))),
        distinct_keys(entries_of(mapping_field(es2[j2].1, "outputs"@))),
    ensures
        parsed_unit_view(u1) == parsed_unit_view(u2),
{
    lemma_bindings_determined(
        entries_of(mapping_field(es1[j1].1, "inputs"@)),
        entries_of(mapping_field(es2[j2].1, "inputs"@)),
        u1.inputs@,
        u2.inputs@,
    );
    lemma_bindings_determined(
        entries_of(mapping_field(es1[j1].1, "outputs"@)),
        entries_of(mapping_field(es2[j2].1, "outputs"@)),
        u1.outputs@,
        u2.outputs@,
    );
}

/// Units normalized from two declarations of the same Units agree.
proof fn lemma_units_determined(r1: Node, r2: Node, out1: Seq<ParsedUnit>, out2: Seq<ParsedUnit>)
    requires
        distinct_declarations(r1),
        distinct_declarations(r2),
        units_of(entries_of(mapping_field(r1, "units"@)), out1),
        units_of(entries_of(mapping_field(r2, "units"@)), out2),
        declared_units(entries_of(mapping_field(r1, "units"@))) == declared_units(entries_of(mapping_field(r2, "units"@))),
    ensures
        out1.map_values(|u: ParsedUnit| parsed_unit_view(u)) == out2.map_values(|u: ParsedUnit| parsed_unit_view(u)),
{
    lemma_text_order();
    let es1 = entries_of(mapping_field(r1, "units"@));
    let es2 = entries_of(mapping_field(r2, "units"@));
    let v1 = out1.map_values(|u: ParsedUnit| parsed_unit_view(u));
    let v2 = out2.map_values(|u: ParsedUnit| parsed_unit_view(u));
    let p1 = choose|p: Seq<usize>|
        is_perm(p, es1.len()) && (forall|k: int|
            0 <= k < out1.len() ==> (#[trigger] out1[k]).id@ == key_text(es1, p[k] as int) && out1[k].unit_type@ == field_text(
                es1[p[k] as int].1,
                "type"@,
            ) && crate::frontend::declared_bindings(es1[p[k] as int].1, "inputs"@, out1[k].inputs@) && crate::frontend::declared_bindings(
                es1[p[k] as int].1,
                "outputs"@,
                out1[k].outputs@,
            ));
    let p2 = choose|p: Seq<usize>|
        is_perm(p, es2.len()) && (forall|k: int|
            0 <= k < out2.len() ==> (#[trigger] out2[k]).id@ == key_text(es2, p[k] as int) && out2[k].unit_type@ == field_text(
                es2[p[k] as int].1,
                "type"@,
            ) && crate::frontend::declared_bindings(es2[p[k] as int].1, "inputs"@, out2[k].inputs@) && crate::frontend::declared_bindings(
                es2[p[k] as int].1,
                "outputs"@,
                out2[k].outputs@,
            ));
    let lt = |a: (Seq<char>, Seq<char>, Seq<(Seq<char>, Seq<char>)>, Seq<(Seq<char>, Seq<char>)>), b: (Seq<char>, Seq<char>, Seq<(Seq<char>, Seq<char>)>, Seq<(Seq<char>, Seq<char>)>)| seq_lt(a.0, b.0);
    assert forall|a: int, b: int| 0 <= a < b < v1.len() implies lt(#[trigger] v1[a], #[trigger] v1[b]) by {
        assert(!seq_lt(out1[b].id@, out1[a].id@));
        assert(p1[a] != p1[b]);
        if p1[a] < p1[b] {
            assert(key_text(es1, p1[a] as int) != key_text(es1, p1[b] as int));
        } else {
            assert(key_text(es1, p1[b] as int) != key_text(es1, p1[a] as int));
        }
        lemma_seq_lt_total(v1[a].0, v1[b].0);
    }
    assert forall|a: int, b: int| 0 <= a < b < v2.len() implies lt(#[trigger] v2[a], #[trigger] v2[b]) by {
        assert(!seq_lt(out2[b].id@, out2[a].id@));
        assert(p2[a] != p2[b]);
        if p2[a] < p2[b] {
            assert(key_text(es2, p2[a] as int) != key_text(es2, p2[b] as int));
        } else {
            assert(key_text(es2, p2[b] as int) != key_text(es2, p2[a] as int));
        }
        lemma_seq_lt_total(v2[a].0, v2[b].0);
    }
    lemma_perm_onto(p1, es1.len());
    lemma_perm_onto(p2, es2.len());
    assert forall|x| #[trigger] v1.contains(x) implies v2.contains(x) by {
        let k = choose|k: int| 0 <= k < v1.len() && v1[k] == x;
        let j1 = p1[k] as int;
        assert(unit_from(es1, out1[k], j1));
        let t = declared_unit(es1, j1);
        assert(declared_units(es1).contains(t));
        assert(declared_units(es2).contains(t));
        let j2 = choose|j: int| 0 <= j < es2.len() && #[trigger] declared_unit(es2, j) == t;
        assert(takes(p2, j2));
        let w = choose|w: int| 0 <= w < p2.len() && p2[w] as int == j2;
        assert(unit_from(es2, out2[w], j2));
        lemma_unit_determined(es1, es2, out1[k], out2[w], j1, j2);
        assert(v2[w] == x);
    }
    assert forall|x| #[trigger] v2.contains(x) implies v1.contains(x) by {
        let k = choose|k: int| 0 <= k < v2.len() && v2[k] == x;
        let j2 = p2[k] as int;
        assert(unit_from(es2, out2[k], j2));
        let t = declared_unit(es2, j2);
        assert(declared_units(es2).contains(t));
        assert(declared_units(es1).contains(t));
        let j1 = choose|j: int| 0 <= j < es1.len() && #[trigger] declared_unit(es1, j) == t;
        assert(takes(p1, j1));
        let w = choose|w: int| 0 <= w < p1.len() && p1[w] as int == j1;
        assert(unit_from(es1, out1[w], j1));
        lemma_unit_determined(es2, es1, out2[k], out1[w], j2, j1);
        assert(v1[w] == x);
    }
    lemma_sorted_equal(v1, v2, lt);
}

/// Reading a sequence through a permutation keeps its multiset.
proof fn lemma_perm_multiset(s: Seq<Seq<char>>, p: Seq<usize>)
    requires
        is_perm(p, s.len()),
    ensures
        Seq::new(s.len(), |k: int| s[p[k] as int]).to_multiset() == s.to_multiset(),
    decreases s.len(),
{
    broadcast use vstd::multiset::group_multiset_axioms;
    broadcast use vstd::seq_lib::group_to_multiset_ensures;

    let n = s.len();
    let t = Seq::new(n, |k: int| s[p[k] as int]);
    if n == 0 {
        assert(t =~= s);
    } else {
        let j = p[n - 1] as int;
        let s2 = s.remove(j);
        let p2 = Seq::new((n - 1) as nat, |k: int| if (p[k] as int) < j { p[k] } else { (p[k] - 1) as usize });
        assert(is_perm(p2, s2.len())) by {
            assert forall|i: int| 0 <= i < p2.len() implies #[trigger] p2[i] < s2.len() by {
                assert(p[i] != p[n - 1]);
            }
            assert forall|a: int, b: int| 0 <= a < b < p2.len() implies #[trigger] p2[a] != #[trigger] p2[b] by {
                assert(p[a] != p[b]);
                assert(p[a] != p[n - 1]);
                assert(p[b] != p[n - 1]);
            }
        }
        lemma_perm_multiset(s2, p2);
        let t2 = Seq::new(s2.len(), |k: int| s2[p2[k] as int]);
        assert(t2 =~= t.drop_last()) by {
            assert forall|k: int| 0 <= k < t2.len() implies t2[k] == t.drop_last()[k] by {
                assert(p[k] != p[n - 1]);
            }
        }
        assert(t =~= t.drop_last().push(t.last()));
        assert(t.last() == s[j]);
        assert(s.contains(s[j]));
        assert(t.to_multiset() =~= s.to_multiset());
    }
}

/// Module outputs normalized from two declarations of the same outputs,
/// counted with multiplicity, agree.
proof fn lemma_outputs_determined(es1: Seq<(Node, Node)>, es2: Seq<(Node, Node)>, out1: Seq<ResourceId>, out2: Seq<ResourceId>)
    requires
        outputs_of(es1, out1),
        outputs_of(es2, out2),
        declared_outputs(es1) == declared_outputs(es2),
    ensures
        out1.map_values(|x: ResourceId| x@) == out2.map_values(|x: ResourceId| x@),
{
    let v1 = out1.map_values(|x: ResourceId| x@);
    let v2 = out2.map_values(|x: ResourceId| x@);
    let d1 = Seq::new(es1.len(), |i: int| value_text(es1, i));
    let d2 = Seq::new(es2.len(), |i: int| value_text(es2, i));
    let p1 = choose|p: Seq<usize>| is_perm(p, es1.len()) && (forall|k: int| 0 <= k < out1.len() ==> (#[trigger] out1[k])@ == value_text(es1, p[k] as int));
    let p2 = choose|p: Seq<usize>| is_perm(p, es2.len()) && (forall|k: int| 0 <= k < out2.len() ==> (#[trigger] out2[k])@ == value_text(es2, p[k] as int));
    lemma_perm_multiset(d1, p1);
    lemma_perm_multiset(d2, p2);
    assert(v1 =~= Seq::new(d1.len(), |k: int| d1[p1[k] as int]));
    assert(v2 =~= Seq::new(d2.len(), |k: int| d2[p2[k] as int]));
    let leq = |a: Seq<char>, b: Seq<char>| !seq_lt(b, a);
    assert(total_ordering(leq)) by {
        assert forall|a: Seq<char>| #[trigger] leq(a, a) by {
            lemma_seq_lt_irreflexive(a);
        }
        assert forall|a: Seq<char>, b: Seq<char>| #[trigger] leq(a, b) && #[trigger] leq(b, a) implies a == b by {
            lemma_seq_lt_total(a, b);
        }
        assert forall|a: Seq<char>, b: Seq<char>, c: Seq<char>| #[trigger] leq(a, b) && #[trigger] leq(b, c) implies leq(a, c) by {
            lemma_seq_lt_total(a, b);
            lemma_seq_lt_total(b, c);
            lemma_seq_lt_total(a, c);
            if seq_lt(c, a) {
                if a == b {
                } else {
                    crate::text::lemma_seq_lt_transitive(c, a, b);
                }
            }
        }
        assert forall|a: Seq<char>, b: Seq<char>| #[trigger] leq(a, b) || #[trigger] leq(b, a) by {
            lemma_seq_lt_total(a, b);
        }
    }
    assert(sorted_by(v1, leq)) by {
        assert forall|a: int, b: int| 0 <= a < b < v1.len() implies #[trigger] leq(v1[a], v1[b]) by {
            assert(!seq_lt(out1[b]@, out1[a]@));
        }
    }
    assert(sorted_by(v2, leq)) by {
        assert forall|a: int, b: int| 0 <= a < b < v2.len() implies #[trigger] leq(v2[a], v2[b]) by {
            assert(!seq_lt(out2[b]@, out2[a]@));
        }
    }
    lemma_sorted_unique(v1, v2, leq);
}

proof fn lemma_first_below(es: Seq<(Node, Node)>, field: Seq<char>, n: int)
    requires
        0 <= n <= es.len(),
        exists|i: int| 0 <= i < n && scalar_text(#[trigger] es[i].0) == Some(field),
    ensures
        exists|i: int| field_index(es, field, i),
    decreases n,
{
    if exists|i: int| 0 <= i < n - 1 && scalar_text(#[trigger] es[i].0) == Some(field) {
        lemma_first_below(es, field, n - 1);
    } else {
        let i = choose|i: int| 0 <= i < n && scalar_text(#[trigger] es[i].0) == Some(field);
        assert(i == n - 1);
        assert(field_index(es, field, n - 1));
    }
}

/// The field of a valid mapping that has it is valid.
proof fn lemma_field_valid(n: Node, field: Seq<char>)
    requires
        keys_valid(n),
        n.kind is Mapping,
        has_field(entries_of(n), field),
    ensures
        keys_valid(mapping_field(n, field)),
{
    let es = entries_of(n);
    lemma_first_below(es, field, es.len() as int);
    let i = choose|i: int| field_index(es, field, i);
    assert(mapping_field(n, field) == es[i].1);
    assert(child_at(n, i) == Some(es[i].1));
    lemma_keys_valid_step(n);
}

/// A valid mapping lists each key once.
proof fn lemma_valid_keys_distinct(n: Node)
    requires
        keys_valid(n),
        n.kind is Mapping,
    ensures
        distinct_keys(entries_of(n)),
{
    lemma_keys_valid_step(n);
    let es = entries_of(n);
    assert(locally_valid(n));
    assert forall|i: int, j: int| 0 <= i < j < es.len() implies #[trigger] key_text(es, i) != #[trigger] key_text(es, j) by {
        assert(key_ok(es, i));
        assert(key_ok(es, j));
        assert(scalar_text(es[i].0) != scalar_text(es[j].0));
    }
}

/// A document that parses lists each key once in every mapping that
/// normalization reads by key.
proof fn lemma_valid_declarations(root: Node, m: ParsedModule)
    requires
        keys_valid(root),
        normalized_module(root, m),
    ensures
        distinct_declarations(root),
{
    lemma_field_valid(root, "inputs"@);
    lemma_valid_keys_distinct(mapping_field(root, "inputs"@));
    lemma_field_valid(root, "units"@);
    let u = mapping_field(root, "units"@);
    lemma_valid_keys_distinct(u);
    let es = entries_of(u);
    let p = choose|p: Seq<usize>|
        is_perm(p, es.len()) && (forall|k: int|
            0 <= k < m.units@.len() ==> (#[trigger] m.units@[k]).id@ == key_text(es, p[k] as int) && m.units@[k].unit_type@ == field_text(
                es[p[k] as int].1,
                "type"@,
            ) && crate::frontend::declared_bindings(es[p[k] as int].1, "inputs"@, m.units@[k].inputs@) && crate::frontend::declared_bindings(
                es[p[k] as int].1,
                "outputs"@,
                m.units@[k].outputs@,
            ));
    lemma_perm_onto(p, es.len());
    lemma_keys_valid_step(u);
    assert forall|t: int| 0 <= t < es.len() implies distinct_keys(entries_of(mapping_field(#[trigger] es[t].1, "inputs"@))) && distinct_keys(
        entries_of(mapping_field(es[t].1, "outputs"@)),
    ) by {
        assert(takes(p, t));
        let k = choose|k: int| 0 <= k < p.len() && p[k] as int == t;
        assert(crate::frontend::declared_bindings(es[t].1, "inputs"@, m.units@[k].inputs@));
        assert(crate::frontend::declared_bindings(es[t].1, "outputs"@, m.units@[k].outputs@));
        assert(child_at(u, t) == Some(es[t].1));
        assert(keys_valid(es[t].1));
        lemma_field_valid(es[t].1, "inputs"@);
        lemma_field_valid(es[t].1, "outputs"@);
        lemma_valid_keys_distinct(mapping_field(es[t].1, "inputs"@));
        lemma_valid_keys_distinct(mapping_field(es[t].1, "outputs"@));
    }
}

/// Law: normalization ignores declaration order. Two documents that parse
/// (every mapping lists each key once) and declare the same schema, name,
/// inputs, Units with their bindings, and outputs (with multiplicity)
/// normalize to the same parsed Module, in whatever order their mappings
/// list them.
pub proof fn lemma_normalize_ignores_declaration_order(r1: Node, r2: Node, m1: ParsedModule, m2: ParsedModule)
    requires
        keys_valid(r1),
        keys_valid(r2),
        normalized_module(r1, m1),
        normalized_module(r2, m2),
        same_declarations(r1, r2),
    ensures
        parsed_view(m1) == parsed_view(m2),
{
    lemma_valid_declarations(r1, m1);
    lemma_valid_declarations(r2, m2);
    lemma_inputs_determined(
        entries_of(mapping_field(r1, "inputs"@)),
        entries_of(mapping_field(r2, "inputs"@)),
        m1.inputs@,
        m2.inputs@,
    );
    lemma_units_determined(r1, r2, m1.units@, m2.units@);
    lemma_outputs_determined(
        entries_of(mapping_field(r1, "outputs"@)),
        entries_of(mapping_field(r2, "outputs"@)),
        m1.outputs@,
        m2.outputs@,
    );
}

} // verus!
