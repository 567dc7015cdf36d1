//! Immutable, owned description of a prepared Module and its renderings.

use vstd::prelude::*;

use crate::ids::{ResourceId, UnitId};
use crate::options::{AllocationDomain, AllocationEvidence, AllocationGuarantee, RequirementStatus};
use crate::render::{
    concat_map, decimal, graph_text, id_text, joined, lemma_concat_map_all, lemma_concat_map_step,
    lemma_occurs_between, lemma_occurs_extend, lemma_occurs_within_concat, mermaid_text, occurs_in, push_decimal, push_ids,
};
use crate::report::PreparedModuleDescription;
use crate::sort::{empty_keys, is_perm, lemma_pair_lt_primary, lemma_sorted_strict, pair_lt, sort_by_keys};
use crate::storage::{ResourceRequirement, SlotAssignment, StorageReport};
use crate::text::{chars_of, push_str, seq_lt};
use crate::types::{CompiledGraph, CompiledUnit};

verus! {

/// `{:?}` of a string: the text quoted, with Rust's debug escapes.
pub uninterp spec fn debug_quoted(s: Seq<char>) -> Seq<char>;

/// `format!("{:?}", s)` of the standard library: the string's text in
/// double quotes with `char::escape_debug` applied; it depends on the text alone.
#[verifier::external_body]
pub(crate) fn debug_string(s: &str) -> (r: String)
    ensures
        r@ == debug_quoted(s@),
{
    format!("{:?}", s)
}

/// Host-provided normalized configuration text for one Unit.
#[derive(Clone, Debug, PartialEq, Eq)]
pub struct UnitConfigurationSummary {
    pub unit: UnitId,
    pub summary: String,
}

/// Fixed workspace requirement resolved during Module preparation.
#[derive(Clone, Debug, PartialEq, Eq)]
pub struct UnitWorkspaceDescription {
    pub unit: UnitId,
    pub bytes: usize,
}

/// Immutable, owned description of a prepared Module. Configurations are
/// ordered by unit id; requirements and workspaces hold one entry per id,
/// ordered by id.
#[derive(Clone, Debug, PartialEq, Eq)]
pub struct FixedModuleDescription {
    pub graph: CompiledGraph,
    pub configurations: Vec<UnitConfigurationSummary>,
    pub requirements: Vec<(ResourceId, ResourceRequirement)>,
    pub workspaces: Vec<UnitWorkspaceDescription>,
    pub storage: StorageReport,
    pub prepared: PreparedModuleDescription,
}

pub open spec fn guarantee_text(g: AllocationGuarantee) -> Seq<char> {
    match g {
        AllocationGuarantee::BestEffort => "BestEffort"@,
        AllocationGuarantee::NoRunAllocation => "NoRunAllocation"@,
    }
}

pub open spec fn status_text(s: RequirementStatus) -> Seq<char> {
    match s {
        RequirementStatus::Fixed => "Fixed"@,
        RequirementStatus::Bounded => "Bounded"@,
        RequirementStatus::Dynamic => "Dynamic"@,
        RequirementStatus::Unresolved => "Unresolved"@,
    }
}

pub open spec fn evidence_text(e: AllocationEvidence) -> Seq<char> {
    match e {
        AllocationEvidence::Instrumented => "Instrumented"@,
        AllocationEvidence::Certified { source } => "Certified { source: "@ + debug_quoted(source@) + " }"@,
        AllocationEvidence::Unsupported => "Unsupported"@,
    }
}

pub open spec fn bool_text(b: bool) -> Seq<char> {
    if b {
        "true"@
    } else {
        "false"@
    }
}

pub open spec fn unit_line(u: CompiledUnit) -> Seq<char> {
    "unit "@ + u.id@ + ": "@ + u.unit_type@ + "; dependencies: ["@ + joined(u.dependencies@, |d: UnitId| id_text(d)) + "]\n"@
}

pub open spec fn config_line(c: UnitConfigurationSummary) -> Seq<char> {
    "config "@ + c.unit@ + ": "@ + c.summary@ + "\n"@
}

pub open spec fn requirement_line(r: (ResourceId, ResourceRequirement)) -> Seq<char> {
    "requirement "@ + r.0@ + ": capacity="@ + decimal(r.1.capacity as nat) + "\n"@
}

pub open spec fn workspace_line(w: UnitWorkspaceDescription) -> Seq<char> {
    "workspace "@ + w.unit@ + ": bytes="@ + decimal(w.bytes as nat) + "\n"@
}

pub open spec fn storage_line(a: SlotAssignment) -> Seq<char> {
    "storage "@ + a.resource@ + ": slot="@ + decimal(a.slot as nat) + " live="@ + decimal(a.live_range.start as nat) + "..="@
        + decimal(a.live_range.end as nat) + " capacity="@ + decimal(a.capacity as nat) + " bytes="@ + decimal(a.bytes as nat)
        + "\n"@
}

/// The evidence a description gives for one storage assignment: the
/// Resource, its slot, its live steps, the elements it holds and the bytes
/// of its backing, each written in decimal.
pub open spec fn storage_evidence(
    resource: Seq<char>,
    slot: usize,
    first: usize,
    last: usize,
    elements: usize,
    bytes: usize,
) -> Seq<char> {
    "storage "@ + resource + ": slot="@ + decimal(slot as nat) + " live="@ + decimal(first as nat) + "..="@ + decimal(
        last as nat,
    ) + " capacity="@ + decimal(elements as nat) + " bytes="@ + decimal(bytes as nat) + "\n"@
}

/// Every storage assignment of a description appears in its text with its
/// own slot, live range, capacity and byte size.
pub proof fn lemma_description_reports_storage(d: FixedModuleDescription, concretes: Seq<Seq<char>>, k: int)
    requires
        0 <= k < d.storage.assignments@.len(),
    ensures
        ({
            let a = d.storage.assignments@[k];
            occurs_in(
                storage_evidence(a.resource@, a.slot, a.live_range.start, a.live_range.end, a.capacity, a.bytes),
                graph_text(d.graph, concretes) + description_tail(d),
            )
        }),
{
    let a = d.storage.assignments@[k];
    let e = storage_evidence(a.resource@, a.slot, a.live_range.start, a.live_range.end, a.capacity, a.bytes);
    let f = |x: SlotAssignment| storage_line(x);
    assert(storage_line(a) =~= e);
    lemma_occurs_between(Seq::empty(), e, Seq::empty());
    assert(Seq::<char>::empty() + e + Seq::<char>::empty() =~= f(d.storage.assignments@[k]));
    lemma_occurs_within_concat(e, d.storage.assignments@, f, k);
    let rest = summary_lines(d) + concat_map(d.prepared.allocation_capability.spec_domains(), |x: AllocationDomain| domain_line(x))
        + "description overhead: build-time owned clones and summary strings; outside Module::run\n"@
        + "rendering overhead: text, DOT, and Mermaid return allocated Strings; outside strict runs\n"@;
    lemma_occurs_extend(e, concat_map(d.storage.assignments@, f), graph_text(d.graph, concretes) + tail_lists(d), rest);
    assert(graph_text(d.graph, concretes) + description_tail(d) =~= (graph_text(d.graph, concretes) + tail_lists(d)) + concat_map(
        d.storage.assignments@,
        f,
    ) + rest);
}

pub open spec fn domain_line(d: AllocationDomain) -> Seq<char> {
    "allocation domain "@ + d.name@ + ": "@ + evidence_text(d.evidence) + "\n"@
}

/// The unit, configuration, requirement and workspace lines.
pub open spec fn tail_lists(d: FixedModuleDescription) -> Seq<char> {
    concat_map(d.graph.units@, |u: CompiledUnit| unit_line(u)) + concat_map(
        d.configurations@,
        |c: UnitConfigurationSummary| config_line(c),
    ) + concat_map(d.requirements@, |r: (ResourceId, ResourceRequirement)| requirement_line(r)) + concat_map(
        d.workspaces@,
        |w: UnitWorkspaceDescription| workspace_line(w),
    )
}

/// The storage peak and allocation summary lines.
pub open spec fn summary_lines(d: FixedModuleDescription) -> Seq<char> {
    "storage peak: slots="@ + decimal(d.storage.slot_count as nat) + " estimated_bytes="@ + decimal(
        d.storage.estimated_peak_bytes as nat,
    ) + "\n"@ + "allocation: guarantee="@ + guarantee_text(d.prepared.options.guarantee()) + " requirement="@
        + status_text(d.prepared.requirement_status) + " trusted_declarations="@ + bool_text(
        d.prepared.allocation_capability.spec_trusted(),
    ) + "\n"@
}

/// The storage, allocation and overhead lines.
pub open spec fn tail_allocation(d: FixedModuleDescription) -> Seq<char> {
    concat_map(d.storage.assignments@, |a: SlotAssignment| storage_line(a)) + summary_lines(d) + concat_map(
        d.prepared.allocation_capability.spec_domains(),
        |x: AllocationDomain| domain_line(x),
    ) + "description overhead: build-time owned clones and summary strings; outside Module::run\n"@
        + "rendering overhead: text, DOT, and Mermaid return allocated Strings; outside strict runs\n"@
}

/// Everything the description adds after the graph listing.
pub open spec fn description_tail(d: FixedModuleDescription) -> Seq<char> {
    tail_lists(d) + tail_allocation(d)
}

fn push_unit_line(out: &mut String, u: &CompiledUnit)
    ensures
        final(out)@ == old(out)@ + unit_line(*u),
{
    push_str(out, "unit ");
    push_str(out, u.id.as_str());
    push_str(out, ": ");
    push_str(out, u.unit_type.as_str());
    push_str(out, "; dependencies: [");
    push_ids(out, &u.dependencies);
    push_str(out, "]\n");
    proof {
        assert(final(out)@ =~= old(out)@ + unit_line(*u));
    }
}

fn push_storage_line(out: &mut String, a: &SlotAssignment)
    ensures
        final(out)@ == old(out)@ + storage_line(*a),
{
    push_str(out, "storage ");
    push_str(out, a.resource.as_str());
    push_str(out, ": slot=");
    push_decimal(out, a.slot);
    push_str(out, " live=");
    push_decimal(out, a.live_range.start);
    push_str(out, "..=");
    push_decimal(out, a.live_range.end);
    push_str(out, " capacity=");
    push_decimal(out, a.capacity);
    push_str(out, " bytes=");
    push_decimal(out, a.bytes);
    push_str(out, "\n");
    proof {
        assert(final(out)@ =~= old(out)@ + storage_line(*a));
    }
}

fn push_domain_line(out: &mut String, d: &AllocationDomain)
    ensures
        final(out)@ == old(out)@ + domain_line(*d),
{
    push_str(out, "allocation domain ");
    push_str(out, d.name.as_str());
    push_str(out, ": ");
    let ghost mid = out@;
    match &d.evidence {
        AllocationEvidence::Instrumented => {
            push_str(out, "Instrumented");
        },
        AllocationEvidence::Certified { source } => {
            push_str(out, "Certified { source: ");
            push_str(out, debug_string(source.as_str()).as_str());
            push_str(out, " }");
        },
        AllocationEvidence::Unsupported => {
            push_str(out, "Unsupported");
        },
    }
    proof {
        assert(out@ =~= mid + evidence_text(d.evidence));
    }
    push_str(out, "\n");
    proof {
        assert(final(out)@ =~= old(out)@ + domain_line(*d));
    }
}

fn push_summary_lines(out: &mut String, d: &FixedModuleDescription)
    ensures
        final(out)@ == old(out)@ + summary_lines(*d),
{
    push_str(out, "storage peak: slots=");
    push_decimal(out, d.storage.slot_count);
    push_str(out, " estimated_bytes=");
    push_decimal(out, d.storage.estimated_peak_bytes);
    push_str(out, "\n");
    push_str(out, "allocation: guarantee=");
    let ghost a = out@;
    match d.prepared.options.allocation_guarantee() {
        AllocationGuarantee::BestEffort => push_str(out, "BestEffort"),
        AllocationGuarantee::NoRunAllocation => push_str(out, "NoRunAllocation"),
    }
    push_str(out, " requirement=");
    let ghost b = out@;
    match d.prepared.requirement_status {
        RequirementStatus::Fixed => push_str(out, "Fixed"),
        RequirementStatus::Bounded => push_str(out, "Bounded"),
        RequirementStatus::Dynamic => push_str(out, "Dynamic"),
        RequirementStatus::Unresolved => push_str(out, "Unresolved"),
    }
    push_str(out, " trusted_declarations=");
    if d.prepared.allocation_capability.declarations_are_trusted() {
        push_str(out, "true");
    } else {
        push_str(out, "false");
    }
    push_str(out, "\n");
    proof {
        assert(final(out)@ =~= old(out)@ + summary_lines(*d));
    }
}


fn push_unit_lines(out: &mut String, units: &Vec<CompiledUnit>)
    ensures
        final(out)@ == old(out)@ + concat_map(units@, |u: CompiledUnit| unit_line(u)),
{
    let ghost f = |u: CompiledUnit| unit_line(u);
    let ghost base = out@;
    let mut k: usize = 0;
    while k < units.len()
        invariant
            k <= units@.len(),
            f == (|u: CompiledUnit| unit_line(u)),
            out@ == base + concat_map(units@.take(k as int), f),
        decreases units@.len() - k,
    {
        push_unit_line(out, &units[k]);
        proof {
            lemma_concat_map_step(units@, k as int, f);
        }
        k = k + 1;
    }
    proof {
        lemma_concat_map_all(units@, f);
    }
}

fn push_config_lines(out: &mut String, cs: &Vec<UnitConfigurationSummary>)
    ensures
        final(out)@ == old(out)@ + concat_map(cs@, |c: UnitConfigurationSummary| config_line(c)),
{
    let ghost f = |c: UnitConfigurationSummary| config_line(c);
    let ghost base = out@;
    let mut k: usize = 0;
    while k < cs.len()
        invariant
            k <= cs@.len(),
            f == (|c: UnitConfigurationSummary| config_line(c)),
            out@ == base + concat_map(cs@.take(k as int), f),
        decreases cs@.len() - k,
    {
        let ghost before = out@;
        push_str(out, "config ");
        push_str(out, cs[k].unit.as_str());
        push_str(out, ": ");
        push_str(out, cs[k].summary.as_str());
        push_str(out, "\n");
        proof {
            lemma_concat_map_step(cs@, k as int, f);
            assert(out@ =~= before + f(cs@[k as int]));
        }
        k = k + 1;
    }
    proof {
        lemma_concat_map_all(cs@, f);
    }
}

fn push_requirement_lines(out: &mut String, rs: &Vec<(ResourceId, ResourceRequirement)>)
    ensures
        final(out)@ == old(out)@ + concat_map(rs@, |r: (ResourceId, ResourceRequirement)| requirement_line(r)),
{
    let ghost f = |r: (ResourceId, ResourceRequirement)| requirement_line(r);
    let ghost base = out@;
    let mut k: usize = 0;
    while k < rs.len()
        invariant
            k <= rs@.len(),
            f == (|r: (ResourceId, ResourceRequirement)| requirement_line(r)),
            out@ == base + concat_map(rs@.take(k as int), f),
        decreases rs@.len() - k,
    {
        let ghost before = out@;
        push_str(out, "requirement ");
        push_str(out, rs[k].0.as_str());
        push_str(out, ": capacity=");
        push_decimal(out, rs[k].1.capacity);
        push_str(out, "\n");
        proof {
            lemma_concat_map_step(rs@, k as int, f);
            assert(out@ =~= before + f(rs@[k as int]));
        }
        k = k + 1;
    }
    proof {
        lemma_concat_map_all(rs@, f);
    }
}

fn push_workspace_lines(out: &mut String, ws: &Vec<UnitWorkspaceDescription>)
    ensures
        final(out)@ == old(out)@ + concat_map(ws@, |w: UnitWorkspaceDescription| workspace_line(w)),
{
    let ghost f = |w: UnitWorkspaceDescription| workspace_line(w);
    let ghost base = out@;
    let mut k: usize = 0;
    while k < ws.len()
        invariant
            k <= ws@.len(),
            f == (|w: UnitWorkspaceDescription| workspace_line(w)),
            out@ == base + concat_map(ws@.take(k as int), f),
        decreases ws@.len() - k,
    {
        let ghost before = out@;
        push_str(out, "workspace ");
        push_str(out, ws[k].unit.as_str());
        push_str(out, ": bytes=");
        push_decimal(out, ws[k].bytes);
        push_str(out, "\n");
        proof {
            lemma_concat_map_step(ws@, k as int, f);
            assert(out@ =~= before + f(ws@[k as int]));
        }
        k = k + 1;
    }
    proof {
        lemma_concat_map_all(ws@, f);
    }
}

fn push_storage_lines(out: &mut String, xs: &Vec<SlotAssignment>)
    ensures
        final(out)@ == old(out)@ + concat_map(xs@, |a: SlotAssignment| storage_line(a)),
{
    let ghost f = |a: SlotAssignment| storage_line(a);
    let ghost base = out@;
    let mut k: usize = 0;
    while k < xs.len()
        invariant
            k <= xs@.len(),
            f == (|a: SlotAssignment| storage_line(a)),
            out@ == base + concat_map(xs@.take(k as int), f),
        decreases xs@.len() - k,
    {
        push_storage_line(out, &xs[k]);
        proof {
            lemma_concat_map_step(xs@, k as int, f);
        }
        k = k + 1;
    }
    proof {
        lemma_concat_map_all(xs@, f);
    }
}

fn push_domain_lines(out: &mut String, ds: &[AllocationDomain])
    ensures
        final(out)@ == old(out)@ + concat_map(ds@, |x: AllocationDomain| domain_line(x)),
{
    let ghost f = |x: AllocationDomain| domain_line(x);
    let ghost base = out@;
    let mut k: usize = 0;
    while k < ds.len()
        invariant
            k <= ds@.len(),
            f == (|x: AllocationDomain| domain_line(x)),
            out@ == base + concat_map(ds@.take(k as int), f),
        decreases ds@.len() - k,
    {
        push_domain_line(out, &ds[k]);
        proof {
            lemma_concat_map_step(ds@, k as int, f);
        }
        k = k + 1;
    }
    proof {
        lemma_concat_map_all(ds@, f);
    }
}

fn push_tail_lists(out: &mut String, d: &FixedModuleDescription)
    ensures
        final(out)@ == old(out)@ + tail_lists(*d),
{
    let ghost a = out@;
    push_unit_lines(out, &d.graph.units);
    push_config_lines(out, &d.configurations);
    push_requirement_lines(out, &d.requirements);
    push_workspace_lines(out, &d.workspaces);
    proof {
        assert(final(out)@ =~= a + tail_lists(*d));
    }
}

fn push_tail_allocation(out: &mut String, d: &FixedModuleDescription)
    ensures
        final(out)@ == old(out)@ + tail_allocation(*d),
{
    let ghost a = out@;
    push_storage_lines(out, &d.storage.assignments);
    push_summary_lines(out, d);
    push_domain_lines(out, d.prepared.allocation_capability.domains());
    push_str(out, "description overhead: build-time owned clones and summary strings; outside Module::run\n");
    push_str(out, "rendering overhead: text, DOT, and Mermaid return allocated Strings; outside strict runs\n");
    proof {
        assert(final(out)@ =~= a + tail_allocation(*d));
    }
}

impl FixedModuleDescription {
    /// Complete stable text view: the graph listing, then units,
    /// configurations, requirements, workspaces, storage evidence and the
    /// allocation contract.
    pub fn to_text(&self) -> (r: String)
        ensures
            exists|concretes: Seq<Seq<char>>| concretes.len() == self.graph.resources@.len() && #[trigger] graph_text(self.graph, concretes) + description_tail(*self) == r@,
            forall|k: int|
                0 <= k < self.storage.assignments@.len() ==> #[trigger] occurs_in(
                    storage_evidence(
                        self.storage.assignments@[k].resource@,
                        self.storage.assignments@[k].slot,
                        self.storage.assignments@[k].live_range.start,
                        self.storage.assignments@[k].live_range.end,
                        self.storage.assignments@[k].capacity,
                        self.storage.assignments@[k].bytes,
                    ),
                    r@,
                ),
    {
        let mut out = self.graph.to_text();
        let ghost head = out@;
        push_tail_lists(&mut out, self);
        push_tail_allocation(&mut out, self);
        proof {
            let concretes = choose|concretes: Seq<Seq<char>>| concretes.len() == self.graph.resources@.len() && #[trigger] graph_text(self.graph, concretes) == head;
            assert(graph_text(self.graph, concretes) + description_tail(*self) =~= out@);
            assert forall|k: int| 0 <= k < self.storage.assignments@.len() implies #[trigger] occurs_in(
                storage_evidence(
                    self.storage.assignments@[k].resource@,
                    self.storage.assignments@[k].slot,
                    self.storage.assignments@[k].live_range.start,
                    self.storage.assignments@[k].live_range.end,
                    self.storage.assignments@[k].capacity,
                    self.storage.assignments@[k].bytes,
                ),
                out@,
            ) by {
                lemma_description_reports_storage(*self, concretes, k);
            }
        }
        out
    }

    /// Assembles a description: configurations are stably ordered by unit
    /// id; requirements and workspace sizes are collected as maps keyed by
    /// id (the last entry of an id wins) and listed in increasing id order.
    pub fn new(
        graph: CompiledGraph,
        configurations: Vec<UnitConfigurationSummary>,
        requirements: Vec<(ResourceId, ResourceRequirement)>,
        workspace_bytes: Vec<(UnitId, usize)>,
        storage: StorageReport,
        prepared: PreparedModuleDescription,
    ) -> (r: Self)
        ensures
            r.graph == graph,
            r.storage == storage,
            r.prepared == prepared,
            exists|p: Seq<usize>| #[trigger] configurations_sorted(r.configurations@, configurations@, p),
            map_of(requirement_views(r.requirements@), requirement_views(requirements@)),
            map_of(workspace_views(r.workspaces@), workspace_pair_views(workspace_bytes@)),
    {
        let sorted = sorted_configurations(&configurations);
        let required = requirement_map(&requirements);
        let workspaces = workspace_map(&workspace_bytes);
        let ghost src = configurations@;
        let ghost p = choose|p: Seq<usize>| #[trigger] configurations_sorted(sorted@, src, p);
        let r = FixedModuleDescription { graph, configurations: sorted, requirements: required, workspaces, storage, prepared };
        proof {
            assert(configurations_sorted(r.configurations@, src, p));
        }
        r
    }

    /// The graph's DOT rendering.
    pub fn to_dot(&self) -> (r: String)
        ensures
            r@ == crate::render::dot_text(self.graph),
    {
        self.graph.to_dot()
    }

    /// The graph's Mermaid rendering.
    pub fn to_mermaid(&self) -> (r: String)
        ensures
            r@ == mermaid_text(self.graph, Seq::empty()),
    {
        self.graph.to_mermaid()
    }

    /// The graph's Mermaid rendering with per-unit annotations, such as
    /// timing summaries of completed runs.
    pub fn to_mermaid_with_annotations(&self, annotations: &Vec<(UnitId, String)>) -> (r: String)
        ensures
            r@ == mermaid_text(self.graph, annotations@),
    {
        self.graph.to_mermaid_with_unit_annotations(annotations)
    }
}



/// Stable ordering of summaries by unit id.
fn sorted_configurations(src: &Vec<UnitConfigurationSummary>) -> (out: Vec<UnitConfigurationSummary>)
    ensures
        exists|p: Seq<usize>| #[trigger] configurations_sorted(out@, src@, p),
{
    let mut keys: Vec<Vec<char>> = Vec::new();
    let mut i: usize = 0;
    while i < src.len()
        invariant
            i <= src@.len(),
            keys@.len() == i,
            forall|t: int| 0 <= t < i ==> (#[trigger] keys@[t])@ == src@[t].unit@,
        decreases src@.len() - i,
    {
        keys.push(chars_of(src[i].unit.as_str()));
        i = i + 1;
    }
    let second = empty_keys(keys.len());
    let p = sort_by_keys(&keys, &second);
    let ghost k1 = keys@.map_values(|v: Vec<char>| v@);
    let ghost k2 = second@.map_values(|v: Vec<char>| v@);
    let mut out: Vec<UnitConfigurationSummary> = Vec::new();
    let mut t: usize = 0;
    while t < p.len()
        invariant
            t <= p@.len(),
            p@.len() == src@.len(),
            is_perm(p@, src@.len() as nat),
            out@.len() == t,
            forall|x: int| 0 <= x < t ==> summary_same(#[trigger] out@[x], src@[p@[x] as int]),
        decreases p@.len() - t,
    {
        let c = &src[p[t]];
        out.push(UnitConfigurationSummary { unit: c.unit.clone(), summary: c.summary.clone() });
        t = t + 1;
    }
    proof {
        assert forall|a: int, b: int| 0 <= a < b < out@.len() implies !seq_lt(#[trigger] out@[b].unit@, #[trigger] out@[a].unit@) by {
            assert(summary_same(out@[a], src@[p@[a] as int]));
            assert(summary_same(out@[b], src@[p@[b] as int]));
            assert(!pair_lt(k1[p@[b] as int], k2[p@[b] as int], k1[p@[a] as int], k2[p@[a] as int]));
            lemma_pair_lt_primary(k1[p@[b] as int], k1[p@[a] as int]);
        }
        assert forall|a: int, b: int| 0 <= a < b < out@.len() && #[trigger] out@[a].unit@ == #[trigger] out@[b].unit@ implies p@[a] < p@[b] by {
            assert(summary_same(out@[a], src@[p@[a] as int]));
            assert(summary_same(out@[b], src@[p@[b] as int]));
            assert(k1[p@[a] as int] == k1[p@[b] as int]);
        }
        assert(configurations_sorted(out@, src@, p@));
    }
    out
}

/// Requirements collected into a map keyed by resource id.
fn requirement_map(src: &Vec<(ResourceId, ResourceRequirement)>) -> (out: Vec<(ResourceId, ResourceRequirement)>)
    ensures
        map_of(requirement_views(out@), requirement_views(src@)),
{
    let mut keys: Vec<Vec<char>> = Vec::new();
    let mut i: usize = 0;
    while i < src.len()
        invariant
            i <= src@.len(),
            keys@.len() == i,
            forall|t: int| 0 <= t < i ==> (#[trigger] keys@[t])@ == src@[t].0@,
        decreases src@.len() - i,
    {
        keys.push(chars_of(src[i].0.as_str()));
        i = i + 1;
    }
    let order = canonical_order(&keys);
    let mut out: Vec<(ResourceId, ResourceRequirement)> = Vec::new();
    let mut t: usize = 0;
    while t < order.len()
        invariant
            t <= order@.len(),
            forall|x: int| 0 <= x < order@.len() ==> #[trigger] order@[x] < keys@.len(),
            keys@.len() == src@.len(),
            out@.len() == t,
            forall|x: int| 0 <= x < t ==> (#[trigger] out@[x]).0@ == src@[order@[x] as int].0@ && out@[x].1 == src@[order@[x] as int].1,
        decreases order@.len() - t,
    {
        let e = &src[order[t]];
        out.push((e.0.clone(), e.1));
        t = t + 1;
    }
    let ghost vo = requirement_views(out@);
    let ghost vs = requirement_views(src@);
    proof {
        assert forall|x: int| 0 <= x < vo.len() implies vo[x] == vs[order@[x] as int] by {
            assert((out@[x]).0@ == src@[order@[x] as int].0@);
        }
        lemma_map_of_order(keys@, order@, vo, vs);
    }
    out
}

/// Workspace sizes collected into a map keyed by unit id.
fn workspace_map(src: &Vec<(UnitId, usize)>) -> (out: Vec<UnitWorkspaceDescription>)
    ensures
        map_of(workspace_views(out@), workspace_pair_views(src@)),
{
    let mut keys: Vec<Vec<char>> = Vec::new();
    let mut i: usize = 0;
    while i < src.len()
        invariant
            i <= src@.len(),
            keys@.len() == i,
            forall|t: int| 0 <= t < i ==> (#[trigger] keys@[t])@ == src@[t].0@,
        decreases src@.len() - i,
    {
        keys.push(chars_of(src[i].0.as_str()));
        i = i + 1;
    }
    let order = canonical_order(&keys);
    let mut out: Vec<UnitWorkspaceDescription> = Vec::new();
    let mut t: usize = 0;
    while t < order.len()
        invariant
            t <= order@.len(),
            forall|x: int| 0 <= x < order@.len() ==> #[trigger] order@[x] < keys@.len(),
            keys@.len() == src@.len(),
            out@.len() == t,
            forall|x: int| 0 <= x < t ==> (#[trigger] out@[x]).unit@ == src@[order@[x] as int].0@ && out@[x].bytes == src@[order@[x] as int].1,
        decreases order@.len() - t,
    {
        let e = &src[order[t]];
        out.push(UnitWorkspaceDescription { unit: e.0.clone(), bytes: e.1 });
        t = t + 1;
    }
    let ghost vo = workspace_views(out@);
    let ghost vs = workspace_pair_views(src@);
    proof {
        assert forall|x: int| 0 <= x < vo.len() implies vo[x] == vs[order@[x] as int] by {
            assert((out@[x]).unit@ == src@[order@[x] as int].0@);
        }
        lemma_map_of_order(keys@, order@, vo, vs);
    }
    out
}

/// Entries picked by a canonical order form the map of their source.
proof fn lemma_map_of_order<V>(keys: Seq<Vec<char>>, order: Seq<usize>, out: Seq<(Seq<char>, V)>, src: Seq<(Seq<char>, V)>)
    requires
        keys.len() == src.len(),
        out.len() == order.len(),
        forall|j: int| 0 <= j < keys.len() ==> (#[trigger] keys[j])@ == src[j].0,
        forall|x: int| 0 <= x < out.len() ==> #[trigger] out[x] == src[order[x] as int],
        forall|t: int| 0 <= t < order.len() ==> #[trigger] order[t] < keys.len() && is_last_index(keys, order[t] as int),
        forall|a: int, b: int| 0 <= a < b < order.len() ==> seq_lt(keys[#[trigger] order[a] as int]@, keys[#[trigger] order[b] as int]@),
        forall|j: int| 0 <= j < keys.len() ==> #[trigger] key_covered(keys, order, j),
    ensures
        map_of(out, src),
{
    assert forall|a: int, b: int| 0 <= a < b < out.len() implies seq_lt((#[trigger] out[a]).0, (#[trigger] out[b]).0) by {
        assert(out[a] == src[order[a] as int]);
        assert(out[b] == src[order[b] as int]);
        assert(keys[order[a] as int]@ == src[order[a] as int].0);
        assert(keys[order[b] as int]@ == src[order[b] as int].0);
    }
    assert forall|k: int| 0 <= k < out.len() implies is_last_entry(src, #[trigger] out[k]) by {
        let j = order[k] as int;
        assert(out[k] == src[j]);
        assert(is_last_index(keys, j));
        assert forall|t: int| j < t < src.len() implies (#[trigger] src[t]).0 != out[k].0 by {
            assert(keys[t]@ != keys[j]@);
            assert(keys[t]@ == src[t].0);
            assert(keys[j]@ == src[j].0);
        }
    }
    assert forall|j: int| 0 <= j < src.len() implies has_key(out, (#[trigger] src[j]).0) by {
        assert(key_covered(keys, order, j));
        let t = choose|t: int| 0 <= t < order.len() && (#[trigger] keys[order[t] as int])@ == keys[j]@;
        assert(out[t] == src[order[t] as int]);
        assert(keys[order[t] as int]@ == src[order[t] as int].0);
        assert(keys[j]@ == src[j].0);
        assert(out[t].0 == src[j].0);
    }
}

/// Two summaries agree on unit and text.
pub open spec fn summary_same(a: UnitConfigurationSummary, b: UnitConfigurationSummary) -> bool {
    a.unit@ == b.unit@ && a.summary@ == b.summary@
}

/// `out` is `src` reordered by `p`, sorted by unit id, keeping the source
/// order of equal ids.
pub open spec fn configurations_sorted(out: Seq<UnitConfigurationSummary>, src: Seq<UnitConfigurationSummary>, p: Seq<usize>) -> bool {
    &&& is_perm(p, src.len())
    &&& out.len() == src.len()
    &&& forall|k: int| 0 <= k < out.len() ==> summary_same(#[trigger] out[k], src[p[k] as int])
    &&& forall|a: int, b: int| 0 <= a < b < out.len() ==> !seq_lt(#[trigger] out[b].unit@, #[trigger] out[a].unit@)
    &&& forall|a: int, b: int| 0 <= a < b < out.len() && #[trigger] out[a].unit@ == #[trigger] out[b].unit@ ==> p[a] < p[b]
}

/// `e` is the last entry of `src` with its key.
pub open spec fn is_last_entry<V>(src: Seq<(Seq<char>, V)>, e: (Seq<char>, V)) -> bool {
    exists|j: int| 0 <= j < src.len() && src[j] == e && forall|t: int| j < t < src.len() ==> (#[trigger] src[t]).0 != e.0
}

/// Some entry of `out` has key `key`.
pub open spec fn has_key<V>(out: Seq<(Seq<char>, V)>, key: Seq<char>) -> bool {
    exists|k: int| 0 <= k < out.len() && (#[trigger] out[k]).0 == key
}

/// `out` holds, for each key of `src`, the last entry with that key, in
/// increasing key order: what collecting `src` into an ordered map gives.
pub open spec fn map_of<V>(out: Seq<(Seq<char>, V)>, src: Seq<(Seq<char>, V)>) -> bool {
    &&& forall|a: int, b: int| 0 <= a < b < out.len() ==> seq_lt((#[trigger] out[a]).0, (#[trigger] out[b]).0)
    &&& forall|k: int| 0 <= k < out.len() ==> is_last_entry(src, #[trigger] out[k])
    &&& forall|j: int| 0 <= j < src.len() ==> has_key(out, (#[trigger] src[j]).0)
}

pub open spec fn requirement_views(s: Seq<(ResourceId, ResourceRequirement)>) -> Seq<(Seq<char>, ResourceRequirement)> {
    s.map_values(|e: (ResourceId, ResourceRequirement)| (e.0@, e.1))
}

pub open spec fn workspace_views(s: Seq<UnitWorkspaceDescription>) -> Seq<(Seq<char>, usize)> {
    s.map_values(|e: UnitWorkspaceDescription| (e.unit@, e.bytes))
}

pub open spec fn workspace_pair_views(s: Seq<(UnitId, usize)>) -> Seq<(Seq<char>, usize)> {
    s.map_values(|e: (UnitId, usize)| (e.0@, e.1))
}

/// The key views of a list of character vectors.
pub open spec fn key_views(keys: Seq<Vec<char>>) -> Seq<Seq<char>> {
    keys.map_values(|v: Vec<char>| v@)
}

/// Picks, for each distinct key, the index of its last occurrence, and
/// orders the picks by increasing key.
fn canonical_order(keys: &Vec<Vec<char>>) -> (order: Vec<usize>)
    ensures
        forall|t: int| 0 <= t < order@.len() ==> #[trigger] order@[t] < keys@.len() && is_last_index(keys@, order@[t] as int),
        forall|a: int, b: int| 0 <= a < b < order@.len() ==> seq_lt(keys@[#[trigger] order@[a] as int]@, keys@[#[trigger] order@[b] as int]@),
        forall|j: int| 0 <= j < keys@.len() ==> #[trigger] key_covered(keys@, order@, j),
{
    let r = last_entries(keys);
    let mut sub: Vec<Vec<char>> = Vec::new();
    let mut i: usize = 0;
    while i < r.len()
        invariant
            i <= r@.len(),
            sub@.len() == i,
            forall|t: int| 0 <= t < r@.len() ==> #[trigger] r@[t] < keys@.len(),
            forall|t: int| 0 <= t < i ==> (#[trigger] sub@[t])@ == keys@[r@[t] as int]@,
        decreases r@.len() - i,
    {
        sub.push(keys[r[i]].clone());
        i = i + 1;
    }
    let second = empty_keys(sub.len());
    let p = sort_by_keys(&sub, &second);
    let ghost k1 = key_views(sub@);
    let ghost k2 = key_views(second@);
    proof {
        assert(k1 == sub@.map_values(|v: Vec<char>| v@));
        assert(k2 == second@.map_values(|v: Vec<char>| v@));
        assert forall|x: int, y: int| 0 <= x < y < k1.len() implies #[trigger] k1[x] != #[trigger] k1[y] || k2[x] != k2[y] by {
            assert(keys@[r@[x] as int]@ != keys@[r@[y] as int]@);
        }
        lemma_sorted_strict(p@, k1, k2);
    }
    let mut order: Vec<usize> = Vec::new();
    let mut t: usize = 0;
    while t < p.len()
        invariant
            t <= p@.len(),
            p@.len() == r@.len(),
            order@.len() == t,
            is_perm(p@, r@.len() as nat),
            forall|x: int| 0 <= x < t ==> #[trigger] order@[x] == r@[p@[x] as int],
        decreases p@.len() - t,
    {
        order.push(r[p[t]]);
        t = t + 1;
    }
    proof {
        assert forall|a: int, b: int| 0 <= a < b < order@.len() implies seq_lt(keys@[#[trigger] order@[a] as int]@, keys@[#[trigger] order@[b] as int]@) by {
            assert(pair_lt(k1[p@[a] as int], k2[p@[a] as int], k1[p@[b] as int], k2[p@[b] as int]));
            lemma_pair_lt_primary(k1[p@[a] as int], k1[p@[b] as int]);
        }
        assert forall|j: int| 0 <= j < keys@.len() implies #[trigger] key_covered(keys@, order@, j) by {
            assert(key_covered(keys@, r@, j));
            let s = choose|s: int| 0 <= s < r@.len() && (#[trigger] keys@[r@[s] as int])@ == keys@[j]@;
            lemma_perm_onto(p@, s);
            let x = choose|x: int| 0 <= x < p@.len() && p@[x] == s;
            assert(order@[x] == r@[s]);
            assert((keys@[order@[x] as int])@ == (keys@[j])@);
        }
    }
    order
}

/// Every index below `n` occurs in a permutation of `0..n`.
proof fn lemma_perm_onto(p: Seq<usize>, s: int)
    requires
        is_perm(p, p.len()),
        0 <= s < p.len(),
    ensures
        exists|x: int| 0 <= x < p.len() && p[x] == s,
{
    let q = p.map_values(|v: usize| v as int);
    assert(q.no_duplicates()) by {
        assert forall|i: int, j: int| 0 <= i < q.len() && 0 <= j < q.len() && i != j implies q[i] != q[j] by {
            if i < j {
                assert(p[i] != p[j]);
            } else {
                assert(p[j] != p[i]);
            }
        }
    }
    q.unique_seq_to_set();
    if !(exists|x: int| 0 <= x < p.len() && p[x] == s) {
        let range = vstd::set_lib::set_int_range(0, p.len() as int).remove(s);
        vstd::set_lib::lemma_int_range(0, p.len() as int);
        assert forall|v: int| q.to_set().contains(v) implies range.contains(v) by {
            let i = choose|i: int| 0 <= i < q.len() && q[i] == v;
            assert(p[i] < p.len());
        }
        vstd::set_lib::lemma_len_subset(q.to_set(), range);
    }
}
/// Some index of `r` points at a key equal to key `j`.
pub open spec fn key_covered(keys: Seq<Vec<char>>, r: Seq<usize>, j: int) -> bool {
    exists|t: int| 0 <= t < r.len() && (#[trigger] keys[r[t] as int])@ == keys[j]@
}

/// No later key equals key `j`.
pub open spec fn is_last_index(keys: Seq<Vec<char>>, j: int) -> bool {
    forall|u: int| j < u < keys.len() ==> (#[trigger] keys[u])@ != keys[j]@
}

/// Indices of the last entry of each key, in source order.
fn last_entries(keys: &Vec<Vec<char>>) -> (r: Vec<usize>)
    ensures
        forall|t: int| 0 <= t < r@.len() ==> #[trigger] r@[t] < keys@.len() && is_last_index(keys@, r@[t] as int),
        forall|j: int| 0 <= j < keys@.len() ==> #[trigger] key_covered(keys@, r@, j),
        forall|a: int, b: int| 0 <= a < b < r@.len() ==> (#[trigger] keys@[r@[a] as int])@ != (#[trigger] keys@[r@[b] as int])@,
{
    let mut r: Vec<usize> = Vec::new();
    let mut j: usize = 0;
    while j < keys.len()
        invariant
            j <= keys@.len(),
            forall|t: int| 0 <= t < r@.len() ==> #[trigger] r@[t] < j && is_last_index(keys@, r@[t] as int),
            forall|a: int, b: int| 0 <= a < b < r@.len() ==> r@[a] < r@[b],
            forall|x: int| 0 <= x < j && #[trigger] is_last_index(keys@, x) ==> r@.contains(x as usize),
        decreases keys@.len() - j,
    {
        let mut later = false;
        let mut u: usize = j + 1;
        while u < keys.len()
            invariant
                j < u <= keys@.len(),
                !later ==> forall|v: int| j < v < u ==> (#[trigger] keys@[v])@ != keys@[j as int]@,
                later ==> exists|v: int| j < v < keys@.len() && (#[trigger] keys@[v])@ == keys@[j as int]@,
            decreases keys@.len() - u,
        {
            if crate::text::chars_eq(&keys[u], &keys[j]) {
                later = true;
            }
            u = u + 1;
        }
        let ghost old_r = r@;
        if !later {
            r.push(j);
            proof {
                assert(is_last_index(keys@, j as int));
                assert(r@[r@.len() - 1] == j);
            }
        }
        proof {
            assert forall|x: int| 0 <= x < j + 1 && #[trigger] is_last_index(keys@, x) implies r@.contains(x as usize) by {
                if x < j {
                    assert(old_r.contains(x as usize));
                    let t = choose|t: int| 0 <= t < old_r.len() && old_r[t] == x as usize;
                    assert(r@[t] == x as usize);
                } else {
                    assert(!later);
                    assert(r@[r@.len() - 1] == x as usize);
                }
            }
        }
        j = j + 1;
    }
    proof {
        assert forall|x: int| 0 <= x < keys@.len() implies #[trigger] key_covered(keys@, r@, x) by {
            lemma_last_occurrence(keys@, r@, x);
        }
        assert forall|a: int, b: int| 0 <= a < b < r@.len() implies (#[trigger] keys@[r@[a] as int])@ != (#[trigger] keys@[r@[b] as int])@ by {
            assert(r@[a] < r@[b]);
            assert(is_last_index(keys@, r@[a] as int));
        }
    }
    r
}

proof fn lemma_last_occurrence(keys: Seq<Vec<char>>, r: Seq<usize>, x: int)
    requires
        0 <= x < keys.len(),
        keys.len() <= usize::MAX,
        forall|j: int| 0 <= j < keys.len() && #[trigger] is_last_index(keys, j) ==> r.contains(j as usize),
    ensures
        key_covered(keys, r, x),
    decreases keys.len() - x,
{
    if is_last_index(keys, x) {
        assert(r.contains(x as usize));
        let t = choose|t: int| 0 <= t < r.len() && r[t] == x as usize;
        assert(keys[r[t] as int]@ == keys[x]@);
    } else {
        let u = choose|u: int| x < u < keys.len() && (#[trigger] keys[u])@ == keys[x]@;
        lemma_last_occurrence(keys, r, u);
        let t = choose|t: int| 0 <= t < r.len() && (#[trigger] keys[r[t] as int])@ == keys[u]@;
        assert(keys[r[t] as int]@ == keys[x]@);
    }
}

} // verus!
