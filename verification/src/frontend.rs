//! Definition frontend: the schema of a UnitCompose V0 YAML document, its
//! normalization into a parsed Module, and the resolution of declared
//! bounds into Resource requirements, with diagnostics at document paths.

use vstd::prelude::*;

use crate::ids::{ResourceId, SemanticType, UnitId, UnitTypeName};
use crate::inspection::debug_string;
use crate::sort::{empty_keys, is_perm, pair_lt, sort_by_keys};
use crate::text::{chars_of, seq_lt};
use crate::types::{CompiledGraph, ParsedModule, ParsedModuleInput, ParsedUnit, ResolvedBinding, ResolvedModule, ResolvedModuleInput, ResolvedUnit};
use crate::descriptor::ResourceRegistry;
use crate::resolve::{ConfigurationError, UnitRegistry};
use crate::storage::ResourceRequirement;
use crate::yaml_syntax::{parse, ParseLimits};
use crate::yaml_syntax::{scalar_text, NodeKind};

use crate::text::{push_str, text_eq};
use crate::error_text::{compile_error_text, configuration_error_text};
use crate::types::CompileError;
use crate::yaml_syntax::{diagnostic, point_span, Diagnostic, DiagnosticKind, Node, SourceSpan};

verus! {

/// The schema identifier this frontend reads.
pub const SUPPORTED_SCHEMA: &'static str = "unit-compose/v0alpha1";

/// Capacity bounds supplied by the host, per Resource, and by adapters, per
/// semantic type. Each list is a map: the last entry for a key counts.
#[derive(Debug)]
pub struct BoundSources {
    pub host: Vec<(ResourceId, usize)>,
    pub adapters: Vec<(SemanticType, usize)>,
}

impl Default for BoundSources {
    fn default() -> (r: Self)
        ensures
            r.host@.len() == 0,
            r.adapters@.len() == 0,
    {
        BoundSources { host: Vec::new(), adapters: Vec::new() }
    }
}

/// Requirements a Unit's configuration resolves to: a capacity per output
/// port (a map: the last entry for a port counts) and workspace bytes.
#[derive(Debug)]
pub struct UnitRequirements {
    pub output_capacities: Vec<(String, usize)>,
    pub workspace_bytes: usize,
}

/// The value recorded for `key`: that of the last entry naming it.
pub open spec fn last_value<K: View<V = Seq<char>>>(m: Seq<(K, usize)>, key: Seq<char>) -> Option<usize>
    decreases m.len(),
{
    if m.len() == 0 {
        None
    } else if m.last().0@ == key {
        Some(m.last().1)
    } else {
        last_value(m.drop_last(), key)
    }
}

/// The text recorded for `key`: that of the last entry naming it.
pub open spec fn last_text<K: View<V = Seq<char>>>(m: Seq<(K, String)>, key: Seq<char>) -> Option<Seq<char>>
    decreases m.len(),
{
    if m.len() == 0 {
        None
    } else if m.last().0@ == key {
        Some(m.last().1@)
    } else {
        last_text(m.drop_last(), key)
    }
}

/// The span recorded for `key`: that of the last entry naming it.
pub open spec fn last_span(m: Seq<(String, SourceSpan)>, key: Seq<char>) -> Option<SourceSpan>
    decreases m.len(),
{
    if m.len() == 0 {
        None
    } else if m.last().0@ == key {
        Some(m.last().1)
    } else {
        last_span(m.drop_last(), key)
    }
}

fn host_bound(m: &Vec<(ResourceId, usize)>, key: &ResourceId) -> (r: Option<usize>)
    ensures
        r == last_value(m@, key@),
{
    let mut k: usize = m.len();
    proof {
        assert(m@.take(m@.len() as int) =~= m@);
    }
    while k > 0
        invariant
            k <= m@.len(),
            last_value(m@, key@) == last_value(m@.take(k as int), key@),
        decreases k,
    {
        proof {
            assert(m@.take(k as int).drop_last() =~= m@.take(k as int - 1));
        }
        if m[k - 1].0 == *key {
            return Some(m[k - 1].1);
        }
        k = k - 1;
    }
    None
}

fn adapter_bound(m: &Vec<(SemanticType, usize)>, key: &SemanticType) -> (r: Option<usize>)
    ensures
        r == last_value(m@, key@),
{
    let mut k: usize = m.len();
    proof {
        assert(m@.take(m@.len() as int) =~= m@);
    }
    while k > 0
        invariant
            k <= m@.len(),
            last_value(m@, key@) == last_value(m@.take(k as int), key@),
        decreases k,
    {
        proof {
            assert(m@.take(k as int).drop_last() =~= m@.take(k as int - 1));
        }
        if m[k - 1].0 == *key {
            return Some(m[k - 1].1);
        }
        k = k - 1;
    }
    None
}

fn port_capacity(m: &Vec<(String, usize)>, port: &String) -> (r: Option<usize>)
    ensures
        r == last_value(m@, port@),
{
    let mut k: usize = m.len();
    proof {
        assert(m@.take(m@.len() as int) =~= m@);
    }
    while k > 0
        invariant
            k <= m@.len(),
            last_value(m@, port@) == last_value(m@.take(k as int), port@),
        decreases k,
    {
        proof {
            assert(m@.take(k as int).drop_last() =~= m@.take(k as int - 1));
        }
        if text_eq(m[k - 1].0.as_str(), port.as_str()) {
            return Some(m[k - 1].1);
        }
        k = k - 1;
    }
    None
}

impl BoundSources {
    /// The host bound of a Resource.
    pub fn host_bound(&self, resource: &ResourceId) -> (r: Option<usize>)
        ensures
            r == last_value(self.host@, resource@),
    {
        host_bound(&self.host, resource)
    }

    /// The adapter bound of a semantic type.
    pub fn adapter_bound(&self, semantic: &SemanticType) -> (r: Option<usize>)
        ensures
            r == last_value(self.adapters@, semantic@),
    {
        adapter_bound(&self.adapters, semantic)
    }
}

impl UnitRequirements {
    /// The capacity resolved for an output port.
    pub fn output_capacity(&self, port: &String) -> (r: Option<usize>)
        ensures
            r == last_value(self.output_capacities@, port@),
    {
        port_capacity(&self.output_capacities, port)
    }
}

/// Source spans of document paths and the path that produces each Resource.
/// Each list is a map: the last entry for a key counts.
#[derive(Debug)]
pub struct SpanIndex {
    pub paths: Vec<(String, SourceSpan)>,
    pub producers: Vec<(ResourceId, String)>,
}

/// Position of the last dot in `s`, or -1.
pub open spec fn last_dot(s: Seq<char>) -> int
    decreases s.len(),
{
    if s.len() == 0 {
        -1
    } else if s.last() == '.' {
        s.len() - 1
    } else {
        last_dot(s.drop_last())
    }
}

proof fn lemma_last_dot_range(s: Seq<char>)
    ensures
        -1 <= last_dot(s) < s.len(),
        last_dot(s) >= 0 ==> s[last_dot(s)] == '.',
        forall|i: int| last_dot(s) < i < s.len() ==> s[i] != '.',
    decreases s.len(),
{
    if s.len() > 0 && s.last() != '.' {
        lemma_last_dot_range(s.drop_last());
        assert forall|i: int| last_dot(s) < i < s.len() implies s[i] != '.' by {
            if i < s.len() - 1 {
                assert(s.drop_last()[i] == s[i]);
            }
        }
    }
}

/// The span of the nearest recorded ancestor of a dotted path (the path
/// itself first, then its prefixes before each dot from the right); the
/// document start where none is recorded.
pub open spec fn ancestor_span(paths: Seq<(String, SourceSpan)>, path: Seq<char>) -> SourceSpan
    decreases path.len(),
{
    match last_span(paths, path) {
        Some(s) => s,
        None => {
            let d = last_dot(path);
            if 0 <= d < path.len() {
                ancestor_span(paths, path.take(d))
            } else {
                point_span(1, 1, 0)
            }
        },
    }
}

fn span_lookup(paths: &Vec<(String, SourceSpan)>, key: &Vec<char>) -> (r: Option<SourceSpan>)
    ensures
        r == last_span(paths@, key@),
{
    let mut k: usize = paths.len();
    proof {
        assert(paths@.take(paths@.len() as int) =~= paths@);
    }
    while k > 0
        invariant
            k <= paths@.len(),
            last_span(paths@, key@) == last_span(paths@.take(k as int), key@),
        decreases k,
    {
        proof {
            assert(paths@.take(k as int).drop_last() =~= paths@.take(k as int - 1));
        }
        let candidate = crate::text::chars_of(paths[k - 1].0.as_str());
        if crate::text::chars_eq(&candidate, key) {
            return Some(paths[k - 1].1);
        }
        k = k - 1;
    }
    None
}

fn find_last_dot(s: &Vec<char>) -> (r: Option<usize>)
    ensures
        match r {
            Some(i) => i as int == last_dot(s@),
            None => last_dot(s@) == -1,
        },
{
    proof {
        lemma_last_dot_range(s@);
    }
    let mut k: usize = s.len();
    proof {
        assert(s@.take(s@.len() as int) =~= s@);
    }
    while k > 0
        invariant
            k <= s@.len(),
            last_dot(s@) == last_dot(s@.take(k as int)),
        decreases k,
    {
        proof {
            assert(s@.take(k as int).drop_last() =~= s@.take(k as int - 1));
        }
        if s[k - 1] == '.' {
            return Some(k - 1);
        }
        k = k - 1;
    }
    proof {
        assert(s@.take(0) =~= Seq::<char>::empty());
    }
    None
}

impl SpanIndex {
    /// An empty index.
    pub fn new() -> (r: Self)
        ensures
            r.paths@.len() == 0,
            r.producers@.len() == 0,
    {
        SpanIndex { paths: Vec::new(), producers: Vec::new() }
    }

    /// A diagnostic at `path`, located at the span of its nearest recorded
    /// ancestor.
    pub fn at(&self, kind: DiagnosticKind, path: String, message: String) -> (r: Diagnostic)
        ensures
            r.kind == kind,
            r.path == path,
            r.message == message,
            r.span == ancestor_span(self.paths@, path@),
    {
        let mut ancestor = crate::text::chars_of(path.as_str());
        let mut span = SourceSpan::point(1, 1, 0);
        let mut searching = true;
        while searching
            invariant
                searching ==> ancestor_span(self.paths@, ancestor@) == ancestor_span(self.paths@, path@),
                !searching ==> span == ancestor_span(self.paths@, path@),
                searching ==> span == point_span(1, 1, 0),
            decreases ancestor@.len() + if searching { 1int } else { 0int },
        {
            match span_lookup(&self.paths, &ancestor) {
                Some(s) => {
                    span = s;
                    searching = false;
                    proof {
                        assert(ancestor_span(self.paths@, ancestor@) == s);
                    }
                },
                None => {
                    match find_last_dot(&ancestor) {
                        None => {
                            searching = false;
                            proof {
                                assert(ancestor_span(self.paths@, ancestor@) == point_span(1, 1, 0));
                            }
                        },
                        Some(d) => {
                            proof {
                                lemma_last_dot_range(ancestor@);
                            }
                            let mut shorter: Vec<char> = Vec::new();
                            let mut i: usize = 0;
                            while i < d
                                invariant
                                    i <= d,
                                    d < ancestor@.len(),
                                    shorter@ == ancestor@.take(i as int),
                                decreases d - i,
                            {
                                shorter.push(ancestor[i]);
                                proof {
                                    assert(ancestor@.take(i as int + 1) =~= ancestor@.take(i as int).push(ancestor@[i as int]));
                                }
                                i = i + 1;
                            }
                            proof {
                                assert(ancestor_span(self.paths@, ancestor@) == ancestor_span(self.paths@, shorter@));
                            }
                            ancestor = shorter;
                        },
                    }
                },
            }
        }
        Diagnostic::new(kind, path, span, message)
    }
}

/// The kind and document path at which a graph error is reported.
pub open spec fn graph_error_site(producers: Seq<(ResourceId, String)>, e: CompileError) -> (DiagnosticKind, Seq<char>) {
    match e {
        CompileError::UnknownUnitType { unit, .. } => (DiagnosticKind::UnknownUnit, "$.units."@ + unit@ + ".type"@),
        CompileError::MissingPort { unit, port, input, .. } => (
            DiagnosticKind::MissingPort,
            "$.units."@ + unit@ + (if input {
                ".inputs."@
            } else {
                ".outputs."@
            }) + port@,
        ),
        CompileError::DuplicateProducer { resource, .. } => (DiagnosticKind::DuplicateProducer, match last_text(producers, resource@) {
            Some(p) => p,
            None => "$"@,
        }),
        CompileError::SemanticTypeMismatch { unit, port, .. } => (DiagnosticKind::TypeMismatch, "$.units."@ + unit@ + ".inputs."@ + port@),
        CompileError::ConcreteBindingMismatch { unit, port, .. } => (DiagnosticKind::TypeMismatch, "$.units."@ + unit@ + ".inputs."@ + port@),
        CompileError::ConcreteTypeMismatch { unit, port, .. } => (DiagnosticKind::TypeMismatch, "$.units."@ + unit@ + ".inputs."@ + port@),
        CompileError::Cycle { path } => (DiagnosticKind::Cycle, if path@.len() > 0 {
            "$.units."@ + path@[0]@
        } else {
            "$"@
        }),
        CompileError::UnknownResource { unit, port, .. } => (DiagnosticKind::Graph, "$.units."@ + unit@ + ".inputs."@ + port@),
        CompileError::UnknownModuleOutput { resource } => (DiagnosticKind::Graph, "$.outputs."@ + resource@),
        _ => (DiagnosticKind::Graph, "$"@),
    }
}

fn producer_path(producers: &Vec<(ResourceId, String)>, resource: &ResourceId) -> (r: String)
    ensures
        r@ == match last_text(producers@, resource@) {
            Some(p) => p,
            None => "$"@,
        },
{
    let mut k: usize = producers.len();
    proof {
        assert(producers@.take(producers@.len() as int) =~= producers@);
    }
    while k > 0
        invariant
            k <= producers@.len(),
            last_text(producers@, resource@) == last_text(producers@.take(k as int), resource@),
        decreases k,
    {
        proof {
            assert(producers@.take(k as int).drop_last() =~= producers@.take(k as int - 1));
        }
        if producers[k - 1].0 == *resource {
            return producers[k - 1].1.clone();
        }
        k = k - 1;
    }
    let mut p = String::new();
    push_str(&mut p, "$");
    p
}

fn text3(a: &str, b: &str, c: &str) -> (r: String)
    ensures
        r@ == a@ + b@ + c@,
{
    let mut out = String::new();
    push_str(&mut out, a);
    push_str(&mut out, b);
    push_str(&mut out, c);
    out
}

fn unit_port_path(unit: &UnitId, middle: &str, port: &String) -> (r: String)
    ensures
        r@ == "$.units."@ + unit@ + middle@ + port@,
{
    let mut out = text3("$.units.", unit.as_str(), middle);
    push_str(&mut out, port.as_str());
    out
}

impl SpanIndex {
    /// The diagnostic for a Resource without any bound, at the path that
    /// produces it.
    pub fn unresolved_bound(&self, resource: &ResourceId) -> (r: Diagnostic)
        ensures
            r.kind == DiagnosticKind::UnresolvedBound,
            r.path@ == match last_text(self.producers@, resource@) {
                Some(p) => p,
                None => "$"@,
            },
            r.span == ancestor_span(self.paths@, r.path@),
            r.message@ == "no configuration, adapter, or host bound for "@ + resource@,
    {
        let path = producer_path(&self.producers, resource);
        let mut message = String::new();
        push_str(&mut message, "no configuration, adapter, or host bound for ");
        push_str(&mut message, resource.as_str());
        self.at(DiagnosticKind::UnresolvedBound, path, message)
    }

    /// The diagnostic for a graph error, at the document path of its cause.
    pub fn graph_error(&self, error: CompileError) -> (r: Diagnostic)
        ensures
            (r.kind, r.path@) == graph_error_site(self.producers@, error),
            r.span == ancestor_span(self.paths@, r.path@),
    {
        let message = compile_error_text(&error);
        let ghost site = graph_error_site(self.producers@, error);
        let (kind, path) = match &error {
            CompileError::UnknownUnitType { unit, .. } => (DiagnosticKind::UnknownUnit, text3("$.units.", unit.as_str(), ".type")),
            CompileError::MissingPort { unit, port, input, .. } => {
                let middle = if *input {
                    ".inputs."
                } else {
                    ".outputs."
                };
                (DiagnosticKind::MissingPort, unit_port_path(unit, middle, port))
            },
            CompileError::DuplicateProducer { resource, .. } => (DiagnosticKind::DuplicateProducer, producer_path(&self.producers, resource)),
            CompileError::SemanticTypeMismatch { unit, port, .. } => (DiagnosticKind::TypeMismatch, unit_port_path(unit, ".inputs.", port)),
            CompileError::ConcreteBindingMismatch { unit, port, .. } => (DiagnosticKind::TypeMismatch, unit_port_path(unit, ".inputs.", port)),
            CompileError::ConcreteTypeMismatch { unit, port, .. } => (DiagnosticKind::TypeMismatch, unit_port_path(unit, ".inputs.", port)),
            CompileError::Cycle { path } => {
                if path.len() > 0 {
                    (DiagnosticKind::Cycle, text3("$.units.", path[0].as_str(), ""))
                } else {
                    (DiagnosticKind::Cycle, text3("$", "", ""))
                }
            },
            CompileError::UnknownResource { unit, port, .. } => (DiagnosticKind::Graph, unit_port_path(unit, ".inputs.", port)),
            CompileError::UnknownModuleOutput { resource } => (DiagnosticKind::Graph, text3("$.outputs.", resource.as_str(), "")),
            _ => (DiagnosticKind::Graph, text3("$", "", "")),
        };
        proof {
            reveal_strlit("");
            reveal_strlit("$");
        }
        self.at(kind, path, message)
    }
}

/// Entry `i` is the first whose key is the string `field`.
pub open spec fn field_index(es: Seq<(Node, Node)>, field: Seq<char>, i: int) -> bool {
    &&& 0 <= i < es.len()
    &&& scalar_text(es[i].0) == Some(field)
    &&& forall|j: int| 0 <= j < i ==> scalar_text(#[trigger] es[j].0) != Some(field)
}

/// Some entry has the string key `field`.
pub open spec fn has_field(es: Seq<(Node, Node)>, field: Seq<char>) -> bool {
    exists|i: int| 0 <= i < es.len() && scalar_text(#[trigger] es[i].0) == Some(field)
}

/// The value of the first entry keyed `field`.
pub open spec fn field_value(es: Seq<(Node, Node)>, field: Seq<char>) -> Node {
    es[choose|i: int| field_index(es, field, i)].1
}

/// The value of the first entry whose key is `field`.
pub fn optional<'a>(entries: &'a Vec<(Node, Node)>, field: &str) -> (r: Option<&'a Node>)
    ensures
        r is Some <==> has_field(entries@, field@),
        r matches Some(v) ==> *v == field_value(entries@, field@),
{
    let key = chars_of(field);
    let mut i: usize = 0;
    while i < entries.len()
        invariant
            i <= entries@.len(),
            key@ == field@,
            forall|j: int| 0 <= j < i ==> scalar_text(#[trigger] entries@[j].0) != Some(field@),
        decreases entries@.len() - i,
    {
        if key_text_is(&entries[i].0, &key) {
            proof {
                assert(field_index(entries@, field@, i as int));
                let c = choose|c: int| field_index(entries@, field@, c);
                if c < i {
                } else if c > i {
                    assert(scalar_text(entries@[i as int].0) != Some(field@));
                }
            }
            return Some(&entries[i].1);
        }
        i = i + 1;
    }
    None
}

fn key_text_is(key: &Node, field: &Vec<char>) -> (r: bool)
    ensures
        r == (scalar_text(*key) == Some(field@)),
{
    match &key.kind {
        crate::yaml_syntax::NodeKind::Scalar(crate::yaml_syntax::ScalarValue::String(value)) => {
            let text = chars_of(value.as_str());
            crate::text::chars_eq(&text, field)
        },
        _ => false,
    }
}

/// The entries of a mapping node.
pub fn expect_mapping<'a>(node: &'a Node, path: &str, label: &str) -> (r: Result<&'a Vec<(Node, Node)>, Diagnostic>)
    ensures
        r is Ok <==> node.kind is Mapping,
        r matches Ok(es) ==> node.kind == NodeKind::Mapping(*es),
        r matches Err(d) ==> d.kind == DiagnosticKind::InvalidField && d.path@ == path@ && d.span == node.span && d.message@
            == label@ + " must be a mapping"@,
{
    match node.mapping() {
        Some(es) => Ok(es),
        None => {
            let message = text3(label, " must be a mapping", "");
            proof {
                reveal_strlit("");
            }
            let mut p = String::new();
            push_str(&mut p, path);
            Err(Diagnostic::new(DiagnosticKind::InvalidField, p, node.span, message))
        },
    }
}

/// The text of a string scalar node.
pub fn expect_string(node: &Node, path: &str, label: &str) -> (r: Result<String, Diagnostic>)
    ensures
        r is Ok <==> scalar_text(*node) is Some,
        r matches Ok(t) ==> Some(t@) == scalar_text(*node),
        r matches Err(d) ==> d.kind == DiagnosticKind::InvalidField && d.path@ == path@ && d.span == node.span && d.message@
            == label@ + " must be a string"@,
{
    match node.as_string() {
        Some(t) => Ok(t),
        None => {
            let message = text3(label, " must be a string", "");
            proof {
                reveal_strlit("");
            }
            let mut p = String::new();
            push_str(&mut p, path);
            Err(Diagnostic::new(DiagnosticKind::InvalidField, p, node.span, message))
        },
    }
}

/// Every key is a string among `allowed`.
pub open spec fn keys_allowed(es: Seq<(Node, Node)>, allowed: Seq<&str>) -> bool {
    forall|i: int|
        0 <= i < es.len() ==> scalar_text(#[trigger] es[i].0) is Some && exists|a: int|
            0 <= a < allowed.len() && allowed[a]@ == scalar_text(es[i].0)->0
}

fn allowed_contains(allowed: &[&str], name: &String) -> (r: bool)
    ensures
        r == exists|a: int| 0 <= a < allowed@.len() && (#[trigger] allowed@[a])@ == name@,
{
    let mut a: usize = 0;
    while a < allowed.len()
        invariant
            a <= allowed@.len(),
            forall|t: int| 0 <= t < a ==> (#[trigger] allowed@[t])@ != name@,
        decreases allowed@.len() - a,
    {
        if text_eq(allowed[a], name.as_str()) {
            return true;
        }
        a = a + 1;
    }
    false
}

/// Rejects a field name outside `allowed`, in entry order.
pub fn reject_unknown(entries: &Vec<(Node, Node)>, path: &str, allowed: &[&str]) -> (r: Result<(), Diagnostic>)
    ensures
        r is Ok <==> keys_allowed(entries@, allowed@),
        r matches Err(d) ==> d.kind == DiagnosticKind::InvalidField || d.kind == DiagnosticKind::UnknownField,
{
    let mut i: usize = 0;
    while i < entries.len()
        invariant
            i <= entries@.len(),
            forall|t: int|
                0 <= t < i ==> scalar_text(#[trigger] entries@[t].0) is Some && exists|a: int|
                    0 <= a < allowed@.len() && allowed@[a]@ == scalar_text(entries@[t].0)->0,
        decreases entries@.len() - i,
    {
        let key = &entries[i].0;
        let name = expect_string(key, path, "field name")?;
        if !allowed_contains(allowed, &name) {
            let child = text3(path, ".", name.as_str());
            let mut message = String::new();
            push_str(&mut message, "unknown field ");
            let quoted = debug_string(name.as_str());
            push_str(&mut message, quoted.as_str());
            proof {
                assert(!(exists|a: int| 0 <= a < allowed@.len() && allowed@[a]@ == scalar_text(entries@[i as int].0)->0));
            }
            return Err(Diagnostic::new(DiagnosticKind::UnknownField, child, key.span, message));
        }
        i = i + 1;
    }
    Ok(())
}

/// The value of the required field `field`, whose span is recorded at
/// `path.field`.
pub fn required<'a>(entries: &'a Vec<(Node, Node)>, path: &str, field: &str, spans: &mut SpanIndex) -> (r: Result<&'a Node, Diagnostic>)
    ensures
        r is Ok <==> has_field(entries@, field@),
        r matches Ok(v) ==> *v == field_value(entries@, field@) && final(spans).paths@ == old(spans).paths@.push(
            (final(spans).paths@.last().0, v.span),
        ) && final(spans).paths@.last().0@ == path@ + "."@ + field@ && final(spans).producers@ == old(spans).producers@,
        r matches Err(d) ==> d.kind == DiagnosticKind::MissingField && d.path@ == path@ + "."@ + field@ && *final(spans) == *old(
            spans,
        ),
{
    let child = text3(path, ".", field);
    match optional(entries, field) {
        Some(value) => {
            spans.paths.push((child, value.span));
            Ok(value)
        },
        None => {
            let span = if entries.len() > 0 {
                entries[0].1.span
            } else {
                SourceSpan::point(1, 1, 0)
            };
            let mut message = String::new();
            push_str(&mut message, "missing required field ");
            let quoted = debug_string(field);
            push_str(&mut message, quoted.as_str());
            Err(Diagnostic::new(DiagnosticKind::MissingField, child, span, message))
        },
    }
}

/// The text of the required string field `field`.
pub fn required_string(entries: &Vec<(Node, Node)>, path: &str, field: &str, spans: &mut SpanIndex) -> (r: Result<String, Diagnostic>)
    ensures
        r is Ok <==> has_field(entries@, field@) && scalar_text(field_value(entries@, field@)) is Some,
        r matches Ok(t) ==> Some(t@) == scalar_text(field_value(entries@, field@)),
        r matches Err(d) ==> d.kind == DiagnosticKind::MissingField || d.kind == DiagnosticKind::InvalidField,
        final(spans).producers@ == old(spans).producers@,
{
    let value = required(entries, path, field, spans)?;
    let child = text3(path, ".", field);
    expect_string(value, child.as_str(), field)
}

/// A semantic type declared at `path`.
fn semantic_type(value: String, spans: &SpanIndex, path: String) -> (r: Result<SemanticType, Diagnostic>)
    ensures
        r is Ok <==> crate::ids::valid_semantic_type(value@),
        r matches Ok(t) ==> t@ == value@,
        r matches Err(d) ==> d.kind == DiagnosticKind::InvalidField && d.path == path,
{
    match SemanticType::new(value.as_str()) {
        Ok(t) => Ok(t),
        Err(_) => {
            let mut message = String::new();
            push_str(&mut message, "InvalidSemanticType(");
            let quoted = debug_string(value.as_str());
            push_str(&mut message, quoted.as_str());
            push_str(&mut message, ")");
            Err(spans.at(DiagnosticKind::InvalidField, path, message))
        },
    }
}

/// The key text of entry `i`.
pub open spec fn key_text(es: Seq<(Node, Node)>, i: int) -> Seq<char> {
    scalar_text(es[i].0)->0
}

/// The value text of entry `i`.
pub open spec fn value_text(es: Seq<(Node, Node)>, i: int) -> Seq<char> {
    scalar_text(es[i].1)->0
}

/// Port bindings of a mapping: string keys and string values, listed in
/// increasing (port, Resource) order.
pub open spec fn bindings_of(es: Seq<(Node, Node)>, out: Seq<(String, ResourceId)>) -> bool {
    &&& out.len() == es.len()
    &&& forall|i: int| 0 <= i < es.len() ==> scalar_text(#[trigger] es[i].0) is Some && scalar_text(es[i].1) is Some
    &&& exists|p: Seq<usize>|
        is_perm(p, es.len()) && (forall|k: int|
            0 <= k < out.len() ==> (#[trigger] out[k]).0@ == key_text(es, p[k] as int) && out[k].1@ == value_text(es, p[k] as int))
    &&& forall|a: int, b: int| 0 <= a < b < out.len() ==> !pair_lt((#[trigger] out[b]).0@, out[b].1@, (#[trigger] out[a]).0@, out[a].1@)
}

/// Collects the port bindings of a mapping, recording each value's span at
/// `path.port` and, for outputs, the producing path of each Resource.
pub fn normalize_bindings(node: &Node, path: &str, spans: &mut SpanIndex, producer: bool) -> (r: Result<Vec<(String, ResourceId)>, Diagnostic>)
    ensures
        r matches Ok(out) ==> node.kind is Mapping && bindings_of(node.kind->Mapping_0@, out@),
        r matches Err(d) ==> d.kind == DiagnosticKind::InvalidField,
{
    let entries = expect_mapping(node, path, "port bindings")?;
    let mut bindings: Vec<(String, ResourceId)> = Vec::new();
    let mut k1: Vec<Vec<char>> = Vec::new();
    let mut k2: Vec<Vec<char>> = Vec::new();
    let mut i: usize = 0;
    while i < entries.len()
        invariant
            i <= entries@.len(),
            bindings@.len() == i,
            k1@.len() == i,
            k2@.len() == i,
            forall|t: int| 0 <= t < i ==> scalar_text(#[trigger] entries@[t].0) is Some && scalar_text(entries@[t].1) is Some,
            forall|t: int| 0 <= t < i ==> (#[trigger] bindings@[t]).0@ == key_text(entries@, t) && bindings@[t].1@ == value_text(entries@, t),
            forall|t: int| 0 <= t < i ==> (#[trigger] k1@[t])@ == key_text(entries@, t) && k2@[t]@ == value_text(entries@, t),
        decreases entries@.len() - i,
    {
        let port = expect_string(&entries[i].0, path, "port name")?;
        let child = text3(path, ".", port.as_str());
        let resource = expect_string(&entries[i].1, child.as_str(), "Resource name")?;
        spans.paths.push((text3(path, ".", port.as_str()), entries[i].1.span));
        if producer {
            spans.producers.push((ResourceId::new(resource.as_str()), child));
        }
        k1.push(chars_of(port.as_str()));
        k2.push(chars_of(resource.as_str()));
        bindings.push((port, ResourceId::new(resource.as_str())));
        i = i + 1;
    }
    let p = sort_by_keys(&k1, &k2);
    let ghost s1 = k1@.map_values(|v: Vec<char>| v@);
    let ghost s2 = k2@.map_values(|v: Vec<char>| v@);
    let mut out: Vec<(String, ResourceId)> = Vec::new();
    let mut k: usize = 0;
    while k < p.len()
        invariant
            k <= p@.len(),
            p@.len() == bindings@.len(),
            is_perm(p@, bindings@.len() as nat),
            out@.len() == k,
            forall|t: int| 0 <= t < k ==> (#[trigger] out@[t]).0@ == bindings@[p@[t] as int].0@ && out@[t].1@ == bindings@[p@[t] as int].1@,
        decreases p@.len() - k,
    {
        let b = &bindings[p[k]];
        out.push((b.0.clone(), b.1.clone()));
        k = k + 1;
    }
    proof {
        assert forall|x: int| 0 <= x < out@.len() implies (#[trigger] out@[x]).0@ == key_text(entries@, p@[x] as int) && out@[x].1@ == value_text(entries@, p@[x] as int) by {
            assert(bindings@[p@[x] as int].0@ == key_text(entries@, p@[x] as int));
        }
        assert forall|a: int, b: int| 0 <= a < b < out@.len() implies !pair_lt((#[trigger] out@[b]).0@, out@[b].1@, (#[trigger] out@[a]).0@, out@[a].1@) by {
            assert(s1[p@[a] as int] == k1@[p@[a] as int]@);
            assert(s1[p@[b] as int] == k1@[p@[b] as int]@);
            assert(s2[p@[a] as int] == k2@[p@[a] as int]@);
            assert(s2[p@[b] as int] == k2@[p@[b] as int]@);
        }
    }
    Ok(out)
}

/// Module outputs: string values of a mapping, listed in increasing order.
pub open spec fn outputs_of(es: Seq<(Node, Node)>, out: Seq<ResourceId>) -> bool {
    &&& out.len() == es.len()
    &&& forall|i: int| 0 <= i < es.len() ==> scalar_text(#[trigger] es[i].0) is Some && scalar_text(es[i].1) is Some
    &&& exists|p: Seq<usize>| is_perm(p, es.len()) && (forall|k: int| 0 <= k < out.len() ==> (#[trigger] out[k])@ == value_text(es, p[k] as int))
    &&& forall|a: int, b: int| 0 <= a < b < out.len() ==> !seq_lt((#[trigger] out[b])@, (#[trigger] out[a])@)
}

/// Collects the Module outputs, recording each value's span.
pub fn normalize_outputs(node: &Node, spans: &mut SpanIndex) -> (r: Result<Vec<ResourceId>, Diagnostic>)
    ensures
        r matches Ok(out) ==> node.kind is Mapping && outputs_of(node.kind->Mapping_0@, out@),
        r matches Err(d) ==> d.kind == DiagnosticKind::InvalidField,
        final(spans).producers@ == old(spans).producers@,
{
    let entries = expect_mapping(node, "$.outputs", "outputs")?;
    let mut outputs: Vec<ResourceId> = Vec::new();
    let mut k1: Vec<Vec<char>> = Vec::new();
    let mut i: usize = 0;
    while i < entries.len()
        invariant
            i <= entries@.len(),
            outputs@.len() == i,
            k1@.len() == i,
            spans.producers@ == old(spans).producers@,
            forall|t: int| 0 <= t < i ==> scalar_text(#[trigger] entries@[t].0) is Some && scalar_text(entries@[t].1) is Some,
            forall|t: int| 0 <= t < i ==> (#[trigger] outputs@[t])@ == value_text(entries@, t) && k1@[t]@ == value_text(entries@, t),
        decreases entries@.len() - i,
    {
        let name = expect_string(&entries[i].0, "$.outputs", "output name")?;
        let path = text3("$.outputs.", name.as_str(), "");
        proof {
            reveal_strlit("");
        }
        spans.paths.push((text3("$.outputs.", name.as_str(), ""), entries[i].1.span));
        let resource = expect_string(&entries[i].1, path.as_str(), "Resource name")?;
        k1.push(chars_of(resource.as_str()));
        outputs.push(ResourceId::new(resource.as_str()));
        i = i + 1;
    }
    let k2 = empty_keys(k1.len());
    let p = sort_by_keys(&k1, &k2);
    let ghost s1 = k1@.map_values(|v: Vec<char>| v@);
    let ghost s2 = k2@.map_values(|v: Vec<char>| v@);
    let mut out: Vec<ResourceId> = Vec::new();
    let mut k: usize = 0;
    while k < p.len()
        invariant
            k <= p@.len(),
            p@.len() == outputs@.len(),
            is_perm(p@, outputs@.len() as nat),
            out@.len() == k,
            forall|t: int| 0 <= t < k ==> (#[trigger] out@[t])@ == outputs@[p@[t] as int]@,
        decreases p@.len() - k,
    {
        out.push(outputs[p[k]].clone());
        k = k + 1;
    }
    proof {
        assert forall|x: int| 0 <= x < out@.len() implies (#[trigger] out@[x])@ == value_text(entries@, p@[x] as int) by {
            assert(outputs@[p@[x] as int]@ == value_text(entries@, p@[x] as int));
        }
        assert forall|a: int, b: int| 0 <= a < b < out@.len() implies !seq_lt((#[trigger] out@[b])@, (#[trigger] out@[a])@) by {
            assert(!pair_lt(s1[p@[b] as int], s2[p@[b] as int], s1[p@[a] as int], s2[p@[a] as int]));
            assert(s1[p@[a] as int] == k1@[p@[a] as int]@);
            assert(s1[p@[b] as int] == k1@[p@[b] as int]@);
            crate::sort::lemma_pair_lt_primary(s1[p@[b] as int], s1[p@[a] as int]);
        }
    }
    Ok(out)
}

/// The text of the string field `field` of a mapping node.
pub open spec fn field_text(n: Node, field: Seq<char>) -> Seq<char> {
    scalar_text(field_value(n.kind->Mapping_0@, field))->0
}

/// Module inputs: one per entry, keyed by Resource name with a `type`
/// field, listed in increasing Resource order.
pub open spec fn inputs_of(es: Seq<(Node, Node)>, out: Seq<ParsedModuleInput>) -> bool {
    &&& out.len() == es.len()
    &&& exists|p: Seq<usize>|
        is_perm(p, es.len()) && (forall|k: int|
            0 <= k < out.len() ==> (#[trigger] out[k]).resource@ == key_text(es, p[k] as int) && out[k].semantic_type@ == field_text(
                es[p[k] as int].1,
                "type"@,
            ))
    &&& forall|a: int, b: int| 0 <= a < b < out.len() ==> !seq_lt((#[trigger] out[b]).resource@, (#[trigger] out[a]).resource@)
}

/// Collects the Module inputs, recording each declaration's span and
/// producing path.
pub fn normalize_inputs(node: &Node, spans: &mut SpanIndex) -> (r: Result<Vec<ParsedModuleInput>, Diagnostic>)
    ensures
        r matches Ok(out) ==> node.kind is Mapping && inputs_of(node.kind->Mapping_0@, out@),
        r matches Err(d) ==> d.kind == DiagnosticKind::InvalidField || d.kind == DiagnosticKind::UnknownField || d.kind
            == DiagnosticKind::MissingField,
{
    let entries = expect_mapping(node, "$.inputs", "inputs")?;
    let mut inputs: Vec<ParsedModuleInput> = Vec::new();
    let mut k1: Vec<Vec<char>> = Vec::new();
    let allowed: Vec<&str> = vec!["type"];
    let mut i: usize = 0;
    while i < entries.len()
        invariant
            i <= entries@.len(),
            inputs@.len() == i,
            k1@.len() == i,
            allowed@.len() == 1,
            forall|t: int| 0 <= t < i ==> scalar_text(#[trigger] entries@[t].0) is Some && entries@[t].1.kind is Mapping,
            forall|t: int| 0 <= t < i ==> (#[trigger] inputs@[t]).resource@ == key_text(entries@, t),
            forall|t: int| 0 <= t < i ==> (#[trigger] inputs@[t]).semantic_type@ == field_text(entries@[t].1, "type"@),
            forall|t: int| 0 <= t < i ==> (#[trigger] k1@[t])@ == key_text(entries@, t),
        decreases entries@.len() - i,
    {
        let resource = expect_string(&entries[i].0, "$.inputs", "input name")?;
        let path = text3("$.inputs.", resource.as_str(), "");
        proof {
            reveal_strlit("");
        }
        spans.paths.push((text3("$.inputs.", resource.as_str(), ""), entries[i].1.span));
        spans.producers.push((ResourceId::new(resource.as_str()), text3("$.inputs.", resource.as_str(), "")));
        let fields = expect_mapping(&entries[i].1, path.as_str(), "input declaration")?;
        reject_unknown(fields, path.as_str(), allowed.as_slice())?;
        let text = required_string(fields, path.as_str(), "type", spans)?;
        let ghost text_view = text@;
        let semantic = semantic_type(text, spans, text3(path.as_str(), ".type", ""))?;
        proof {
            assert(entries@[i as int].1.kind->Mapping_0@ == fields@);
            assert(Some(text_view) == scalar_text(field_value(fields@, "type"@)));
            assert(semantic@ == field_text(entries@[i as int].1, "type"@));
        }
        k1.push(chars_of(resource.as_str()));
        inputs.push(ParsedModuleInput { resource: ResourceId::new(resource.as_str()), semantic_type: semantic });
        proof {
            assert(scalar_text(entries@[i as int].0) is Some);
            assert(entries@[i as int].1.kind is Mapping);
            assert(inputs@[i as int].resource@ == key_text(entries@, i as int));
            assert(inputs@[i as int].semantic_type@ == field_text(entries@[i as int].1, "type"@));
            assert(k1@[i as int]@ == key_text(entries@, i as int));
        }
        i = i + 1;
    }
    let k2 = empty_keys(k1.len());
    let p = sort_by_keys(&k1, &k2);
    let ghost s1 = k1@.map_values(|v: Vec<char>| v@);
    let ghost s2 = k2@.map_values(|v: Vec<char>| v@);
    let mut out: Vec<ParsedModuleInput> = Vec::new();
    let mut k: usize = 0;
    while k < p.len()
        invariant
            k <= p@.len(),
            p@.len() == inputs@.len(),
            is_perm(p@, inputs@.len() as nat),
            out@.len() == k,
            forall|t: int|
                0 <= t < k ==> (#[trigger] out@[t]).resource@ == inputs@[p@[t] as int].resource@ && out@[t].semantic_type@
                    == inputs@[p@[t] as int].semantic_type@,
        decreases p@.len() - k,
    {
        let x = &inputs[p[k]];
        out.push(ParsedModuleInput { resource: x.resource.clone(), semantic_type: x.semantic_type.clone() });
        k = k + 1;
    }
    proof {
        assert forall|x: int| 0 <= x < out@.len() implies (#[trigger] out@[x]).resource@ == key_text(entries@, p@[x] as int)
            && out@[x].semantic_type@ == field_text(entries@[p@[x] as int].1, "type"@) by {
            assert(inputs@[p@[x] as int].resource@ == key_text(entries@, p@[x] as int));
        }
        assert forall|a: int, b: int| 0 <= a < b < out@.len() implies !seq_lt((#[trigger] out@[b]).resource@, (#[trigger] out@[a]).resource@) by {
            assert(!pair_lt(s1[p@[b] as int], s2[p@[b] as int], s1[p@[a] as int], s2[p@[a] as int]));
            assert(s1[p@[a] as int] == k1@[p@[a] as int]@);
            assert(s1[p@[b] as int] == k1@[p@[b] as int]@);
            crate::sort::lemma_pair_lt_primary(s1[p@[b] as int], s1[p@[a] as int]);
        }
    }
    Ok(out)
}

/// A Unit's configuration node, or the span at which an empty
/// configuration stands in for a missing one.
pub struct ConfigSource<'a> {
    pub unit: UnitId,
    pub node: Option<&'a Node>,
    pub span: SourceSpan,
}

/// The bindings of the mapping field `field` of a Unit declaration, a
/// mapping that has that field.
pub open spec fn declared_bindings(decl: Node, field: Seq<char>, out: Seq<(String, ResourceId)>) -> bool {
    let v = field_value(decl.kind->Mapping_0@, field);
    &&& decl.kind is Mapping
    &&& has_field(decl.kind->Mapping_0@, field)
    &&& v.kind is Mapping
    &&& bindings_of(v.kind->Mapping_0@, out)
}

/// Units: one per entry, keyed by Unit id, with `type`, `inputs` and
/// `outputs` fields, listed in increasing id order.
pub open spec fn units_of(es: Seq<(Node, Node)>, out: Seq<ParsedUnit>) -> bool {
    &&& out.len() == es.len()
    &&& exists|p: Seq<usize>|
        is_perm(p, es.len()) && (forall|k: int|
            0 <= k < out.len() ==> (#[trigger] out[k]).id@ == key_text(es, p[k] as int) && out[k].unit_type@ == field_text(
                es[p[k] as int].1,
                "type"@,
            ) && declared_bindings(es[p[k] as int].1, "inputs"@, out[k].inputs@) && declared_bindings(
                es[p[k] as int].1,
                "outputs"@,
                out[k].outputs@,
            ))
    &&& forall|a: int, b: int| 0 <= a < b < out.len() ==> !seq_lt((#[trigger] out[b]).id@, (#[trigger] out[a]).id@)
}

/// The configuration sources of the Unit declarations, in source order.
pub open spec fn configs_of<'a>(es: Seq<(Node, Node)>, out: Seq<ConfigSource<'a>>) -> bool {
    &&& out.len() == es.len()
    &&& forall|t: int|
        0 <= t < out.len() ==> (#[trigger] out[t]).unit@ == key_text(es, t) && out[t].span == es[t].1.span && (if has_field(
            es[t].1.kind->Mapping_0@,
            "config"@,
        ) {
            out[t].node == Some(&field_value(es[t].1.kind->Mapping_0@, "config"@))
        } else {
            out[t].node is None
        })
}

fn copy_bindings(v: &Vec<(String, ResourceId)>) -> (r: Vec<(String, ResourceId)>)
    ensures
        r@.len() == v@.len(),
        forall|k: int| 0 <= k < v@.len() ==> (#[trigger] r@[k]).0@ == v@[k].0@ && r@[k].1@ == v@[k].1@,
{
    let mut r: Vec<(String, ResourceId)> = Vec::new();
    let mut k: usize = 0;
    while k < v.len()
        invariant
            k <= v@.len(),
            r@.len() == k,
            forall|t: int| 0 <= t < k ==> (#[trigger] r@[t]).0@ == v@[t].0@ && r@[t].1@ == v@[t].1@,
        decreases v@.len() - k,
    {
        r.push((v[k].0.clone(), v[k].1.clone()));
        k = k + 1;
    }
    r
}

proof fn lemma_bindings_of_views(es: Seq<(Node, Node)>, a: Seq<(String, ResourceId)>, b: Seq<(String, ResourceId)>)
    requires
        bindings_of(es, a),
        a.len() == b.len(),
        forall|k: int| 0 <= k < a.len() ==> (#[trigger] b[k]).0@ == a[k].0@ && b[k].1@ == a[k].1@,
    ensures
        bindings_of(es, b),
{
    let p = choose|p: Seq<usize>|
        is_perm(p, es.len()) && (forall|k: int|
            0 <= k < a.len() ==> (#[trigger] a[k]).0@ == key_text(es, p[k] as int) && a[k].1@ == value_text(es, p[k] as int));
    assert forall|k: int| 0 <= k < b.len() implies (#[trigger] b[k]).0@ == key_text(es, p[k] as int) && b[k].1@ == value_text(es, p[k] as int) by {
        assert(a[k].0@ == key_text(es, p[k] as int));
    }
    assert forall|x: int, y: int| 0 <= x < y < b.len() implies !pair_lt((#[trigger] b[y]).0@, b[y].1@, (#[trigger] b[x]).0@, b[x].1@) by {
        assert(!pair_lt(a[y].0@, a[y].1@, a[x].0@, a[x].1@));
    }
}

/// Collects the Unit declarations, recording spans of each declaration,
/// its fields and its configuration.
pub fn normalize_units<'a>(node: &'a Node, spans: &mut SpanIndex) -> (r: Result<(Vec<ParsedUnit>, Vec<ConfigSource<'a>>), Diagnostic>)
    ensures
        r matches Ok((units, configs)) ==> node.kind is Mapping && units_of(node.kind->Mapping_0@, units@) && configs_of(
            node.kind->Mapping_0@,
            configs@,
        ),
        r matches Err(d) ==> d.kind == DiagnosticKind::InvalidField || d.kind == DiagnosticKind::UnknownField || d.kind
            == DiagnosticKind::MissingField,
{
    let entries = expect_mapping(node, "$.units", "units")?;
    let mut units: Vec<ParsedUnit> = Vec::new();
    let mut configs: Vec<ConfigSource<'a>> = Vec::new();
    let mut k1: Vec<Vec<char>> = Vec::new();
    let allowed: Vec<&str> = vec!["type", "config", "inputs", "outputs"];
    let mut i: usize = 0;
    while i < entries.len()
        invariant
            i <= entries@.len(),
            node.kind == NodeKind::Mapping(*entries),
            units@.len() == i,
            configs@.len() == i,
            k1@.len() == i,
            allowed@.len() == 4,
            forall|t: int| 0 <= t < i ==> scalar_text(#[trigger] entries@[t].0) is Some && entries@[t].1.kind is Mapping,
            forall|t: int| 0 <= t < i ==> (#[trigger] units@[t]).id@ == key_text(entries@, t),
            forall|t: int| 0 <= t < i ==> (#[trigger] units@[t]).unit_type@ == field_text(entries@[t].1, "type"@),
            forall|t: int| 0 <= t < i ==> declared_bindings(entries@[t].1, "inputs"@, (#[trigger] units@[t]).inputs@),
            forall|t: int| 0 <= t < i ==> declared_bindings(entries@[t].1, "outputs"@, (#[trigger] units@[t]).outputs@),
            forall|t: int| 0 <= t < i ==> (#[trigger] k1@[t])@ == key_text(entries@, t),
            forall|t: int|
                0 <= t < i ==> (#[trigger] configs@[t]).unit@ == key_text(entries@, t) && configs@[t].span == entries@[t].1.span && (if has_field(
                    entries@[t].1.kind->Mapping_0@,
                    "config"@,
                ) {
                    configs@[t].node == Some(&field_value(entries@[t].1.kind->Mapping_0@, "config"@))
                } else {
                    configs@[t].node is None
                }),
        decreases entries@.len() - i,
    {
        let value = &entries[i].1;
        let id_text = expect_string(&entries[i].0, "$.units", "Unit name")?;
        let path = text3("$.units.", id_text.as_str(), "");
        proof {
            reveal_strlit("");
        }
        spans.paths.push((text3("$.units.", id_text.as_str(), ""), value.span));
        let fields = expect_mapping(value, path.as_str(), "Unit declaration")?;
        reject_unknown(fields, path.as_str(), allowed.as_slice())?;
        let unit_type = required_string(fields, path.as_str(), "type", spans)?;
        let inputs_path = text3(path.as_str(), ".inputs", "");
        let inputs_node = required(fields, path.as_str(), "inputs", spans)?;
        let inputs = normalize_bindings(inputs_node, inputs_path.as_str(), spans, false)?;
        let outputs_path = text3(path.as_str(), ".outputs", "");
        let outputs_node = required(fields, path.as_str(), "outputs", spans)?;
        let outputs = normalize_bindings(outputs_node, outputs_path.as_str(), spans, true)?;
        let config = optional(fields, "config");
        let config_span = match config {
            Some(c) => c.span,
            None => value.span,
        };
        spans.paths.push((text3(path.as_str(), ".config", ""), config_span));
        proof {
            assert(value.kind->Mapping_0@ == fields@);
        }
        configs.push(ConfigSource { unit: UnitId::new(id_text.as_str()), node: config, span: value.span });
        k1.push(chars_of(id_text.as_str()));
        units.push(ParsedUnit { id: UnitId::new(id_text.as_str()), unit_type: UnitTypeName::new(unit_type.as_str()), inputs, outputs });
        i = i + 1;
    }
    let k2 = empty_keys(k1.len());
    let p = sort_by_keys(&k1, &k2);
    let ghost s1 = k1@.map_values(|v: Vec<char>| v@);
    let ghost s2 = k2@.map_values(|v: Vec<char>| v@);
    let mut out: Vec<ParsedUnit> = Vec::new();
    let mut k: usize = 0;
    while k < p.len()
        invariant
            k <= p@.len(),
            p@.len() == units@.len(),
            is_perm(p@, units@.len() as nat),
            out@.len() == k,
            forall|t: int| 0 <= t < k ==> (#[trigger] out@[t]).id@ == units@[p@[t] as int].id@,
            forall|t: int| 0 <= t < k ==> (#[trigger] out@[t]).unit_type@ == units@[p@[t] as int].unit_type@,
            forall|t: int|
                0 <= t < k ==> (#[trigger] out@[t]).inputs@.len() == units@[p@[t] as int].inputs@.len() && forall|q: int|
                    0 <= q < out@[t].inputs@.len() ==> (#[trigger] out@[t].inputs@[q]).0@ == units@[p@[t] as int].inputs@[q].0@
                        && out@[t].inputs@[q].1@ == units@[p@[t] as int].inputs@[q].1@,
            forall|t: int|
                0 <= t < k ==> (#[trigger] out@[t]).outputs@.len() == units@[p@[t] as int].outputs@.len() && forall|q: int|
                    0 <= q < out@[t].outputs@.len() ==> (#[trigger] out@[t].outputs@[q]).0@ == units@[p@[t] as int].outputs@[q].0@
                        && out@[t].outputs@[q].1@ == units@[p@[t] as int].outputs@[q].1@,
        decreases p@.len() - k,
    {
        let x = &units[p[k]];
        out.push(ParsedUnit { id: x.id.clone(), unit_type: x.unit_type.clone(), inputs: copy_bindings(&x.inputs), outputs: copy_bindings(&x.outputs) });
        k = k + 1;
    }
    proof {
        assert forall|x: int| 0 <= x < out@.len() implies (#[trigger] out@[x]).id@ == key_text(entries@, p@[x] as int)
            && out@[x].unit_type@ == field_text(entries@[p@[x] as int].1, "type"@) && declared_bindings(
            entries@[p@[x] as int].1,
            "inputs"@,
            out@[x].inputs@,
        ) && declared_bindings(entries@[p@[x] as int].1, "outputs"@, out@[x].outputs@) by {
            let u = units@[p@[x] as int];
            assert(declared_bindings(entries@[p@[x] as int].1, "inputs"@, u.inputs@));
            assert(declared_bindings(entries@[p@[x] as int].1, "outputs"@, u.outputs@));
            let d = entries@[p@[x] as int].1;
            lemma_bindings_of_views(field_value(d.kind->Mapping_0@, "inputs"@).kind->Mapping_0@, u.inputs@, out@[x].inputs@);
            lemma_bindings_of_views(field_value(d.kind->Mapping_0@, "outputs"@).kind->Mapping_0@, u.outputs@, out@[x].outputs@);
        }
        assert forall|a: int, b: int| 0 <= a < b < out@.len() implies !seq_lt((#[trigger] out@[b]).id@, (#[trigger] out@[a]).id@) by {
            assert(!pair_lt(s1[p@[b] as int], s2[p@[b] as int], s1[p@[a] as int], s2[p@[a] as int]));
            assert(s1[p@[a] as int] == k1@[p@[a] as int]@);
            assert(s1[p@[b] as int] == k1@[p@[b] as int]@);
            crate::sort::lemma_pair_lt_primary(s1[p@[b] as int], s1[p@[a] as int]);
        }
    }
    Ok((out, configs))
}

/// A normalized definition: the parsed Module, each Unit's configuration
/// source, and the spans of document paths.
pub struct Normalized<'a> {
    pub module: ParsedModule,
    pub configs: Vec<ConfigSource<'a>>,
    pub spans: SpanIndex,
}

/// The value of the mapping field `field` of a mapping node.
pub open spec fn mapping_field(n: Node, field: Seq<char>) -> Node {
    field_value(n.kind->Mapping_0@, field)
}

/// Reads the Module Definition schema from a syntax tree: a mapping with
/// exactly the fields `schema` (the supported schema), `module` (the name),
/// `inputs`, `units` and `outputs`. Inputs, Units, their bindings and
/// outputs are listed in increasing order of their names.
pub fn normalize<'a>(root: &'a Node) -> (r: Result<Normalized<'a>, Diagnostic>)
    ensures
        r matches Ok(n) ==> {
            &&& root.kind is Mapping
            &&& keys_allowed(root.kind->Mapping_0@, seq!["schema", "module", "inputs", "units", "outputs"])
            &&& n.module.schema@ == SUPPORTED_SCHEMA@
            &&& n.module.schema@ == field_text(*root, "schema"@)
            &&& n.module.name@ == field_text(*root, "module"@)
            &&& mapping_field(*root, "inputs"@).kind is Mapping
            &&& inputs_of(mapping_field(*root, "inputs"@).kind->Mapping_0@, n.module.inputs@)
            &&& mapping_field(*root, "units"@).kind is Mapping
            &&& units_of(mapping_field(*root, "units"@).kind->Mapping_0@, n.module.units@)
            &&& configs_of(mapping_field(*root, "units"@).kind->Mapping_0@, n.configs@)
            &&& mapping_field(*root, "outputs"@).kind is Mapping
            &&& outputs_of(mapping_field(*root, "outputs"@).kind->Mapping_0@, n.module.outputs@)
        },
        r matches Ok(n) ==> crate::declaration_order::normalized_module(*root, n.module),
        r matches Err(d) && d.kind == DiagnosticKind::UnsupportedSchema ==> field_text(*root, "schema"@) != SUPPORTED_SCHEMA@,
        r matches Err(d) ==> d.kind == DiagnosticKind::InvalidField || d.kind == DiagnosticKind::UnknownField || d.kind
            == DiagnosticKind::MissingField || d.kind == DiagnosticKind::UnsupportedSchema,
{
    let root_entries = expect_mapping(root, "$", "Module Definition")?;
    let allowed: Vec<&str> = vec!["schema", "module", "inputs", "units", "outputs"];
    reject_unknown(root_entries, "$", allowed.as_slice())?;
    proof {
        assert(allowed@ == seq!["schema", "module", "inputs", "units", "outputs"]);
    }
    let mut spans = SpanIndex::new();
    spans.paths.push((text3("$", "", ""), root.span));
    let schema = required_string(root_entries, "$", "schema", &mut spans)?;
    if !text_eq(schema.as_str(), SUPPORTED_SCHEMA) {
        let mut message = String::new();
        push_str(&mut message, "unsupported schema ");
        let quoted = debug_string(schema.as_str());
        push_str(&mut message, quoted.as_str());
        push_str(&mut message, "; expected ");
        push_str(&mut message, SUPPORTED_SCHEMA);
        return Err(spans.at(DiagnosticKind::UnsupportedSchema, text3("$.schema", "", ""), message));
    }
    let name = required_string(root_entries, "$", "module", &mut spans)?;
    let inputs_node = required(root_entries, "$", "inputs", &mut spans)?;
    let units_node = required(root_entries, "$", "units", &mut spans)?;
    let outputs_node = required(root_entries, "$", "outputs", &mut spans)?;
    let inputs = normalize_inputs(inputs_node, &mut spans)?;
    let (units, configs) = normalize_units(units_node, &mut spans)?;
    let outputs = normalize_outputs(outputs_node, &mut spans)?;
    Ok(Normalized { module: ParsedModule { schema, name, inputs, units, outputs }, configs, spans })
}

/// Decodes a Unit's configuration node and resolves the requirements it
/// implies. Hosts implement this for the Unit types they register.
pub trait ConfigResolver {
    type Config;

    /// Decodes the configuration of a Unit of type `unit_type` found at `path`.
    fn decode(&self, unit_type: &UnitTypeName, node: &Node, path: &str) -> Result<Self::Config, ConfigurationError>;

    /// Resolves the output capacities and workspace of a decoded configuration.
    fn resolve_requirements(
        &self,
        unit_type: &UnitTypeName,
        config: &Self::Config,
        bounds: &BoundSources,
        path: &str,
    ) -> Result<UnitRequirements, ConfigurationError>;
}


/// The diagnostic for a configuration error of the Unit whose
/// configuration node is `node`.
pub fn configuration_diagnostic(error: ConfigurationError, node: &Node, spans: &SpanIndex) -> (r: Diagnostic)
    ensures
        error matches ConfigurationError::UnknownField { path, field } ==> r.kind == DiagnosticKind::UnknownField && r.path
            == path && r.span == crate::yaml_syntax::span_at_fields(*node, crate::yaml_syntax::dot_fields(field@), *node),
        error matches ConfigurationError::UnresolvedRequirement { path, message } ==> r.kind == DiagnosticKind::UnresolvedBound
            && r.path == path && r.message == message && r.span == ancestor_span(spans.paths@, path@),
        error matches ConfigurationError::Invalid { path, message } ==> r.kind == DiagnosticKind::Config && r.path == path
            && r.message == message && r.span == node.span,
        (error is SourceType || error is ConfigurationType) ==> r.kind == DiagnosticKind::Config && r.path@ == "$"@ && r.span
            == node.span,
{
    let text = configuration_error_text(&error);
    match error {
        ConfigurationError::UnknownField { path, field } => {
            let span = node.span_at(field.as_str());
            let mut message = String::new();
            push_str(&mut message, "unknown config field ");
            let quoted = debug_string(field.as_str());
            push_str(&mut message, quoted.as_str());
            Diagnostic::new(DiagnosticKind::UnknownField, path, span, message)
        },
        ConfigurationError::UnresolvedRequirement { path, message } => spans.at(DiagnosticKind::UnresolvedBound, path, message),
        ConfigurationError::Invalid { path, message } => Diagnostic::new(DiagnosticKind::Config, path, node.span, message),
        _ => {
            let path = text3("$", "", "");
            proof {
                reveal_strlit("");
            }
            Diagnostic::new(DiagnosticKind::Config, path, node.span, text)
        },
    }
}

/// A definition whose Module is resolved, with decoded configurations,
/// Resource requirements and Unit workspaces. Each list is a map: the last
/// entry for a key counts.
pub struct ResolvedDefinition<C> {
    module: ResolvedModule,
    configs: Vec<(UnitId, C)>,
    requirements: Vec<(ResourceId, ResourceRequirement)>,
    workspace_bytes: Vec<(UnitId, usize)>,
    spans: SpanIndex,
    /// What each Unit's configuration resolved to, in Unit order.
    resolved: Ghost<Seq<UnitRequirements>>,
}

/// A compiled definition, ready to build.
pub struct CompiledDefinition<C> {
    pub graph: CompiledGraph,
    pub configs: Vec<(UnitId, C)>,
    pub requirements: Vec<(ResourceId, ResourceRequirement)>,
    pub workspace_bytes: Vec<(UnitId, usize)>,
}

/// Frontend-neutral, fully decoded input to a Module build.
pub struct ExecutableDefinition<C> {
    pub graph: CompiledGraph,
    pub configurations: Vec<(UnitId, C)>,
    pub requirements: Vec<(ResourceId, ResourceRequirement)>,
    pub workspace_bytes: Vec<(UnitId, usize)>,
}

impl<C> ExecutableDefinition<C> {
    pub fn new(
        graph: CompiledGraph,
        configurations: Vec<(UnitId, C)>,
        requirements: Vec<(ResourceId, ResourceRequirement)>,
        workspace_bytes: Vec<(UnitId, usize)>,
    ) -> (r: Self)
        ensures
            r.graph == graph,
            r.configurations == configurations,
            r.requirements == requirements,
            r.workspace_bytes == workspace_bytes,
    {
        ExecutableDefinition { graph, configurations, requirements, workspace_bytes }
    }

    /// Removes and returns the configuration of `unit`: that of the last
    /// entry naming it.
    pub fn take_configuration(&mut self, unit: &UnitId) -> (r: Option<C>)
        ensures
            r == config_entry(old(self).configurations@, unit@),
            r is None ==> final(self).configurations@ == old(self).configurations@,
            final(self).graph == old(self).graph,
            final(self).requirements == old(self).requirements,
            final(self).workspace_bytes == old(self).workspace_bytes,
    {
        let mut k: usize = self.configurations.len();
        proof {
            assert(self.configurations@.take(self.configurations@.len() as int) =~= self.configurations@);
        }
        while k > 0
            invariant
                k <= self.configurations@.len(),
                self.configurations@ == old(self).configurations@,
                self.graph == old(self).graph,
                self.requirements == old(self).requirements,
                self.workspace_bytes == old(self).workspace_bytes,
                config_entry(self.configurations@, unit@) == config_entry(self.configurations@.take(k as int), unit@),
            decreases k,
        {
            proof {
                assert(self.configurations@.take(k as int).drop_last() =~= self.configurations@.take(k as int - 1));
            }
            if self.configurations[k - 1].0 == *unit {
                let (_, configuration) = self.configurations.remove(k - 1);
                return Some(configuration);
            }
            k = k - 1;
        }
        None
    }

    /// The workspace bytes of `unit`: the last entry naming it, and none
    /// without one.
    pub fn workspace_for(&self, unit: &UnitId) -> (r: usize)
        ensures
            r == match last_value(self.workspace_bytes@, unit@) {
                Some(bytes) => bytes,
                None => 0,
            },
    {
        let mut k: usize = self.workspace_bytes.len();
        proof {
            assert(self.workspace_bytes@.take(self.workspace_bytes@.len() as int) =~= self.workspace_bytes@);
        }
        while k > 0
            invariant
                k <= self.workspace_bytes@.len(),
                last_value(self.workspace_bytes@, unit@) == last_value(self.workspace_bytes@.take(k as int), unit@),
            decreases k,
        {
            proof {
                assert(self.workspace_bytes@.take(k as int).drop_last() =~= self.workspace_bytes@.take(k as int - 1));
            }
            if self.workspace_bytes[k - 1].0 == *unit {
                return self.workspace_bytes[k - 1].1;
            }
            k = k - 1;
        }
        0
    }
}

/// The entry for `unit`: the last one naming it.
pub open spec fn config_entry<C>(configs: Seq<(UnitId, C)>, unit: Seq<char>) -> Option<C>
    decreases configs.len(),
{
    if configs.len() == 0 {
        None
    } else if configs.last().0@ == unit {
        Some(configs.last().1)
    } else {
        config_entry(configs.drop_last(), unit)
    }
}

fn find_config<'a, C>(configs: &'a Vec<(UnitId, C)>, unit: &UnitId) -> (r: Option<&'a C>)
    ensures
        match r {
            Some(c) => config_entry(configs@, unit@) == Some(*c),
            None => config_entry(configs@, unit@) is None,
        },
{
    let mut k: usize = configs.len();
    proof {
        assert(configs@.take(configs@.len() as int) =~= configs@);
    }
    while k > 0
        invariant
            k <= configs@.len(),
            config_entry(configs@, unit@) == config_entry(configs@.take(k as int), unit@),
        decreases k,
    {
        proof {
            assert(configs@.take(k as int).drop_last() =~= configs@.take(k as int - 1));
        }
        if configs[k - 1].0 == *unit {
            return Some(&configs[k - 1].1);
        }
        k = k - 1;
    }
    None
}

impl<C> ResolvedDefinition<C> {
    pub closed spec fn spec_module(&self) -> ResolvedModule {
        self.module
    }

    pub closed spec fn spec_configs(&self) -> Seq<(UnitId, C)> {
        self.configs@
    }

    pub closed spec fn spec_requirements(&self) -> Seq<(ResourceId, ResourceRequirement)> {
        self.requirements@
    }

    pub closed spec fn spec_workspace_bytes(&self) -> Seq<(UnitId, usize)> {
        self.workspace_bytes@
    }

    pub closed spec fn spec_spans(&self) -> SpanIndex {
        self.spans
    }

    /// What each Unit's configuration resolved to, in Unit order.
    pub closed spec fn spec_resolved(&self) -> Seq<UnitRequirements> {
        self.resolved@
    }

    /// The resolved Module.
    pub fn module(&self) -> (r: &ResolvedModule)
        ensures
            *r == self.spec_module(),
    {
        &self.module
    }

    /// The decoded configuration of a Unit.
    pub fn config(&self, unit: &UnitId) -> (r: Option<&C>)
        ensures
            match r {
                Some(c) => config_entry(self.spec_configs(), unit@) == Some(*c),
                None => config_entry(self.spec_configs(), unit@) is None,
            },
    {
        find_config(&self.configs, unit)
    }

    /// The Resource requirements.
    pub fn requirements(&self) -> (r: &Vec<(ResourceId, ResourceRequirement)>)
        ensures
            r@ == self.spec_requirements(),
    {
        &self.requirements
    }

    /// The Unit workspace sizes.
    pub fn workspace_bytes(&self) -> (r: &Vec<(UnitId, usize)>)
        ensures
            r@ == self.spec_workspace_bytes(),
    {
        &self.workspace_bytes
    }

    /// Compiles the resolved Module; a graph error is reported at the
    /// document path of its cause.
    pub fn compile(self) -> (r: Result<CompiledDefinition<C>, Diagnostic>)
        ensures
            r is Ok <==> crate::compile::compilable(self.spec_module()),
            r matches Ok(c) ==> crate::compile::compiled_from(self.spec_module(), c.graph) && c.configs@
                == self.spec_configs() && c.requirements@ == self.spec_requirements() && c.workspace_bytes@
                == self.spec_workspace_bytes(),
            r matches Err(d) ==> d.span == ancestor_span(self.spec_spans().paths@, d.path@),
    {
        let ResolvedDefinition { module, configs, requirements, workspace_bytes, spans, resolved } = self;
        match module.compile() {
            Ok(graph) => Ok(CompiledDefinition { graph, configs, requirements, workspace_bytes }),
            Err(error) => Err(spans.graph_error(error)),
        }
    }
}

impl<C> CompiledDefinition<C> {

    /// The decoded configuration of a Unit.
    pub fn config(&self, unit: &UnitId) -> (r: Option<&C>)
        ensures
            match r {
                Some(c) => config_entry(self.configs@, unit@) == Some(*c),
                None => config_entry(self.configs@, unit@) is None,
            },
    {
        find_config(&self.configs, unit)
    }

    /// The definition as Module build input.
    pub fn into_executable_definition(self) -> (r: ExecutableDefinition<C>)
        ensures
            r.graph == self.graph,
            r.configurations == self.configs,
            r.requirements == self.requirements,
            r.workspace_bytes == self.workspace_bytes,
    {
        let CompiledDefinition { graph, configs, requirements, workspace_bytes } = self;
        ExecutableDefinition::new(graph, configs, requirements, workspace_bytes)
    }
}

/// The capacity bound of a Module input: its host bound, else the adapter
/// bound of its semantic type.
pub open spec fn input_capacity(bounds: BoundSources, input: ResolvedModuleInput) -> Option<usize> {
    match last_value(bounds.host@, input.resource@) {
        Some(c) => Some(c),
        None => last_value(bounds.adapters@, input.semantic_type@),
    }
}

/// The capacity of a Unit output: what the Unit's configuration resolves
/// for its port, else its host bound, else the adapter bound of its
/// semantic type.
pub open spec fn output_capacity(resolved: UnitRequirements, bounds: BoundSources, output: ResolvedBinding) -> Option<usize> {
    match last_value(resolved.output_capacities@, output.port@) {
        Some(c) => Some(c),
        None => match last_value(bounds.host@, output.resource@) {
            Some(c) => Some(c),
            None => last_value(bounds.adapters@, output.semantic_type@),
        },
    }
}

/// The requirements of a Unit's outputs, in port order, given what its
/// configuration resolved; the first output with no capacity from any
/// source is reported by its Resource.
pub fn output_requirements(unit: &ResolvedUnit, resolved: &UnitRequirements, bounds: &BoundSources) -> (r: Result<Vec<(ResourceId, ResourceRequirement)>, ResourceId>)
    ensures
        r is Ok <==> forall|o: int| 0 <= o < unit.outputs@.len() ==> (#[trigger] output_capacity(*resolved, *bounds, unit.outputs@[o])) is Some,
        r matches Ok(v) ==> v@.len() == unit.outputs@.len() && forall|o: int|
            0 <= o < v@.len() ==> (#[trigger] v@[o]).0@ == unit.outputs@[o].resource@ && Some(v@[o].1.capacity) == output_capacity(
                *resolved,
                *bounds,
                unit.outputs@[o],
            ),
        r matches Err(id) ==> exists|o: int|
            0 <= o < unit.outputs@.len() && (#[trigger] output_capacity(*resolved, *bounds, unit.outputs@[o])) is None
                && unit.outputs@[o].resource@ == id@,
{
    let mut out: Vec<(ResourceId, ResourceRequirement)> = Vec::new();
    let mut o: usize = 0;
    while o < unit.outputs.len()
        invariant
            o <= unit.outputs@.len(),
            out@.len() == o,
            forall|t: int|
                0 <= t < o ==> (#[trigger] out@[t]).0@ == unit.outputs@[t].resource@ && Some(out@[t].1.capacity) == output_capacity(
                    *resolved,
                    *bounds,
                    unit.outputs@[t],
                ),
        decreases unit.outputs@.len() - o,
    {
        let output = &unit.outputs[o];
        let capacity = match resolved.output_capacity(&output.port) {
            Some(c) => c,
            None => match bounds.host_bound(&output.resource) {
                Some(c) => c,
                None => match bounds.adapter_bound(&output.semantic_type) {
                    Some(c) => c,
                    None => {
                        proof {
                            assert(output_capacity(*resolved, *bounds, unit.outputs@[o as int]) is None);
                        }
                        return Err(output.resource.clone());
                    },
                },
            },
        };
        out.push((output.resource.clone(), ResourceRequirement { capacity }));
        o = o + 1;
    }
    proof {
        assert forall|t: int| 0 <= t < unit.outputs@.len() implies (#[trigger] output_capacity(*resolved, *bounds, unit.outputs@[t])) is Some by {
            assert(Some(out@[t].1.capacity) == output_capacity(*resolved, *bounds, unit.outputs@[t]));
        }
    }
    Ok(out)
}

/// The requirement recorded for output `o` of Unit `u` names that output's
/// Resource and holds the capacity its own configuration resolved, else its
/// host bound, else its adapter bound.
pub open spec fn output_requirement_at(
    bounds: BoundSources,
    module: ResolvedModule,
    resolved: Seq<UnitRequirements>,
    requirements: Seq<(ResourceId, ResourceRequirement)>,
    u: int,
    o: int,
) -> bool {
    let q = requirements[module.inputs@.len() + outputs_before(module.units@, u) + o];
    &&& q.0@ == module.units@[u].outputs@[o].resource@
    &&& Some(q.1.capacity) == output_capacity(resolved[u], bounds, module.units@[u].outputs@[o])
}

proof fn lemma_outputs_before_mono(units: Seq<ResolvedUnit>, a: int, b: int)
    requires
        0 <= a < b,
    ensures
        0 <= outputs_before(units, a),
        outputs_before(units, a) + units[a].outputs@.len() <= outputs_before(units, b),
    decreases b,
{
    if b > a + 1 {
        lemma_outputs_before_mono(units, a, b - 1);
    } else {
        lemma_outputs_before_nonneg(units, a);
    }
}

proof fn lemma_outputs_before_nonneg(units: Seq<ResolvedUnit>, a: int)
    ensures
        0 <= outputs_before(units, a),
    decreases a,
{
    if a > 0 {
        lemma_outputs_before_nonneg(units, a - 1);
    }
}

/// Appending Unit `u`'s output requirements keeps the earlier Units'
/// requirements in place and records Unit `u`'s after them.
proof fn lemma_outputs_after(
    module: ResolvedModule,
    old_answers: Seq<UnitRequirements>,
    answers: Seq<UnitRequirements>,
    base: Seq<(ResourceId, ResourceRequirement)>,
    fresh: Seq<(ResourceId, ResourceRequirement)>,
    requirements: Seq<(ResourceId, ResourceRequirement)>,
    bounds: BoundSources,
    u: int,
    unit: ResolvedUnit,
    resolved: UnitRequirements,
)
    requires
        0 <= u < module.units@.len(),
        unit == module.units@[u],
        old_answers.len() == u,
        answers == old_answers.push(resolved),
        requirements == base + fresh,
        base.len() == module.inputs@.len() + outputs_before(module.units@, u),
        fresh.len() == unit.outputs@.len(),
        forall|o: int|
            0 <= o < fresh.len() ==> (#[trigger] fresh[o]).0@ == unit.outputs@[o].resource@ && Some(fresh[o].1.capacity)
                == output_capacity(resolved, bounds, unit.outputs@[o]),
        forall|t: int, o: int|
            0 <= t < u && 0 <= o < module.units@[t].outputs@.len() ==> #[trigger] output_requirement_at(
                bounds,
                module,
                old_answers,
                base,
                t,
                o,
            ),
    ensures
        requirements.len() == module.inputs@.len() + outputs_before(module.units@, u + 1),
        forall|t: int, o: int|
            0 <= t < u + 1 && 0 <= o < module.units@[t].outputs@.len() ==> #[trigger] output_requirement_at(
                bounds,
                module,
                answers,
                requirements,
                t,
                o,
            ),
{
    assert forall|t: int, o: int|
        0 <= t < u + 1 && 0 <= o < module.units@[t].outputs@.len() implies #[trigger] output_requirement_at(
        bounds,
        module,
        answers,
        requirements,
        t,
        o,
    ) by {
        let idx = module.inputs@.len() + outputs_before(module.units@, t) + o;
        if t < u {
            lemma_outputs_before_mono(module.units@, t, u);
            assert(output_requirement_at(bounds, module, old_answers, base, t, o));
            assert(requirements[idx] == base[idx]);
            assert(answers[t] == old_answers[t]);
        } else {
            lemma_outputs_before_nonneg(module.units@, t);
            assert(requirements[idx] == fresh[o]);
            assert(answers[t] == resolved);
        }
    }
}

/// Outputs of the Units before Unit `u`: where its output requirements
/// start after the input requirements.
pub open spec fn outputs_before(units: Seq<ResolvedUnit>, u: int) -> int
    decreases u,
{
    if u <= 0 {
        0
    } else {
        outputs_before(units, u - 1) + units[u - 1].outputs@.len()
    }
}

/// The configuration source of `unit`: the last one naming it.
fn find_config_source<'a, 'b>(configs: &'b Vec<ConfigSource<'a>>, unit: &UnitId) -> (r: Option<&'b ConfigSource<'a>>)
    ensures
        r is None <==> forall|k: int| 0 <= k < configs@.len() ==> (#[trigger] configs@[k]).unit@ != unit@,
        r matches Some(c) ==> exists|k: int|
            0 <= k < configs@.len() && #[trigger] configs@[k] == *c && c.unit@ == unit@ && forall|j: int|
                k < j < configs@.len() ==> (#[trigger] configs@[j]).unit@ != unit@,
{
    let mut k: usize = configs.len();
    while k > 0
        invariant
            k <= configs@.len(),
            forall|j: int| k <= j < configs@.len() ==> (#[trigger] configs@[j]).unit@ != unit@,
        decreases k,
    {
        if configs[k - 1].unit == *unit {
            proof {
                assert(configs@[k - 1] == configs@[k - 1]);
            }
            return Some(&configs[k - 1]);
        }
        k = k - 1;
    }
    None
}

fn resolve_unit<R: ConfigResolver>(
    resolver: &R,
    unit_type: &UnitTypeName,
    node: &Node,
    path: &str,
    bounds: &BoundSources,
    spans: &SpanIndex,
) -> (r: Result<(R::Config, UnitRequirements), Diagnostic>)
    ensures
        r matches Err(d) ==> d.kind == DiagnosticKind::Config || d.kind == DiagnosticKind::UnknownField || d.kind
            == DiagnosticKind::UnresolvedBound,
{
    let config = match resolver.decode(unit_type, node, path) {
        Ok(c) => c,
        Err(e) => {
            return Err(configuration_diagnostic(e, node, spans));
        },
    };
    match resolver.resolve_requirements(unit_type, &config, bounds, path) {
        Ok(q) => Ok((config, q)),
        Err(e) => Err(configuration_diagnostic(e, node, spans)),
    }
}

/// The kinds of diagnostic a load reports: a syntax error, a schema error,
/// a graph error, an unresolved bound or a configuration error.
pub open spec fn load_failure_kind(k: DiagnosticKind) -> bool {
    ||| crate::yaml_syntax::syntax_kind(k)
    ||| k == DiagnosticKind::InvalidField || k == DiagnosticKind::UnknownField || k == DiagnosticKind::MissingField
    ||| k == DiagnosticKind::UnsupportedSchema
    ||| (exists|p: Seq<(ResourceId, String)>, e: CompileError| #[trigger] graph_error_site(p, e).0 == k)
    ||| k == DiagnosticKind::UnresolvedBound || k == DiagnosticKind::Config
}

/// Loads a Module Definition: reads the document, normalizes it, resolves
/// the Module against the registries, decodes each Unit's configuration
/// and resolves every Resource's capacity. A Module input takes its host
/// bound, else the adapter bound of its semantic type; a Unit output takes
/// the capacity its configuration resolves, else its host bound, else its
/// adapter bound.
pub fn load<R: ConfigResolver>(
    source: &str,
    limits: ParseLimits,
    units: &UnitRegistry,
    resources: &ResourceRegistry,
    bounds: &BoundSources,
    resolver: &R,
) -> (r: Result<ResolvedDefinition<R::Config>, Diagnostic>)
    requires
        units.wf(),
        resources.wf(),
    ensures
        source.len() > limits.max_document_bytes ==> (r matches Err(d) && d.kind == DiagnosticKind::DocumentTooLarge),
        r matches Err(d) && d.kind == DiagnosticKind::DocumentTooLarge ==> source.len() > limits.max_document_bytes,
        r matches Err(d) ==> load_failure_kind(d.kind),
        r matches Ok(def) ==> {
            &&& exists|m: ParsedModule| m.schema@ == SUPPORTED_SCHEMA@ && #[trigger] crate::resolve::resolved_from(m, def.spec_module(), *units, *resources)
            &&& def.spec_requirements().len() >= def.spec_module().inputs@.len()
            &&& forall|k: int|
                0 <= k < def.spec_module().inputs@.len() ==> (#[trigger] def.spec_requirements()[k]).0@
                    == def.spec_module().inputs@[k].resource@ && Some(def.spec_requirements()[k].1.capacity) == input_capacity(
                    *bounds,
                    def.spec_module().inputs@[k],
                )
            &&& def.spec_configs().len() == def.spec_module().units@.len()
            &&& def.spec_workspace_bytes().len() == def.spec_module().units@.len()
            &&& forall|u: int|
                0 <= u < def.spec_module().units@.len() ==> (#[trigger] def.spec_configs()[u]).0@ == def.spec_module().units@[u].id@
                    && def.spec_workspace_bytes()[u].0@ == def.spec_module().units@[u].id@
            &&& def.spec_resolved().len() == def.spec_module().units@.len()
            &&& def.spec_requirements().len() == def.spec_module().inputs@.len() + outputs_before(
                def.spec_module().units@,
                def.spec_module().units@.len() as int,
            )
            &&& forall|u: int| 0 <= u < def.spec_module().units@.len() ==> #[trigger] def.spec_workspace_bytes()[u].1 == def.spec_resolved()[u].workspace_bytes
            &&& forall|u: int, o: int|
                0 <= u < def.spec_module().units@.len() && 0 <= o < def.spec_module().units@[u].outputs@.len() ==> #[trigger] output_requirement_at(
                    *bounds,
                    def.spec_module(),
                    def.spec_resolved(),
                    def.spec_requirements(),
                    u,
                    o,
                )
        },
{
    let root = parse(source, limits)?;
    let parsed = normalize(&root)?;
    let Normalized { module: parsed_module, configs: sources, spans } = parsed;
    let ghost pm = parsed_module;
    let module = match parsed_module.resolve(units, resources) {
        Ok(m) => m,
        Err(e) => {
            let ghost err = e;
            let d = spans.graph_error(e);
            proof {
                assert(graph_error_site(spans.producers@, err).0 == d.kind);
            }
            return Err(d);
        },
    };
    proof {
        assert(crate::resolve::resolved_from(pm, module, *units, *resources));
    }
    let mut requirements: Vec<(ResourceId, ResourceRequirement)> = Vec::new();
    let mut i: usize = 0;
    while i < module.inputs.len()
        invariant
            i <= module.inputs@.len(),
            source.len() <= limits.max_document_bytes,
            requirements@.len() == i,
            forall|k: int|
                0 <= k < i ==> (#[trigger] requirements@[k]).0@ == module.inputs@[k].resource@ && Some(requirements@[k].1.capacity)
                    == input_capacity(*bounds, module.inputs@[k]),
        decreases module.inputs@.len() - i,
    {
        let input = &module.inputs[i];
        let capacity = match bounds.host_bound(&input.resource) {
            Some(c) => c,
            None => match bounds.adapter_bound(&input.semantic_type) {
                Some(c) => c,
                None => {
                    return Err(spans.unresolved_bound(&input.resource));
                },
            },
        };
        requirements.push((input.resource.clone(), ResourceRequirement { capacity }));
        i = i + 1;
    }
    let mut configs: Vec<(UnitId, R::Config)> = Vec::new();
    let mut workspace_bytes: Vec<(UnitId, usize)> = Vec::new();
    let ghost mut answers: Seq<UnitRequirements> = Seq::empty();
    let mut u: usize = 0;
    while u < module.units.len()
        invariant
            u <= module.units@.len(),
            requirements@.len() >= module.inputs@.len(),
            answers.len() == u,
            requirements@.len() == module.inputs@.len() + outputs_before(module.units@, u as int),
            forall|t: int| 0 <= t < u ==> #[trigger] workspace_bytes@[t].1 == answers[t].workspace_bytes,
            forall|t: int, o: int|
                0 <= t < u && 0 <= o < module.units@[t].outputs@.len() ==> #[trigger] output_requirement_at(
                    *bounds,
                    module,
                    answers,
                    requirements@,
                    t,
                    o,
                ),
            source.len() <= limits.max_document_bytes,
            forall|k: int|
                0 <= k < module.inputs@.len() ==> (#[trigger] requirements@[k]).0@ == module.inputs@[k].resource@ && Some(
                    requirements@[k].1.capacity,
                ) == input_capacity(*bounds, module.inputs@[k]),
            configs@.len() == u,
            workspace_bytes@.len() == u,
            forall|t: int| 0 <= t < u ==> (#[trigger] configs@[t]).0@ == module.units@[t].id@ && workspace_bytes@[t].0@ == module.units@[t].id@,
        decreases module.units@.len() - u,
    {
        let unit = &module.units[u];
        let config_path = text3("$.units.", unit.id.as_str(), ".config");
        let empty = Node { span: SourceSpan::point(1, 1, 0), kind: NodeKind::Mapping(Vec::new()) };
        let fallback = match find_config_source(&sources, &unit.id) {
            Some(source) => Node { span: source.span, kind: NodeKind::Mapping(Vec::new()) },
            None => empty,
        };
        let node: &Node = match find_config_source(&sources, &unit.id) {
            Some(source) => match source.node {
                Some(n) => n,
                None => &fallback,
            },
            None => &fallback,
        };
        let (config, resolved) = resolve_unit(resolver, &unit.unit_type, node, config_path.as_str(), bounds, &spans)?;
        let mut outputs = match output_requirements(unit, &resolved, bounds) {
            Ok(v) => v,
            Err(resource) => {
                return Err(spans.unresolved_bound(&resource));
            },
        };
        let ghost base = requirements@;
        let ghost fresh = outputs@;
        let ghost old_answers = answers;
        requirements.append(&mut outputs);
        proof {
            answers = answers.push(resolved);
            lemma_outputs_after(module, old_answers, answers, base, fresh, requirements@, *bounds, u as int, *unit, resolved);
        }
        workspace_bytes.push((unit.id.clone(), resolved.workspace_bytes));
        configs.push((unit.id.clone(), config));
        u = u + 1;
    }
    Ok(ResolvedDefinition { module, configs, requirements, workspace_bytes, spans, resolved: Ghost(answers) })
}

} // verus!
