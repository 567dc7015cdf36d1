//! The diagnostic text of graph and configuration errors: each error
//! written as Rust's derived `Debug` writes it (`Variant { field: value }`,
//! identifiers as `UnitId("u")`, strings quoted with debug escapes).

use vstd::prelude::*;

use crate::ids::{ResourceId, SemanticType, UnitId, UnitTypeName};
use crate::inspection::{debug_quoted, debug_string};
use crate::resolve::ConfigurationError;
use crate::text::push_str;
use crate::types::{CompileError, ConcreteType, Producer};

verus! {

/// Items separated by `sep`.
pub open spec fn joined(items: Seq<Seq<char>>, sep: Seq<char>) -> Seq<char>
    decreases items.len(),
{
    if items.len() == 0 {
        Seq::empty()
    } else if items.len() == 1 {
        items[0]
    } else {
        joined(items.drop_last(), sep) + sep + items.last()
    }
}

/// A one-field tuple struct holding a string: `Name("text")`.
pub open spec fn newtype_text(name: Seq<char>, value: Seq<char>) -> Seq<char> {
    name + "("@ + debug_quoted(value) + ")"@
}

/// A named field: `label: value`.
pub open spec fn field_text(label: Seq<char>, value: Seq<char>) -> Seq<char> {
    label + ": "@ + value
}

/// A struct-like value: `Name { a: x, b: y }`.
pub open spec fn struct_text(name: Seq<char>, fields: Seq<Seq<char>>) -> Seq<char> {
    name + " { "@ + joined(fields, ", "@) + " }"@
}

pub open spec fn bool_text(b: bool) -> Seq<char> {
    if b {
        "true"@
    } else {
        "false"@
    }
}

pub open spec fn unit_id_text(u: UnitId) -> Seq<char> {
    newtype_text("UnitId"@, u@)
}

pub open spec fn unit_type_text(t: UnitTypeName) -> Seq<char> {
    newtype_text("UnitTypeName"@, t@)
}

pub open spec fn resource_text(r: ResourceId) -> Seq<char> {
    newtype_text("ResourceId"@, r@)
}

pub open spec fn semantic_text(s: SemanticType) -> Seq<char> {
    newtype_text("SemanticType"@, s@)
}

/// A list of Unit ids: `[UnitId("a"), UnitId("b")]`.
pub open spec fn unit_list_text(units: Seq<UnitId>) -> Seq<char> {
    "["@ + joined(units.map_values(|u: UnitId| unit_id_text(u)), ", "@) + "]"@
}

pub open spec fn producer_text(p: Producer) -> Seq<char> {
    match p {
        Producer::ModuleInput => "ModuleInput"@,
        Producer::Unit { unit, port } => struct_text(
            "Unit"@,
            seq![field_text("unit"@, unit_id_text(unit)), field_text("port"@, debug_quoted(port@))],
        ),
    }
}

/// The text of a graph error; `expected` and `other` stand for the text of
/// the two concrete types a representation mismatch names.
pub open spec fn compile_error_debug(e: CompileError, expected: Seq<char>, other: Seq<char>) -> Seq<char> {
    match e {
        CompileError::DuplicateUnitType { unit_type } => struct_text(
            "DuplicateUnitType"@,
            seq![field_text("unit_type"@, unit_type_text(unit_type))],
        ),
        CompileError::DuplicateDescriptorPort { unit_type } => struct_text(
            "DuplicateDescriptorPort"@,
            seq![field_text("unit_type"@, unit_type_text(unit_type))],
        ),
        CompileError::UnknownUnitType { unit, unit_type } => struct_text(
            "UnknownUnitType"@,
            seq![field_text("unit"@, unit_id_text(unit)), field_text("unit_type"@, unit_type_text(unit_type))],
        ),
        CompileError::UnknownResourceType { semantic_type } => struct_text(
            "UnknownResourceType"@,
            seq![field_text("semantic_type"@, semantic_text(semantic_type))],
        ),
        CompileError::MissingPort { unit, unit_type, port, input } => struct_text(
            "MissingPort"@,
            seq![
                field_text("unit"@, unit_id_text(unit)),
                field_text("unit_type"@, unit_type_text(unit_type)),
                field_text("port"@, debug_quoted(port@)),
                field_text("input"@, bool_text(input)),
            ],
        ),
        CompileError::UnknownPort { unit, unit_type, port, input } => struct_text(
            "UnknownPort"@,
            seq![
                field_text("unit"@, unit_id_text(unit)),
                field_text("unit_type"@, unit_type_text(unit_type)),
                field_text("port"@, debug_quoted(port@)),
                field_text("input"@, bool_text(input)),
            ],
        ),
        CompileError::DuplicatePortBinding { unit, unit_type } => struct_text(
            "DuplicatePortBinding"@,
            seq![field_text("unit"@, unit_id_text(unit)), field_text("unit_type"@, unit_type_text(unit_type))],
        ),
        CompileError::ConcreteTypeMismatch { unit, port, semantic_type, .. } => struct_text(
            "ConcreteTypeMismatch"@,
            seq![
                field_text("unit"@, unit_id_text(unit)),
                field_text("port"@, debug_quoted(port@)),
                field_text("semantic_type"@, semantic_text(semantic_type)),
                field_text("expected"@, expected),
                field_text("registered"@, other),
            ],
        ),
        CompileError::DuplicateUnit { unit } => struct_text("DuplicateUnit"@, seq![field_text("unit"@, unit_id_text(unit))]),
        CompileError::DuplicateResolvedPort { unit } => struct_text(
            "DuplicateResolvedPort"@,
            seq![field_text("unit"@, unit_id_text(unit))],
        ),
        CompileError::DuplicateProducer { resource, first, second } => struct_text(
            "DuplicateProducer"@,
            seq![
                field_text("resource"@, resource_text(resource)),
                field_text("first"@, producer_text(first)),
                field_text("second"@, producer_text(second)),
            ],
        ),
        CompileError::UnknownResource { unit, port, resource } => struct_text(
            "UnknownResource"@,
            seq![
                field_text("unit"@, unit_id_text(unit)),
                field_text("port"@, debug_quoted(port@)),
                field_text("resource"@, resource_text(resource)),
            ],
        ),
        CompileError::UnknownModuleOutput { resource } => struct_text(
            "UnknownModuleOutput"@,
            seq![field_text("resource"@, resource_text(resource))],
        ),
        CompileError::DuplicateModuleOutput => "DuplicateModuleOutput"@,
        CompileError::SemanticTypeMismatch { unit, port, resource, expected: a, actual: b } => struct_text(
            "SemanticTypeMismatch"@,
            seq![
                field_text("unit"@, unit_id_text(unit)),
                field_text("port"@, debug_quoted(port@)),
                field_text("resource"@, resource_text(resource)),
                field_text("expected"@, semantic_text(a)),
                field_text("actual"@, semantic_text(b)),
            ],
        ),
        CompileError::ConcreteBindingMismatch { unit, port, resource, .. } => struct_text(
            "ConcreteBindingMismatch"@,
            seq![
                field_text("unit"@, unit_id_text(unit)),
                field_text("port"@, debug_quoted(port@)),
                field_text("resource"@, resource_text(resource)),
                field_text("expected"@, expected),
                field_text("actual"@, other),
            ],
        ),
        CompileError::Cycle { path } => struct_text("Cycle"@, seq![field_text("path"@, unit_list_text(path@))]),
        CompileError::DenseUnitMissing { unit } => struct_text("DenseUnitMissing"@, seq![field_text("unit"@, unit_id_text(unit))]),
        CompileError::DenseResourceMissing { resource } => struct_text(
            "DenseResourceMissing"@,
            seq![field_text("resource"@, resource_text(resource))],
        ),
    }
}

/// The text of a configuration error.
pub open spec fn configuration_error_debug(e: ConfigurationError) -> Seq<char> {
    match e {
        ConfigurationError::UnknownField { path, field } => struct_text(
            "UnknownField"@,
            seq![field_text("path"@, debug_quoted(path@)), field_text("field"@, debug_quoted(field@))],
        ),
        ConfigurationError::Invalid { path, message } => struct_text(
            "Invalid"@,
            seq![field_text("path"@, debug_quoted(path@)), field_text("message"@, debug_quoted(message@))],
        ),
        ConfigurationError::SourceType { unit_type, expected } => struct_text(
            "SourceType"@,
            seq![field_text("unit_type"@, unit_type_text(unit_type)), field_text("expected"@, debug_quoted(expected@))],
        ),
        ConfigurationError::ConfigurationType { unit_type, expected, actual } => struct_text(
            "ConfigurationType"@,
            seq![
                field_text("unit_type"@, unit_type_text(unit_type)),
                field_text("expected"@, debug_quoted(expected@)),
                field_text("actual"@, debug_quoted(actual@)),
            ],
        ),
        ConfigurationError::UnresolvedRequirement { path, message } => struct_text(
            "UnresolvedRequirement"@,
            seq![field_text("path"@, debug_quoted(path@)), field_text("message"@, debug_quoted(message@))],
        ),
    }
}

fn newtype(name: &str, value: &str) -> (r: String)
    ensures
        r@ == newtype_text(name@, value@),
{
    let mut out = String::new();
    push_str(&mut out, name);
    push_str(&mut out, "(");
    let quoted = debug_string(value);
    push_str(&mut out, quoted.as_str());
    push_str(&mut out, ")");
    out
}

fn field(label: &str, value: String) -> (r: String)
    ensures
        r@ == field_text(label@, value@),
{
    let mut out = String::new();
    push_str(&mut out, label);
    push_str(&mut out, ": ");
    push_str(&mut out, value.as_str());
    out
}

fn join(items: &Vec<String>) -> (r: String)
    ensures
        r@ == joined(items@.map_values(|s: String| s@), ", "@),
{
    let ghost views = items@.map_values(|s: String| s@);
    let mut out = String::new();
    let mut k: usize = 0;
    while k < items.len()
        invariant
            k <= items@.len(),
            views == items@.map_values(|s: String| s@),
            out@ == joined(views.take(k as int), ", "@),
        decreases items@.len() - k,
    {
        proof {
            assert(views.take(k + 1).drop_last() =~= views.take(k as int));
            assert(views.take(k + 1).last() == items@[k as int]@);
            if k == 0 {
                assert(views.take(0) =~= Seq::<Seq<char>>::empty());
            }
        }
        if k > 0 {
            push_str(&mut out, ", ");
        }
        push_str(&mut out, items[k].as_str());
        k = k + 1;
    }
    proof {
        assert(views.take(items@.len() as int) =~= views);
    }
    out
}

fn structure(name: &str, fields: Vec<String>) -> (r: String)
    ensures
        r@ == struct_text(name@, fields@.map_values(|s: String| s@)),
{
    let mut out = String::new();
    push_str(&mut out, name);
    push_str(&mut out, " { ");
    let inner = join(&fields);
    push_str(&mut out, inner.as_str());
    push_str(&mut out, " }");
    out
}

fn struct1(name: &str, f1: String) -> (r: String)
    ensures
        r@ == struct_text(name@, seq![f1@]),
{
    let ghost views = seq![f1@];
    let fields = vec![f1];
    proof {
        assert(fields@.map_values(|s: String| s@) =~= views);
    }
    structure(name, fields)
}

fn struct2(name: &str, f1: String, f2: String) -> (r: String)
    ensures
        r@ == struct_text(name@, seq![f1@, f2@]),
{
    let ghost views = seq![f1@, f2@];
    let fields = vec![f1, f2];
    proof {
        assert(fields@.map_values(|s: String| s@) =~= views);
    }
    structure(name, fields)
}

fn struct3(name: &str, f1: String, f2: String, f3: String) -> (r: String)
    ensures
        r@ == struct_text(name@, seq![f1@, f2@, f3@]),
{
    let ghost views = seq![f1@, f2@, f3@];
    let fields = vec![f1, f2, f3];
    proof {
        assert(fields@.map_values(|s: String| s@) =~= views);
    }
    structure(name, fields)
}

fn struct4(name: &str, f1: String, f2: String, f3: String, f4: String) -> (r: String)
    ensures
        r@ == struct_text(name@, seq![f1@, f2@, f3@, f4@]),
{
    let ghost views = seq![f1@, f2@, f3@, f4@];
    let fields = vec![f1, f2, f3, f4];
    proof {
        assert(fields@.map_values(|s: String| s@) =~= views);
    }
    structure(name, fields)
}

fn struct5(name: &str, f1: String, f2: String, f3: String, f4: String, f5: String) -> (r: String)
    ensures
        r@ == struct_text(name@, seq![f1@, f2@, f3@, f4@, f5@]),
{
    let ghost views = seq![f1@, f2@, f3@, f4@, f5@];
    let fields = vec![f1, f2, f3, f4, f5];
    proof {
        assert(fields@.map_values(|s: String| s@) =~= views);
    }
    structure(name, fields)
}

fn quoted(value: &str) -> (r: String)
    ensures
        r@ == debug_quoted(value@),
{
    debug_string(value)
}

fn boolean(b: bool) -> (r: String)
    ensures
        r@ == bool_text(b),
{
    let mut out = String::new();
    if b {
        push_str(&mut out, "true");
    } else {
        push_str(&mut out, "false");
    }
    out
}

fn unit_list(units: &Vec<UnitId>) -> (r: String)
    ensures
        r@ == unit_list_text(units@),
{
    let mut items: Vec<String> = Vec::new();
    let mut k: usize = 0;
    while k < units.len()
        invariant
            k <= units@.len(),
            items@.len() == k,
            forall|t: int| 0 <= t < k ==> (#[trigger] items@[t])@ == unit_id_text(units@[t]),
        decreases units@.len() - k,
    {
        items.push(newtype("UnitId", units[k].as_str()));
        k = k + 1;
    }
    let mut out = String::new();
    push_str(&mut out, "[");
    let inner = join(&items);
    push_str(&mut out, inner.as_str());
    push_str(&mut out, "]");
    proof {
        assert(items@.map_values(|s: String| s@) =~= units@.map_values(|u: UnitId| unit_id_text(u)));
    }
    out
}

fn producer(p: &Producer) -> (r: String)
    ensures
        r@ == producer_text(*p),
{
    match p {
        Producer::ModuleInput => {
            let mut out = String::new();
            push_str(&mut out, "ModuleInput");
            out
        },
        Producer::Unit { unit, port } => {
            let fields = vec![field("unit", newtype("UnitId", unit.as_str())), field("port", quoted(port.as_str()))];
            proof {
                assert(fields@.map_values(|s: String| s@) =~= seq![
                    field_text("unit"@, unit_id_text(*unit)),
                    field_text("port"@, debug_quoted(port@)),
                ]);
            }
            structure("Unit", fields)
        },
    }
}

fn concrete(c: ConcreteType) -> (r: String) {
    let mut out = String::new();
    push_str(&mut out, "ConcreteType { id: ");
    let id = c.text();
    push_str(&mut out, id.as_str());
    push_str(&mut out, " }");
    out
}

/// The text of a graph error, as its derived `Debug` writes it; the two
/// concrete types of a representation mismatch are written by the text of
/// their type identities, which nothing here specifies.
pub fn compile_error_text(error: &CompileError) -> (r: String)
    ensures
        exists|expected: Seq<char>, other: Seq<char>| r@ == #[trigger] compile_error_debug(*error, expected, other),
{
    let ghost mut a: Seq<char> = Seq::empty();
    let ghost mut b: Seq<char> = Seq::empty();
    let out: String = match error {
        CompileError::DuplicateUnitType { unit_type } => struct1("DuplicateUnitType", field("unit_type", newtype("UnitTypeName", unit_type.as_str()))),
        CompileError::DuplicateDescriptorPort { unit_type } => struct1("DuplicateDescriptorPort", field("unit_type", newtype("UnitTypeName", unit_type.as_str()))),
        CompileError::UnknownUnitType { unit, unit_type } => struct2("UnknownUnitType", field("unit", newtype("UnitId", unit.as_str())), field("unit_type", newtype("UnitTypeName", unit_type.as_str()))),
        CompileError::UnknownResourceType { semantic_type } => struct1("UnknownResourceType", field("semantic_type", newtype("SemanticType", semantic_type.as_str()))),
        CompileError::MissingPort { unit, unit_type, port, input } => struct4("MissingPort", field("unit", newtype("UnitId", unit.as_str())),
                field("unit_type", newtype("UnitTypeName", unit_type.as_str())),
                field("port", quoted(port.as_str())),
                field("input", boolean(*input))),
        CompileError::UnknownPort { unit, unit_type, port, input } => struct4("UnknownPort", field("unit", newtype("UnitId", unit.as_str())),
                field("unit_type", newtype("UnitTypeName", unit_type.as_str())),
                field("port", quoted(port.as_str())),
                field("input", boolean(*input))),
        CompileError::DuplicatePortBinding { unit, unit_type } => struct2("DuplicatePortBinding", field("unit", newtype("UnitId", unit.as_str())), field("unit_type", newtype("UnitTypeName", unit_type.as_str()))),
        CompileError::ConcreteTypeMismatch { unit, port, semantic_type, expected, registered } => {
            let e = concrete(*expected);
            let g = concrete(*registered);
            proof {
                a = e@;
                b = g@;
            }
            struct5("ConcreteTypeMismatch", field("unit", newtype("UnitId", unit.as_str())),
                    field("port", quoted(port.as_str())),
                    field("semantic_type", newtype("SemanticType", semantic_type.as_str())),
                    field("expected", e),
                    field("registered", g))
        },
        CompileError::DuplicateUnit { unit } => struct1("DuplicateUnit", field("unit", newtype("UnitId", unit.as_str()))),
        CompileError::DuplicateResolvedPort { unit } => struct1("DuplicateResolvedPort", field("unit", newtype("UnitId", unit.as_str()))),
        CompileError::DuplicateProducer { resource, first, second } => struct3("DuplicateProducer", field("resource", newtype("ResourceId", resource.as_str())),
                field("first", producer(first)),
                field("second", producer(second))),
        CompileError::UnknownResource { unit, port, resource } => struct3("UnknownResource", field("unit", newtype("UnitId", unit.as_str())),
                field("port", quoted(port.as_str())),
                field("resource", newtype("ResourceId", resource.as_str()))),
        CompileError::UnknownModuleOutput { resource } => struct1("UnknownModuleOutput", field("resource", newtype("ResourceId", resource.as_str()))),
        CompileError::DuplicateModuleOutput => {
            let mut out = String::new();
            push_str(&mut out, "DuplicateModuleOutput");
            proof {
                assert(out@ == compile_error_debug(*error, a, b));
            }
            return out;
        },
        CompileError::SemanticTypeMismatch { unit, port, resource, expected, actual } => struct5("SemanticTypeMismatch", field("unit", newtype("UnitId", unit.as_str())),
                field("port", quoted(port.as_str())),
                field("resource", newtype("ResourceId", resource.as_str())),
                field("expected", newtype("SemanticType", expected.as_str())),
                field("actual", newtype("SemanticType", actual.as_str()))),
        CompileError::ConcreteBindingMismatch { unit, port, resource, expected, actual } => {
            let e = concrete(*expected);
            let g = concrete(*actual);
            proof {
                a = e@;
                b = g@;
            }
            struct5("ConcreteBindingMismatch", field("unit", newtype("UnitId", unit.as_str())),
                    field("port", quoted(port.as_str())),
                    field("resource", newtype("ResourceId", resource.as_str())),
                    field("expected", e),
                    field("actual", g))
        },
        CompileError::Cycle { path } => struct1("Cycle", field("path", unit_list(path))),
        CompileError::DenseUnitMissing { unit } => struct1("DenseUnitMissing", field("unit", newtype("UnitId", unit.as_str()))),
        CompileError::DenseResourceMissing { resource } => struct1("DenseResourceMissing", field("resource", newtype("ResourceId", resource.as_str()))),
    };
    proof {
        assert(out@ == compile_error_debug(*error, a, b));
    }
    out
}

/// The text of a configuration error, as its derived `Debug` writes it.
pub fn configuration_error_text(error: &ConfigurationError) -> (r: String)
    ensures
        r@ == configuration_error_debug(*error),
{
    let out: String = match error {
        ConfigurationError::UnknownField { path, field: f } => struct2("UnknownField", field("path", quoted(path.as_str())), field("field", quoted(f.as_str()))),
        ConfigurationError::Invalid { path, message } => struct2("Invalid", field("path", quoted(path.as_str())), field("message", quoted(message.as_str()))),
        ConfigurationError::SourceType { unit_type, expected } => struct2("SourceType", field("unit_type", newtype("UnitTypeName", unit_type.as_str())), field("expected", quoted(expected.as_str()))),
        ConfigurationError::ConfigurationType { unit_type, expected, actual } => struct3("ConfigurationType", field("unit_type", newtype("UnitTypeName", unit_type.as_str())),
                field("expected", quoted(expected.as_str())),
                field("actual", quoted(actual.as_str()))),
        ConfigurationError::UnresolvedRequirement { path, message } => struct2("UnresolvedRequirement", field("path", quoted(path.as_str())), field("message", quoted(message.as_str()))),
    };
    proof {
        assert(out@ == configuration_error_debug(*error));
    }
    out
}

} // verus!
