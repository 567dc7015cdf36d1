//! YAML syntax layer of the definition frontend: source spans and
//! diagnostics, the span-preserving syntax tree, and its construction from
//! the YAML event stream under size and depth limits.

use std::borrow::Cow;

use saphyr::ScalarOwned;
use saphyr_parser::Event;
use vstd::prelude::*;
use vstd::string::StringSliceAdditionalSpecFns;

use crate::render::{decimal, push_decimal};
use crate::text::{chars_eq, chars_of, push_str};

verus! {

/// Bounds checked while a document is read.
#[derive(Clone, Copy, Debug, PartialEq, Eq, Structural)]
pub struct ParseLimits {
    pub max_document_bytes: usize,
    pub max_depth: usize,
}

impl Default for ParseLimits {
    /// One MiB and 64 levels of nesting.
    fn default() -> (r: Self)
        ensures
            r.max_document_bytes == 1048576,
            r.max_depth == 64,
    {
        ParseLimits { max_document_bytes: 1048576, max_depth: 64 }
    }
}

/// Source range: lines and columns count from 1, offsets in characters from 0.
#[derive(Clone, Copy, Debug, PartialEq, Eq, Structural)]
pub struct SourceSpan {
    pub start_line: usize,
    pub start_column: usize,
    pub start_offset: usize,
    pub end_line: usize,
    pub end_column: usize,
    pub end_offset: usize,
}

/// The empty range at one position.
pub open spec fn point_span(line: usize, column: usize, offset: usize) -> SourceSpan {
    SourceSpan {
        start_line: line,
        start_column: column,
        start_offset: offset,
        end_line: line,
        end_column: column,
        end_offset: offset,
    }
}

impl SourceSpan {
    /// The range from the start of `self` to the end of `end`.
    pub open spec fn through_spec(self, end: Self) -> Self {
        SourceSpan {
            start_line: self.start_line,
            start_column: self.start_column,
            start_offset: self.start_offset,
            end_line: end.end_line,
            end_column: end.end_column,
            end_offset: end.end_offset,
        }
    }

    /// The empty range at one position.
    pub fn point(line: usize, column: usize, offset: usize) -> (r: Self)
        ensures
            r == point_span(line, column, offset),
    {
        SourceSpan {
            start_line: line,
            start_column: column,
            start_offset: offset,
            end_line: line,
            end_column: column,
            end_offset: offset,
        }
    }

    /// The range from the start of `self` to the end of `end`.
    pub fn through(self, end: Self) -> (r: Self)
        ensures
            r == self.through_spec(end),
    {
        SourceSpan {
            start_line: self.start_line,
            start_column: self.start_column,
            start_offset: self.start_offset,
            end_line: end.end_line,
            end_column: end.end_column,
            end_offset: end.end_offset,
        }
    }
}

/// Classification of a rejected definition.
#[derive(Clone, Copy, Debug, PartialEq, Eq, Structural)]
pub enum DiagnosticKind {
    Syntax,
    DocumentTooLarge,
    DepthLimit,
    Alias,
    MergeKey,
    DuplicateKey,
    UnknownField,
    MissingField,
    InvalidField,
    UnsupportedSchema,
    UnknownUnit,
    MissingPort,
    DuplicateProducer,
    TypeMismatch,
    UnresolvedBound,
    Cycle,
    Graph,
    Config,
}

/// A rejected definition: what, where in the document tree, where in the
/// source, and why.
#[derive(Clone, Debug, PartialEq, Eq)]
pub struct Diagnostic {
    pub kind: DiagnosticKind,
    pub path: String,
    pub span: SourceSpan,
    pub message: String,
}

/// `{path} at {line}:{column} ({offset}): {message}`.
pub open spec fn diagnostic_text(d: Diagnostic) -> Seq<char> {
    d.path@ + " at "@ + decimal(d.span.start_line as nat) + ":"@ + decimal(d.span.start_column as nat) + " ("@ + decimal(
        d.span.start_offset as nat,
    ) + "): "@ + d.message@
}

impl Diagnostic {
    pub fn new(kind: DiagnosticKind, path: String, span: SourceSpan, message: String) -> (r: Self)
        ensures
            r.kind == kind,
            r.path == path,
            r.span == span,
            r.message == message,
    {
        Diagnostic { kind, path, span, message }
    }

    /// The diagnostic as one line of text.
    pub fn to_text(&self) -> (r: String)
        ensures
            r@ == diagnostic_text(*self),
    {
        let mut out = String::new();
        push_str(&mut out, self.path.as_str());
        push_str(&mut out, " at ");
        push_decimal(&mut out, self.span.start_line);
        push_str(&mut out, ":");
        push_decimal(&mut out, self.span.start_column);
        push_str(&mut out, " (");
        push_decimal(&mut out, self.span.start_offset);
        push_str(&mut out, "): ");
        push_str(&mut out, self.message.as_str());
        out
    }
}

/// A diagnostic with literal path and message.
pub fn diagnostic(kind: DiagnosticKind, path: &str, span: SourceSpan, message: &str) -> (r: Diagnostic)
    ensures
        r.kind == kind,
        r.path@ == path@,
        r.span == span,
        r.message@ == message@,
{
    let mut p = String::new();
    push_str(&mut p, path);
    let mut m = String::new();
    push_str(&mut m, message);
    Diagnostic { kind, path: p, span, message: m }
}

/// Resolved value of a YAML scalar.
#[derive(Clone, Debug, PartialEq, Eq)]
pub enum ScalarValue {
    Null,
    Boolean(bool),
    Integer(i64),
    /// A floating-point scalar, kept as its source text.
    FloatingPoint(String),
    String(String),
}

/// How a scalar was written.
#[derive(Clone, Copy, Debug, PartialEq, Eq, Structural)]
pub enum ScalarStyleKind {
    Plain,
    SingleQuoted,
    DoubleQuoted,
    Literal,
    Folded,
}

/// A YAML tag: handle and suffix.
#[derive(Clone, Debug, PartialEq, Eq)]
pub struct YamlTag {
    pub handle: String,
    pub suffix: String,
}

/// One event of the YAML event stream.
#[derive(Clone, Debug, PartialEq, Eq)]
pub enum YamlEvent {
    Nothing,
    StreamStart,
    StreamEnd,
    DocumentStart,
    DocumentEnd,
    Alias,
    Scalar { value: String, style: ScalarStyleKind, tag: Option<YamlTag> },
    SequenceStart,
    SequenceEnd,
    MappingStart,
    MappingEnd,
}

/// The scanner error that ended an event stream: message and position
/// (line from 1, column from 0, character index from 0).
#[derive(Clone, Debug, PartialEq, Eq)]
pub struct ScanFailure {
    pub message: String,
    pub line: usize,
    pub column: usize,
    pub index: usize,
}

/// The events read from a document, then the error that stopped reading, if any.
#[derive(Clone, Debug, PartialEq, Eq)]
pub struct EventStream {
    pub events: Vec<(YamlEvent, SourceSpan)>,
    pub failure: Option<ScanFailure>,
}

/// Plain-value form of an event.
pub enum EventView {
    Nothing,
    StreamStart,
    StreamEnd,
    DocumentStart,
    DocumentEnd,
    Alias,
    Scalar(Seq<char>, ScalarStyleKind, Option<(Seq<char>, Seq<char>)>),
    SequenceStart,
    SequenceEnd,
    MappingStart,
    MappingEnd,
}

/// Plain-value form of a scalar.
pub enum ScalarView {
    Null,
    Boolean(bool),
    Integer(i64),
    FloatingPoint(Seq<char>),
    String(Seq<char>),
}

pub open spec fn tag_view(t: Option<YamlTag>) -> Option<(Seq<char>, Seq<char>)> {
    match t {
        Some(tag) => Some((tag.handle@, tag.suffix@)),
        None => None,
    }
}

pub open spec fn event_view(e: YamlEvent) -> EventView {
    match e {
        YamlEvent::Nothing => EventView::Nothing,
        YamlEvent::StreamStart => EventView::StreamStart,
        YamlEvent::StreamEnd => EventView::StreamEnd,
        YamlEvent::DocumentStart => EventView::DocumentStart,
        YamlEvent::DocumentEnd => EventView::DocumentEnd,
        YamlEvent::Alias => EventView::Alias,
        YamlEvent::Scalar { value, style, tag } => EventView::Scalar(value@, style, tag_view(tag)),
        YamlEvent::SequenceStart => EventView::SequenceStart,
        YamlEvent::SequenceEnd => EventView::SequenceEnd,
        YamlEvent::MappingStart => EventView::MappingStart,
        YamlEvent::MappingEnd => EventView::MappingEnd,
    }
}

pub open spec fn scalar_view(s: ScalarValue) -> ScalarView {
    match s {
        ScalarValue::Null => ScalarView::Null,
        ScalarValue::Boolean(b) => ScalarView::Boolean(b),
        ScalarValue::Integer(i) => ScalarView::Integer(i),
        ScalarValue::FloatingPoint(t) => ScalarView::FloatingPoint(t@),
        ScalarValue::String(t) => ScalarView::String(t@),
    }
}

pub open spec fn scalar_option_view(s: Option<ScalarValue>) -> Option<ScalarView> {
    match s {
        Some(v) => Some(scalar_view(v)),
        None => None,
    }
}

/// Plain-value form of an event stream.
pub open spec fn stream_view(s: EventStream) -> (Seq<(EventView, SourceSpan)>, Option<(Seq<char>, usize, usize, usize)>) {
    (
        s.events@.map_values(|p: (YamlEvent, SourceSpan)| (event_view(p.0), p.1)),
        match s.failure {
            Some(f) => Some((f.message@, f.line, f.column, f.index)),
            None => None,
        },
    )
}

/// The events that the YAML parser reads from a document, in order, with
/// the scanner error that stopped it, if any.
pub uninterp spec fn scanned_events(source: Seq<char>) -> (Seq<(EventView, SourceSpan)>, Option<(Seq<char>, usize, usize, usize)>);

/// How the YAML core schema resolves a scalar of the given text, style and tag.
pub uninterp spec fn scalar_of(value: Seq<char>, style: ScalarStyleKind, tag: Option<(Seq<char>, Seq<char>)>) -> Option<ScalarView>;

#[verifier::external_type_specification]
#[verifier::external_body]
pub struct ExEvent<'a>(saphyr_parser::Event<'a>);

#[verifier::external_type_specification]
#[verifier::external_body]
pub struct ExSpan(saphyr_parser::Span);

#[verifier::external_type_specification]
#[verifier::external_body]
pub struct ExScanError(saphyr_parser::ScanError);

#[verifier::external_type_specification]
#[verifier::external_body]
pub struct ExScalarStyle(saphyr_parser::ScalarStyle);

#[verifier::external_type_specification]
#[verifier::external_body]
pub struct ExTag(saphyr_parser::Tag);

/// `saphyr_parser::Parser::next_event`, run until the stream ends or the
/// scanner fails: every event with its span, then the scanner error, if
/// any. The result depends on the document text alone.
#[verifier::external_body]
fn scan_events(source: &str) -> (r: EventStream)
    ensures
        stream_view(r) == scanned_events(source@),
{
    let mut parser = saphyr_parser::Parser::new(saphyr_parser::BufferedInput::new(source.chars()));
    let mut events = Vec::new();
    while let Some(item) = parser.next_event() {
        match item {
            Ok((event, span)) => events.push((event_from(event), span_from(span))),
            Err(error) => return EventStream { events, failure: Some(failure_from(&error)) },
        }
    }
    EventStream { events, failure: None }
}

/// Converts a `saphyr_parser::Event`, dropping anchor ids and the explicit
/// document-start flag.
#[verifier::external_body]
fn event_from(event: Event<'_>) -> YamlEvent {
    match event {
        Event::Nothing => YamlEvent::Nothing,
        Event::StreamStart => YamlEvent::StreamStart,
        Event::StreamEnd => YamlEvent::StreamEnd,
        Event::DocumentStart(_) => YamlEvent::DocumentStart,
        Event::DocumentEnd => YamlEvent::DocumentEnd,
        Event::Alias(_) => YamlEvent::Alias,
        Event::Scalar(v, s, _, t) => YamlEvent::Scalar { value: v.into_owned(), style: style_from(s), tag: t.map(|t| tag_from(&t)) },
        Event::SequenceStart(..) => YamlEvent::SequenceStart,
        Event::SequenceEnd => YamlEvent::SequenceEnd,
        Event::MappingStart(..) => YamlEvent::MappingStart,
        Event::MappingEnd => YamlEvent::MappingEnd,
    }
}

/// Converts a `saphyr_parser::Tag`.
#[verifier::external_body]
fn tag_from(tag: &saphyr_parser::Tag) -> YamlTag {
    YamlTag { handle: tag.handle.clone(), suffix: tag.suffix.clone() }
}

/// Converts a style into `saphyr_parser::ScalarStyle`.
#[verifier::external_body]
fn style_to(style: ScalarStyleKind) -> saphyr_parser::ScalarStyle {
    match style {
        ScalarStyleKind::Plain => saphyr_parser::ScalarStyle::Plain,
        ScalarStyleKind::SingleQuoted => saphyr_parser::ScalarStyle::SingleQuoted,
        ScalarStyleKind::DoubleQuoted => saphyr_parser::ScalarStyle::DoubleQuoted,
        ScalarStyleKind::Literal => saphyr_parser::ScalarStyle::Literal,
        ScalarStyleKind::Folded => saphyr_parser::ScalarStyle::Folded,
    }
}

/// Converts a `saphyr_parser::ScalarStyle`.
#[verifier::external_body]
fn style_from(style: saphyr_parser::ScalarStyle) -> ScalarStyleKind {
    match style {
        saphyr_parser::ScalarStyle::Plain => ScalarStyleKind::Plain,
        saphyr_parser::ScalarStyle::SingleQuoted => ScalarStyleKind::SingleQuoted,
        saphyr_parser::ScalarStyle::DoubleQuoted => ScalarStyleKind::DoubleQuoted,
        saphyr_parser::ScalarStyle::Literal => ScalarStyleKind::Literal,
        saphyr_parser::ScalarStyle::Folded => ScalarStyleKind::Folded,
    }
}

/// Converts a `saphyr_parser::Span` field for field: lines, columns and
/// character indices as the scanner's markers give them.
#[verifier::external_body]
fn span_from(span: saphyr_parser::Span) -> SourceSpan {
    SourceSpan {
        start_line: span.start.line(),
        start_column: span.start.col(),
        start_offset: span.start.index(),
        end_line: span.end.line(),
        end_column: span.end.col(),
        end_offset: span.end.index(),
    }
}

/// A scanner column, which counts from 0, counted from 1.
pub open spec fn column_from_one(column: usize) -> usize {
    if column < usize::MAX {
        (column + 1) as usize
    } else {
        column
    }
}

/// A scanner span with its columns counted from 1.
pub open spec fn span_from_one(span: SourceSpan) -> SourceSpan {
    SourceSpan { start_column: column_from_one(span.start_column), end_column: column_from_one(span.end_column), ..span }
}

fn one_based(span: SourceSpan) -> (r: SourceSpan)
    ensures
        r == span_from_one(span),
{
    let start_column = if span.start_column < usize::MAX {
        span.start_column + 1
    } else {
        span.start_column
    };
    let end_column = if span.end_column < usize::MAX {
        span.end_column + 1
    } else {
        span.end_column
    };
    SourceSpan { start_column, end_column, ..span }
}

/// Converts a `saphyr_parser::ScanError`: its `info()` and `marker()`.
#[verifier::external_body]
fn failure_from(error: &saphyr_parser::ScanError) -> ScanFailure {
    let marker = error.marker();
    ScanFailure { message: error.info().to_owned(), line: marker.line(), column: marker.col(), index: marker.index() }
}

/// `saphyr::ScalarOwned::parse_from_cow_and_metadata`: a scalar that is not
/// plain is a string; an untagged empty plain scalar is null; otherwise the
/// core schema decides, and `None` means the tag does not accept the text.
#[verifier::external_body]
fn classify_scalar(value: &str, style: ScalarStyleKind, tag: &Option<YamlTag>) -> (r: Option<ScalarValue>)
    ensures
        scalar_option_view(r) == scalar_of(value@, style, tag_view(*tag)),
        style != ScalarStyleKind::Plain ==> scalar_option_view(r) == Some(ScalarView::String(value@)),
        style == ScalarStyleKind::Plain && tag is None && value@.len() == 0 ==> scalar_option_view(r) == Some(ScalarView::Null),
{
    let tag = tag.as_ref().map(|t| Cow::Owned(saphyr_parser::Tag { handle: t.handle.clone(), suffix: t.suffix.clone() }));
    match ScalarOwned::parse_from_cow_and_metadata(Cow::Borrowed(value), style_to(style), tag.as_ref()) {
        None => None,
        Some(ScalarOwned::Null) => Some(ScalarValue::Null),
        Some(ScalarOwned::Boolean(b)) => Some(ScalarValue::Boolean(b)),
        Some(ScalarOwned::Integer(i)) => Some(ScalarValue::Integer(i)),
        Some(ScalarOwned::FloatingPoint(_)) => Some(ScalarValue::FloatingPoint(value.to_owned())),
        Some(ScalarOwned::String(s)) => Some(ScalarValue::String(s)),
    }
}

/// One node of the syntax tree with its source range.
#[derive(Debug)]
pub struct Node {
    pub span: SourceSpan,
    pub kind: NodeKind,
}

#[derive(Debug)]
pub enum NodeKind {
    Scalar(ScalarValue),
    Alias,
    Sequence(Vec<Node>),
    Mapping(Vec<(Node, Node)>),
}

/// The text of a string scalar.
pub open spec fn scalar_text(n: Node) -> Option<Seq<char>> {
    match n.kind {
        NodeKind::Scalar(ScalarValue::String(s)) => Some(s@),
        _ => None,
    }
}

/// Child `i` of a node: an item of a sequence, or the value of a mapping entry.
pub open spec fn child_at(n: Node, i: int) -> Option<Node> {
    match n.kind {
        NodeKind::Sequence(vs) => if 0 <= i < vs@.len() {
            Some(vs@[i])
        } else {
            None
        },
        NodeKind::Mapping(es) => if 0 <= i < es@.len() {
            Some(es@[i].1)
        } else {
            None
        },
        _ => None,
    }
}

/// The node reached from `n` by following child positions `p`.
pub open spec fn node_at(n: Node, p: Seq<int>) -> Option<Node>
    decreases p.len(),
{
    if p.len() == 0 {
        Some(n)
    } else {
        match child_at(n, p[0]) {
            Some(c) => node_at(c, p.drop_first()),
            None => None,
        }
    }
}

/// Key `i` of a mapping is a string, not the merge key `<<`, and differs
/// from every earlier key.
pub open spec fn key_ok(es: Seq<(Node, Node)>, i: int) -> bool {
    &&& scalar_text(es[i].0) is Some
    &&& scalar_text(es[i].0)->0 != "<<"@
    &&& forall|j: int| 0 <= j < i ==> scalar_text(#[trigger] es[j].0) != scalar_text(es[i].0)
}

/// The node itself is acceptable: no alias, and valid keys if a mapping.
pub open spec fn locally_valid(n: Node) -> bool {
    match n.kind {
        NodeKind::Alias => false,
        NodeKind::Mapping(es) => forall|i: int| 0 <= i < es@.len() ==> #[trigger] key_ok(es@, i),
        _ => true,
    }
}

/// No node of the tree is an alias, and every mapping has distinct string
/// keys other than `<<`.
pub open spec fn keys_valid(n: Node) -> bool {
    forall|p: Seq<int>| #[trigger] node_at(n, p) is Some ==> locally_valid(node_at(n, p)->0)
}

/// A tree is valid exactly when its root is and all its children are.
pub proof fn lemma_keys_valid_step(n: Node)
    ensures
        keys_valid(n) <==> locally_valid(n) && forall|i: int| #[trigger] child_at(n, i) is Some ==> keys_valid(child_at(n, i)->0),
{
    if keys_valid(n) {
        assert(node_at(n, Seq::empty()) == Some(n));
        assert forall|i: int| #[trigger] child_at(n, i) is Some implies keys_valid(child_at(n, i)->0) by {
            let c = child_at(n, i)->0;
            assert forall|q: Seq<int>| #[trigger] node_at(c, q) is Some implies locally_valid(node_at(c, q)->0) by {
                let p = seq![i] + q;
                assert(p.drop_first() =~= q);
                assert(node_at(n, p) == node_at(c, q));
            }
        }
    }
    if locally_valid(n) && forall|i: int| #[trigger] child_at(n, i) is Some ==> keys_valid(child_at(n, i)->0) {
        assert forall|p: Seq<int>| #[trigger] node_at(n, p) is Some implies locally_valid(node_at(n, p)->0) by {
            if p.len() > 0 {
                let c = child_at(n, p[0]);
                assert(c is Some);
                assert(keys_valid(c->0));
                assert(node_at(c->0, p.drop_first()) is Some);
            }
        }
    }
}

impl Node {
    /// The text of a string scalar.
    pub fn as_string(&self) -> (r: Option<String>)
        ensures
            r is Some <==> scalar_text(*self) is Some,
            r matches Some(t) ==> Some(t@) == scalar_text(*self),
    {
        match &self.kind {
            NodeKind::Scalar(ScalarValue::String(value)) => Some(value.clone()),
            _ => None,
        }
    }

    /// The entries of a mapping.
    pub fn mapping(&self) -> (r: Option<&Vec<(Node, Node)>>)
        ensures
            r is Some <==> self.kind is Mapping,
            r matches Some(es) ==> self.kind == NodeKind::Mapping(*es),
    {
        match &self.kind {
            NodeKind::Mapping(entries) => Some(entries),
            _ => None,
        }
    }
}

/// Whether the node is a string scalar with text `field`.
fn key_is(key: &Node, field: &Vec<char>) -> (r: bool)
    ensures
        r == (scalar_text(*key) == Some(field@)),
{
    match &key.kind {
        NodeKind::Scalar(ScalarValue::String(value)) => {
            let text = chars_of(value.as_str());
            chars_eq(&text, field)
        },
        _ => false,
    }
}

/// The span of the node that a dotted field path names, following mapping
/// keys from `n`; where a field is missing, the span of `n`.
pub open spec fn span_at_fields(n: Node, fields: Seq<Seq<char>>, cur: Node) -> SourceSpan
    decreases fields.len(),
{
    if fields.len() == 0 {
        cur.span
    } else {
        match cur.kind {
            NodeKind::Mapping(es) => if exists|i: int| 0 <= i < es@.len() && scalar_text(#[trigger] es@[i].0) == Some(fields[0]) {
                let i = choose|i: int| 0 <= i < es@.len() && scalar_text(#[trigger] es@[i].0) == Some(fields[0]) && forall|j: int| 0 <= j < i ==> scalar_text(#[trigger] es@[j].0) != Some(fields[0]);
                span_at_fields(n, fields.drop_first(), es@[i].1)
            } else {
                n.span
            },
            _ => n.span,
        }
    }
}

/// The text between dots: `a.b` gives `a`, `b`; text without a dot is one field.
pub open spec fn dot_fields(s: Seq<char>) -> Seq<Seq<char>>
    decreases s.len(),
{
    if s.len() == 0 {
        seq![Seq::empty()]
    } else {
        let front = dot_fields(s.drop_last());
        if s.last() == '.' {
            front.push(Seq::empty())
        } else {
            front.update(front.len() - 1, front.last().push(s.last()))
        }
    }
}

proof fn lemma_dot_fields_nonempty(s: Seq<char>)
    ensures
        dot_fields(s).len() >= 1,
    decreases s.len(),
{
    if s.len() > 0 {
        lemma_dot_fields_nonempty(s.drop_last());
    }
}

/// Splits text at every dot.
fn split_dots(text: &str) -> (r: Vec<Vec<char>>)
    ensures
        r@.map_values(|v: Vec<char>| v@) == dot_fields(text@),
{
    let chars = chars_of(text);
    let mut fields: Vec<Vec<char>> = Vec::new();
    fields.push(Vec::new());
    let mut k: usize = 0;
    while k < chars.len()
        invariant
            k <= chars@.len(),
            chars@ == text@,
            fields@.len() >= 1,
            fields@.map_values(|v: Vec<char>| v@) == dot_fields(chars@.take(k as int)),
        decreases chars@.len() - k,
    {
        let c = chars[k];
        let ghost before = fields@.map_values(|v: Vec<char>| v@);
        proof {
            assert(chars@.take(k as int + 1).drop_last() =~= chars@.take(k as int));
        }
        if c == '.' {
            fields.push(Vec::new());
            proof {
                assert(fields@.map_values(|v: Vec<char>| v@) =~= before.push(Seq::empty()));
            }
        } else {
            let mut last = fields.pop().unwrap();
            last.push(c);
            fields.push(last);
            proof {
                assert(fields@.map_values(|v: Vec<char>| v@) =~= before.update(before.len() - 1, before.last().push(c)));
            }
        }
        k = k + 1;
    }
    proof {
        assert(chars@.take(chars@.len() as int) =~= chars@);
    }
    fields
}

impl Node {
    /// The span of the node that a dotted field path names below this
    /// mapping node; the node's own span where the path leaves the tree.
    #[verifier::loop_isolation(false)]
    pub fn span_at(&self, path: &str) -> (r: SourceSpan)
        ensures
            r == span_at_fields(*self, dot_fields(path@), *self),
    {
        let fields = split_dots(path);
        let ghost fv = fields@.map_values(|v: Vec<char>| v@);
        let mut cur: &Node = self;
        let mut k: usize = 0;
        proof {
            assert(fv.skip(0) =~= fv);
        }
        while k < fields.len()
            invariant
                k <= fields@.len(),
                fv == fields@.map_values(|v: Vec<char>| v@),
                fv == dot_fields(path@),
                span_at_fields(*self, fv.skip(k as int), *cur) == span_at_fields(*self, fv, *self),
            decreases fields@.len() - k,
        {
            proof {
                assert(fv.skip(k as int).drop_first() =~= fv.skip(k as int + 1));
                assert(fv.skip(k as int)[0] == fields@[k as int]@);
            }
            match cur.mapping() {
                None => {
                    return self.span;
                },
                Some(es) => {
                    let mut i: usize = 0;
                    let mut found = false;
                    while i < es.len()
                        invariant
                            i <= es@.len(),
                            !found,
                            forall|j: int| 0 <= j < i ==> scalar_text(#[trigger] es@[j].0) != Some(fields@[k as int]@),
                        decreases es@.len() - i,
                    {
                        if key_is(&es[i].0, &fields[k]) {
                            found = true;
                            break;
                        }
                        i = i + 1;
                    }
                    if !found {
                        return self.span;
                    }
                    proof {
                        let f = fields@[k as int]@;
                        let c = choose|c: int| 0 <= c < es@.len() && scalar_text(#[trigger] es@[c].0) == Some(f) && forall|j: int| 0 <= j < c ==> scalar_text(#[trigger] es@[j].0) != Some(f);
                        assert(c == i as int) by {
                            if c < i {
                            } else if c > i {
                                assert(scalar_text(es@[i as int].0) != Some(f));
                            }
                        }
                    }
                    cur = &es[i].1;
                },
            }
            k = k + 1;
        }
        proof {
            assert(fv.skip(k as int).len() == 0);
        }
        cur.span
    }
}

/// Kinds of diagnostic that reading a document can produce.
pub open spec fn syntax_kind(k: DiagnosticKind) -> bool {
    k == DiagnosticKind::Syntax || k == DiagnosticKind::DocumentTooLarge || k == DiagnosticKind::DepthLimit || k
        == DiagnosticKind::Alias || k == DiagnosticKind::MergeKey || k == DiagnosticKind::DuplicateKey || k
        == DiagnosticKind::InvalidField
}

fn joined_path(path: &str, sep: &str, field: &str) -> (r: String)
    ensures
        r@ == path@ + sep@ + field@,
{
    let mut out = String::new();
    push_str(&mut out, path);
    push_str(&mut out, sep);
    push_str(&mut out, field);
    out
}

fn indexed_path(path: &str, index: usize) -> (r: String)
    ensures
        r@ == path@ + "["@ + decimal(index as nat) + "]"@,
{
    let mut out = String::new();
    push_str(&mut out, path);
    push_str(&mut out, "[");
    push_decimal(&mut out, index);
    push_str(&mut out, "]");
    out
}

/// Whether `key` occurs in `seen`.
fn seen_before(seen: &Vec<String>, key: &String) -> (r: bool)
    ensures
        r == exists|j: int| 0 <= j < seen@.len() && (#[trigger] seen@[j])@ == key@,
{
    let mut j: usize = 0;
    while j < seen.len()
        invariant
            j <= seen@.len(),
            forall|t: int| 0 <= t < j ==> (#[trigger] seen@[t])@ != key@,
        decreases seen@.len() - j,
    {
        if crate::text::text_eq(seen[j].as_str(), key.as_str()) {
            return true;
        }
        j = j + 1;
    }
    false
}

/// Rejects aliases, non-string and merge keys, and duplicate keys anywhere
/// in the tree, reporting the first violation in document order at its path.
#[verifier::loop_isolation(false)]
pub fn validate_mapping_keys(node: &Node, path: &str) -> (r: Result<(), Diagnostic>)
    ensures
        r is Ok <==> keys_valid(*node),
        r matches Err(d) ==> d.kind == DiagnosticKind::Alias || d.kind == DiagnosticKind::MergeKey || d.kind
            == DiagnosticKind::DuplicateKey || d.kind == DiagnosticKind::InvalidField,
    decreases *node,
{
    proof {
        lemma_keys_valid_step(*node);
    }
    match &node.kind {
        NodeKind::Scalar(_) => Ok(()),
        NodeKind::Alias => Err(diagnostic(DiagnosticKind::Alias, path, node.span, "YAML aliases are not supported")),
        NodeKind::Sequence(values) => {
            let mut i: usize = 0;
            while i < values.len()
                invariant
                    i <= values@.len(),
                    node.kind == NodeKind::Sequence(*values),
                    forall|t: int| 0 <= t < i ==> keys_valid(#[trigger] values@[t]),
                decreases values@.len() - i,
            {
                proof {
                    assert(decreases_to!(*node => node.kind));
                    assert(decreases_to!(node.kind => node.kind->Sequence_0));
                    assert(decreases_to!(*values => values@)) by {
                        broadcast use vstd::std_specs::vec::axiom_vec_decreases_to_view;
                    }
                    assert(decreases_to!(values@ => values@[i as int])) by {
                        broadcast use vstd::seq::axiom_seq_index_decreases;
                    }
                }
                let child_path = indexed_path(path, i);
                let checked = validate_mapping_keys(&values[i], child_path.as_str());
                if checked.is_err() {
                    proof {
                        assert(child_at(*node, i as int) == Some(values@[i as int]));
                    }
                    return checked;
                }
                i = i + 1;
            }
            proof {
                assert forall|t: int| #[trigger] child_at(*node, t) is Some implies keys_valid(child_at(*node, t)->0) by {
                    assert(child_at(*node, t) == Some(values@[t]));
                }
            }
            Ok(())
        },
        NodeKind::Mapping(entries) => {
            let mut seen: Vec<String> = Vec::new();
            let mut i: usize = 0;
            while i < entries.len()
                invariant
                    i <= entries@.len(),
                    node.kind == NodeKind::Mapping(*entries),
                    seen@.len() == i,
                    forall|t: int| 0 <= t < i ==> Some((#[trigger] seen@[t])@) == scalar_text(entries@[t].0),
                    forall|t: int| 0 <= t < i ==> #[trigger] key_ok(entries@, t),
                    forall|t: int| 0 <= t < i ==> keys_valid(#[trigger] entries@[t].1),
                decreases entries@.len() - i,
            {
                let key = &entries[i].0;
                let key_text = match key.as_string() {
                    Some(text) => text,
                    None => {
                        proof {
                            assert(!key_ok(entries@, i as int));
                        }
                        return Err(diagnostic(DiagnosticKind::InvalidField, path, key.span, "mapping keys must be strings"));
                    },
                };
                let child_path = joined_path(path, ".", key_text.as_str());
                if crate::text::text_eq(key_text.as_str(), "<<") {
                    proof {
                        assert(!key_ok(entries@, i as int));
                    }
                    let mut message = String::new();
                    push_str(&mut message, "YAML merge keys are not supported");
                    return Err(Diagnostic::new(DiagnosticKind::MergeKey, child_path, key.span, message));
                }
                if seen_before(&seen, &key_text) {
                    proof {
                        let j = choose|j: int| 0 <= j < seen@.len() && (#[trigger] seen@[j])@ == key_text@;
                        assert(scalar_text(entries@[j].0) == scalar_text(entries@[i as int].0));
                        assert(!key_ok(entries@, i as int));
                    }
                    let mut message = String::new();
                    push_str(&mut message, "duplicate mapping key");
                    return Err(Diagnostic::new(DiagnosticKind::DuplicateKey, child_path, key.span, message));
                }
                proof {
                    assert forall|j: int| 0 <= j < i implies scalar_text(#[trigger] entries@[j].0) != scalar_text(entries@[i as int].0) by {
                        assert(Some(seen@[j]@) == scalar_text(entries@[j].0));
                    }
                    assert(key_ok(entries@, i as int));
                    assert(decreases_to!(*node => node.kind));
                    assert(decreases_to!(node.kind => node.kind->Mapping_0));
                    assert(decreases_to!(*entries => entries@)) by {
                        broadcast use vstd::std_specs::vec::axiom_vec_decreases_to_view;
                    }
                    assert(decreases_to!(entries@ => entries@[i as int])) by {
                        broadcast use vstd::seq::axiom_seq_index_decreases;
                    }
                }
                let checked = validate_mapping_keys(&entries[i].1, child_path.as_str());
                if checked.is_err() {
                    proof {
                        assert(child_at(*node, i as int) == Some(entries@[i as int].1));
                    }
                    return checked;
                }
                seen.push(key_text);
                i = i + 1;
            }
            proof {
                assert forall|t: int| #[trigger] child_at(*node, t) is Some implies keys_valid(child_at(*node, t)->0) by {
                    assert(child_at(*node, t) == Some(entries@[t].1));
                }
            }
            Ok(())
        },
    }
}

/// An open collection while a document is read.
pub enum Container {
    Sequence { start: SourceSpan, values: Vec<Node> },
    Mapping { start: SourceSpan, values: Vec<(Node, Node)>, key: Option<Node> },
}

/// What the syntax tree keeps of an event that carries a node: a resolved
/// scalar, an alias, the start of a collection, or the end of the innermost
/// open collection.
pub enum Token {
    Scalar(Option<ScalarView>),
    Alias,
    SequenceStart,
    MappingStart,
    End,
}

/// The token of one event; stream and document markers carry none.
pub open spec fn event_token(e: EventView) -> Seq<Token> {
    match e {
        EventView::Alias => seq![Token::Alias],
        EventView::Scalar(value, style, tag) => seq![Token::Scalar(scalar_of(value, style, tag))],
        EventView::SequenceStart => seq![Token::SequenceStart],
        EventView::MappingStart => seq![Token::MappingStart],
        EventView::SequenceEnd | EventView::MappingEnd => seq![Token::End],
        _ => Seq::empty(),
    }
}

/// The tokens of an event stream, in order.
pub open spec fn event_tokens(es: Seq<(EventView, SourceSpan)>) -> Seq<Token>
    decreases es.len(),
{
    if es.len() == 0 {
        Seq::empty()
    } else {
        event_tokens(es.drop_last()) + event_token(es.last().0)
    }
}

/// The tokens that write out a tree: a scalar or alias as itself, a
/// collection as its start, its items (keys before their values) and an end.
pub open spec fn node_tokens(n: Node) -> Seq<Token>
    decreases n,
{
    match n.kind {
        NodeKind::Scalar(v) => seq![Token::Scalar(Some(scalar_view(v)))],
        NodeKind::Alias => seq![Token::Alias],
        NodeKind::Sequence(vs) => {
            proof {
                assert(decreases_to!(n => n.kind));
                assert(decreases_to!(n.kind => vs));
                assert(decreases_to!(vs => vs@)) by {
                    broadcast use vstd::std_specs::vec::axiom_vec_decreases_to_view;
                }
            }
            seq![Token::SequenceStart] + items_tokens(vs@) + seq![Token::End]
        },
        NodeKind::Mapping(es) => {
            proof {
                assert(decreases_to!(n => n.kind));
                assert(decreases_to!(n.kind => es));
                assert(decreases_to!(es => es@)) by {
                    broadcast use vstd::std_specs::vec::axiom_vec_decreases_to_view;
                }
            }
            seq![Token::MappingStart] + entries_tokens(es@) + seq![Token::End]
        },
    }
}

/// The tokens of sequence items, one after another.
pub open spec fn items_tokens(items: Seq<Node>) -> Seq<Token>
    decreases items,
{
    if items.len() == 0 {
        Seq::empty()
    } else {
        proof {
            assert(items.drop_last() =~= items.subrange(0, items.len() - 1));
            assert(decreases_to!(items => items.subrange(0, items.len() - 1))) by {
                broadcast use vstd::seq::axiom_seq_subrange_decreases;
            }
            assert(decreases_to!(items => items[items.len() - 1])) by {
                broadcast use vstd::seq::axiom_seq_index_decreases;
            }
        }
        items_tokens(items.drop_last()) + node_tokens(items.last())
    }
}

/// The tokens of mapping entries, each key before its value.
pub open spec fn entries_tokens(entries: Seq<(Node, Node)>) -> Seq<Token>
    decreases entries,
{
    if entries.len() == 0 {
        Seq::empty()
    } else {
        proof {
            assert(entries.drop_last() =~= entries.subrange(0, entries.len() - 1));
            assert(decreases_to!(entries => entries.subrange(0, entries.len() - 1))) by {
                broadcast use vstd::seq::axiom_seq_subrange_decreases;
            }
            assert(decreases_to!(entries => entries[entries.len() - 1])) by {
                broadcast use vstd::seq::axiom_seq_index_decreases;
            }
        }
        entries_tokens(entries.drop_last()) + node_tokens(entries.last().0) + node_tokens(entries.last().1)
    }
}

/// Collection starts minus ends.
pub open spec fn token_balance(ts: Seq<Token>) -> int
    decreases ts.len(),
{
    if ts.len() == 0 {
        0
    } else {
        token_balance(ts.drop_last()) + match ts.last() {
            Token::SequenceStart | Token::MappingStart => 1int,
            Token::End => -1int,
            _ => 0int,
        }
    }
}

proof fn lemma_balance_append(a: Seq<Token>, b: Seq<Token>)
    ensures
        token_balance(a + b) == token_balance(a) + token_balance(b),
    decreases b.len(),
{
    if b.len() > 0 {
        assert((a + b).drop_last() =~= a + b.drop_last());
        lemma_balance_append(a, b.drop_last());
    } else {
        assert(a + b =~= a);
    }
}

proof fn lemma_single_balance(t: Token)
    ensures
        token_balance(seq![t]) == match t {
            Token::SequenceStart | Token::MappingStart => 1int,
            Token::End => -1int,
            _ => 0int,
        },
{
    reveal_with_fuel(token_balance, 2);
    assert(seq![t].drop_last() =~= Seq::<Token>::empty());
    assert(seq![t].last() == t);
}

proof fn lemma_node_balanced(n: Node)
    ensures
        token_balance(node_tokens(n)) == 0,
    decreases n,
{
    match n.kind {
        NodeKind::Sequence(vs) => {
            assert(decreases_to!(n => n.kind));
            assert(decreases_to!(n.kind => vs));
            assert(decreases_to!(vs => vs@)) by {
                broadcast use vstd::std_specs::vec::axiom_vec_decreases_to_view;
            }
            lemma_items_balanced(vs@);
            lemma_balance_append(seq![Token::SequenceStart], items_tokens(vs@));
            lemma_balance_append(seq![Token::SequenceStart] + items_tokens(vs@), seq![Token::End]);
            lemma_single_balance(Token::SequenceStart);
            lemma_single_balance(Token::End);
        },
        NodeKind::Mapping(es) => {
            assert(decreases_to!(n => n.kind));
            assert(decreases_to!(n.kind => es));
            assert(decreases_to!(es => es@)) by {
                broadcast use vstd::std_specs::vec::axiom_vec_decreases_to_view;
            }
            lemma_entries_balanced(es@);
            lemma_balance_append(seq![Token::MappingStart], entries_tokens(es@));
            lemma_balance_append(seq![Token::MappingStart] + entries_tokens(es@), seq![Token::End]);
            lemma_single_balance(Token::MappingStart);
            lemma_single_balance(Token::End);
        },
        NodeKind::Scalar(v) => {
            lemma_single_balance(Token::Scalar(Some(scalar_view(v))));
        },
        NodeKind::Alias => {
            lemma_single_balance(Token::Alias);
        },
    }
}

proof fn lemma_items_balanced(items: Seq<Node>)
    ensures
        token_balance(items_tokens(items)) == 0,
    decreases items,
{
    if items.len() > 0 {
        assert(items.drop_last() =~= items.subrange(0, items.len() - 1));
        assert(decreases_to!(items => items.subrange(0, items.len() - 1))) by {
            broadcast use vstd::seq::axiom_seq_subrange_decreases;
        }
        assert(decreases_to!(items => items[items.len() - 1])) by {
            broadcast use vstd::seq::axiom_seq_index_decreases;
        }
        lemma_items_balanced(items.drop_last());
        lemma_node_balanced(items.last());
        lemma_balance_append(items_tokens(items.drop_last()), node_tokens(items.last()));
    }
}

proof fn lemma_entries_balanced(entries: Seq<(Node, Node)>)
    ensures
        token_balance(entries_tokens(entries)) == 0,
    decreases entries,
{
    if entries.len() > 0 {
        assert(entries.drop_last() =~= entries.subrange(0, entries.len() - 1));
        assert(decreases_to!(entries => entries.subrange(0, entries.len() - 1))) by {
            broadcast use vstd::seq::axiom_seq_subrange_decreases;
        }
        assert(decreases_to!(entries => entries[entries.len() - 1])) by {
            broadcast use vstd::seq::axiom_seq_index_decreases;
        }
        let last = entries.last();
        assert(decreases_to!(last => last.0));
        assert(decreases_to!(last => last.1));
        lemma_entries_balanced(entries.drop_last());
        lemma_node_balanced(last.0);
        lemma_node_balanced(last.1);
        lemma_balance_append(entries_tokens(entries.drop_last()), node_tokens(last.0));
        lemma_balance_append(entries_tokens(entries.drop_last()) + node_tokens(last.0), node_tokens(last.1));
    }
}

/// Closes a collection into a node spanning from its start to `end`; a
/// mapping may not end between a key and its value.
pub fn finish_container(container: Container, end: SourceSpan) -> (r: Result<Node, Diagnostic>)
    ensures
        container matches Container::Sequence { start, values } ==> r == Ok::<Node, Diagnostic>(
            Node { span: start.through_spec(end), kind: NodeKind::Sequence(values) },
        ),
        container matches Container::Mapping { start, values, key } ==> match key {
            Some(k) => r matches Err(d) && d.kind == DiagnosticKind::Syntax && d.path@ == "$"@ && d.span == k.span
                && d.message@ == "mapping key has no value"@,
            None => r == Ok::<Node, Diagnostic>(Node { span: start.through_spec(end), kind: NodeKind::Mapping(values) }),
        },
{
    match container {
        Container::Sequence { start, values } => Ok(Node { span: start.through(end), kind: NodeKind::Sequence(values) }),
        Container::Mapping { start, values, key } => {
            match key {
                Some(k) => Err(diagnostic(DiagnosticKind::Syntax, "$", k.span, "mapping key has no value")),
                None => Ok(Node { span: start.through(end), kind: NodeKind::Mapping(values) }),
            }
        },
    }
}

/// `out` is `c` with the finished `node` added: appended to a sequence,
/// paired with a pending mapping key, or held as the next mapping key.
pub open spec fn added(c: Container, node: Node, out: Container) -> bool {
    match c {
        Container::Sequence { start, values } => (out matches Container::Sequence { start: s2, values: v2 } && s2 == start
            && v2@ == values@.push(node)),
        Container::Mapping { start, values, key } => (out matches Container::Mapping { start: s2, values: v2, key: k2 } && s2
            == start && match key {
            Some(k) => v2@ == values@.push((k, node)) && k2 is None,
            None => v2@ == values@ && k2 == Some(node),
        }),
    }
}

/// The tokens read so far of an open collection: its start, its finished
/// items, and a key still waiting for its value.
pub open spec fn open_tokens(c: Container) -> Seq<Token> {
    match c {
        Container::Sequence { values, .. } => seq![Token::SequenceStart] + items_tokens(values@),
        Container::Mapping { values, key, .. } => seq![Token::MappingStart] + entries_tokens(values@) + match key {
            Some(k) => node_tokens(k),
            None => Seq::empty(),
        },
    }
}

/// The tokens read so far of the open collections, outermost first.
pub open spec fn stack_tokens(stack: Seq<Container>) -> Seq<Token>
    decreases stack.len(),
{
    if stack.len() == 0 {
        Seq::empty()
    } else {
        stack_tokens(stack.drop_last()) + open_tokens(stack.last())
    }
}

/// The tokens of the finished root value, if any.
pub open spec fn root_tokens(root: Option<Node>) -> Seq<Token> {
    match root {
        Some(n) => node_tokens(n),
        None => Seq::empty(),
    }
}

proof fn lemma_added_tokens(c: Container, node: Node, out: Container)
    requires
        added(c, node, out),
    ensures
        open_tokens(out) == open_tokens(c) + node_tokens(node),
{
    match c {
        Container::Sequence { values, .. } => {
            let v2 = out->Sequence_values;
            assert(v2@.drop_last() =~= values@);
            assert(items_tokens(v2@) == items_tokens(values@) + node_tokens(node));
        },
        Container::Mapping { values, key, .. } => {
            let v2 = out->Mapping_values;
            match key {
                Some(k) => {
                    assert(v2@.drop_last() =~= values@);
                    assert(entries_tokens(v2@) == entries_tokens(values@) + node_tokens(k) + node_tokens(node));
                },
                None => {},
            }
        },
    }
}

proof fn lemma_stack_push_tokens(stack: Seq<Container>, c: Container)
    ensures
        stack_tokens(stack.push(c)) == stack_tokens(stack) + open_tokens(c),
{
    assert(stack.push(c).drop_last() =~= stack);
}

proof fn lemma_stack_balance(stack: Seq<Container>)
    ensures
        token_balance(stack_tokens(stack)) == stack.len(),
    decreases stack.len(),
{
    if stack.len() > 0 {
        lemma_stack_balance(stack.drop_last());
        let c = stack.last();
        match c {
            Container::Sequence { values, .. } => {
                lemma_items_balanced(values@);
                lemma_single_balance(Token::SequenceStart);
                lemma_balance_append(seq![Token::SequenceStart], items_tokens(values@));
            },
            Container::Mapping { values, key, .. } => {
                lemma_entries_balanced(values@);
                lemma_single_balance(Token::MappingStart);
                lemma_balance_append(seq![Token::MappingStart], entries_tokens(values@));
                let tail: Seq<Token> = match key {
                    Some(k) => node_tokens(k),
                    None => Seq::empty(),
                };
                if let Some(k) = key {
                    lemma_node_balanced(k);
                }
                lemma_balance_append(seq![Token::MappingStart] + entries_tokens(values@), tail);
            },
        }
        lemma_balance_append(stack_tokens(stack.drop_last()), open_tokens(c));
    }
}

proof fn lemma_pushed_tokens(s1: Seq<Container>, r1: Option<Node>, node: Node, s2: Seq<Container>, r2: Option<Node>)
    requires
        s1.len() > 0 ==> r2 == r1 && s2.len() == s1.len() && s2.drop_last() == s1.drop_last() && added(s1.last(), node, s2.last()),
        s1.len() == 0 ==> s2 == s1 && r1 is None && r2 == Some(node),
    ensures
        root_tokens(r2) + stack_tokens(s2) == root_tokens(r1) + stack_tokens(s1) + node_tokens(node),
{
    if s1.len() > 0 {
        lemma_added_tokens(s1.last(), node, s2.last());
        assert(stack_tokens(s2) == stack_tokens(s1.drop_last()) + open_tokens(s2.last()));
    } else {
        assert(stack_tokens(s2) =~= Seq::<Token>::empty());
    }
}

proof fn lemma_open_balance(root: Option<Node>, stack: Seq<Container>)
    ensures
        token_balance(root_tokens(root) + stack_tokens(stack)) == stack.len(),
{
    match root {
        Some(n) => lemma_node_balanced(n),
        None => {},
    }
    assert(token_balance(Seq::<Token>::empty()) == 0);
    lemma_stack_balance(stack);
    lemma_balance_append(root_tokens(root), stack_tokens(stack));
}

proof fn lemma_root_tokens(ts: Seq<Token>, root: Node, stack: Seq<Container>)
    requires
        ts == node_tokens(root) + stack_tokens(stack),
    ensures
        node_tokens(root).is_prefix_of(ts),
        token_balance(ts) == 0 ==> ts == node_tokens(root),
{
    assert(node_tokens(root) =~= ts.subrange(0, node_tokens(root).len() as int));
    lemma_node_balanced(root);
    lemma_stack_balance(stack);
    lemma_balance_append(node_tokens(root), stack_tokens(stack));
    if token_balance(ts) == 0 {
        assert(stack_tokens(stack) =~= Seq::<Token>::empty());
        assert(ts =~= node_tokens(root));
    }
}

proof fn lemma_finished_tokens(c: Container, end: SourceSpan, node: Node)
    requires
        match c {
            Container::Sequence { start, values } => node == Node { span: start.through_spec(end), kind: NodeKind::Sequence(values) },
            Container::Mapping { start, values, key } => key is None && node == Node {
                span: start.through_spec(end),
                kind: NodeKind::Mapping(values),
            },
        },
    ensures
        node_tokens(node) == open_tokens(c) + seq![Token::End],
{
    match c {
        Container::Sequence { .. } => {},
        Container::Mapping { values, .. } => {
            assert(seq![Token::MappingStart] + entries_tokens(values@) + Seq::<Token>::empty() =~= seq![Token::MappingStart]
                + entries_tokens(values@));
        },
    }
}

/// Adds a finished node to the innermost open collection, or makes it the
/// root; a second root value is rejected.
pub fn push_node(stack: &mut Vec<Container>, root: &mut Option<Node>, node: Node) -> (r: Result<(), Diagnostic>)
    ensures
        old(stack)@.len() > 0 ==> r is Ok && *final(root) == *old(root) && final(stack)@.len() == old(stack)@.len()
            && final(stack)@.drop_last() == old(stack)@.drop_last() && added(old(stack)@.last(), node, final(stack)@.last()),
        old(stack)@.len() == 0 ==> final(stack)@ == old(stack)@,
        old(stack)@.len() == 0 && (*old(root)) is None ==> r is Ok && *final(root) == Some(node),
        old(stack)@.len() == 0 && (*old(root)) is Some ==> *final(root) == *old(root) && (r matches Err(d) && d.kind
            == DiagnosticKind::Syntax && d.path@ == "$"@ && d.span == node.span && d.message@ == "multiple root values are not supported"@),
{
    match stack.pop() {
        Some(Container::Sequence { start, mut values }) => {
            values.push(node);
            stack.push(Container::Sequence { start, values });
            Ok(())
        },
        Some(Container::Mapping { start, mut values, key }) => {
            match key {
                Some(k) => {
                    values.push((k, node));
                    stack.push(Container::Mapping { start, values, key: None });
                },
                None => {
                    stack.push(Container::Mapping { start, values, key: Some(node) });
                },
            }
            Ok(())
        },
        None => {
            if root.is_none() {
                *root = Some(node);
                Ok(())
            } else {
                Err(diagnostic(DiagnosticKind::Syntax, "$", node.span, "multiple root values are not supported"))
            }
        },
    }
}

/// Number of document starts among events.
pub open spec fn document_count(es: Seq<(EventView, SourceSpan)>) -> nat
    decreases es.len(),
{
    if es.len() == 0 {
        0
    } else {
        document_count(es.drop_last()) + if es.last().0 is DocumentStart {
            1nat
        } else {
            0nat
        }
    }
}

proof fn lemma_document_count_bound(es: Seq<(EventView, SourceSpan)>)
    ensures
        document_count(es) <= es.len(),
    decreases es.len(),
{
    if es.len() > 0 {
        lemma_document_count_bound(es.drop_last());
    }
}

fn size_message(bytes: usize, limit: usize) -> (r: String)
    ensures
        r@ == "document is "@ + decimal(bytes as nat) + " bytes; limit is "@ + decimal(limit as nat) + " bytes"@,
{
    let mut m = String::new();
    push_str(&mut m, "document is ");
    push_decimal(&mut m, bytes);
    push_str(&mut m, " bytes; limit is ");
    push_decimal(&mut m, limit);
    push_str(&mut m, " bytes");
    m
}

fn depth_message(limit: usize) -> (r: String)
    ensures
        r@ == "parser depth exceeds limit "@ + decimal(limit as nat),
{
    let mut m = String::new();
    push_str(&mut m, "parser depth exceeds limit ");
    push_decimal(&mut m, limit);
    m
}

/// A collection starts at this event.
pub open spec fn starts_collection(e: EventView) -> bool {
    e is SequenceStart || e is MappingStart
}

/// Builds the syntax tree of an event stream, nesting collections at most
/// `max_depth` deep. Rejects a collection that would nest deeper, tags that
/// do not accept their scalar, unbalanced collections, a mapping key
/// without a value, more than one root value, the scanner error that ended
/// the stream, more or fewer than one document, an empty document, and
/// then aliases, non-string, merge and duplicate keys anywhere in the tree.
/// The tree returned writes out as the first tokens of the stream, and as
/// all of them when the stream closes every collection it opens.
#[verifier::loop_isolation(false)]
#[verifier::spinoff_prover]
#[verifier::rlimit(60)]
pub fn build_tree(stream: &EventStream, max_depth: usize) -> (r: Result<Node, Diagnostic>)
    ensures
        r matches Err(d) ==> syntax_kind(d.kind) && d.kind != DiagnosticKind::DocumentTooLarge,
        r matches Err(d) && d.kind == DiagnosticKind::DepthLimit ==> exists|k: int|
            0 <= k < stream_view(*stream).0.len() && starts_collection(#[trigger] stream_view(*stream).0[k].0) && token_balance(
                event_tokens(stream_view(*stream).0.take(k)),
            ) >= max_depth,
        r matches Ok(root) ==> keys_valid(root) && stream_view(*stream).1 is None && document_count(stream_view(*stream).0) == 1,
        r matches Ok(root) ==> node_tokens(root).is_prefix_of(event_tokens(stream_view(*stream).0)),
        r matches Ok(root) ==> (token_balance(event_tokens(stream_view(*stream).0)) == 0 ==> event_tokens(stream_view(*stream).0)
            == node_tokens(root)),
{
    let ghost view = stream_view(*stream);
    let events = &stream.events;
    let mut stack: Vec<Container> = Vec::new();
    let mut root: Option<Node> = None;
    let mut documents: usize = 0;
    let mut k: usize = 0;
    while k < events.len()
        invariant
            k <= events@.len(),
            view.0 == events@.map_values(|p: (YamlEvent, SourceSpan)| (event_view(p.0), p.1)),
            documents == document_count(view.0.take(k as int)),
            event_tokens(view.0.take(k as int)) == root_tokens(root) + stack_tokens(stack@),
        decreases events@.len() - k,
    {
        let span = one_based(events[k].1);
        let ghost s0 = stack@;
        let ghost r0 = root;
        let ghost step = event_token(event_view(events@[k as int].0));
        proof {
            assert(view.0.take(k as int + 1).drop_last() =~= view.0.take(k as int));
            assert(view.0.take(k as int + 1).last() == view.0[k as int]);
            lemma_document_count_bound(view.0.take(k as int));
        }
        match &events[k].0 {
            YamlEvent::DocumentStart => {
                documents = documents + 1;
                proof {
                    assert(root_tokens(r0) + stack_tokens(s0) + step =~= root_tokens(r0) + stack_tokens(s0));
                }
            },
            YamlEvent::Alias => {
                let node = Node { span, kind: NodeKind::Alias };
                let ghost pushed = node;
                push_node(&mut stack, &mut root, node)?;
                proof {
                    lemma_pushed_tokens(s0, r0, pushed, stack@, root);
                }
            },
            YamlEvent::Scalar { value, style, tag } => {
                let scalar = match classify_scalar(value.as_str(), *style, tag) {
                    Some(v) => v,
                    None => {
                        return Err(diagnostic(DiagnosticKind::Syntax, "$", span, "invalid tagged scalar"));
                    },
                };
                let node = Node { span, kind: NodeKind::Scalar(scalar) };
                let ghost pushed = node;
                push_node(&mut stack, &mut root, node)?;
                proof {
                    lemma_pushed_tokens(s0, r0, pushed, stack@, root);
                    assert(node_tokens(pushed) =~= step);
                }
            },
            YamlEvent::SequenceStart => {
                if stack.len() >= max_depth {
                    let mut path = String::new();
                    push_str(&mut path, "$");
                    proof {
                        lemma_open_balance(root, stack@);
                        assert(starts_collection(view.0[k as int].0));
                    }
                    return Err(Diagnostic::new(DiagnosticKind::DepthLimit, path, span, depth_message(max_depth)));
                }
                let c = Container::Sequence { start: span, values: Vec::new() };
                proof {
                    lemma_stack_push_tokens(s0, c);
                    assert(open_tokens(c) =~= step);
                }
                stack.push(c);
            },
            YamlEvent::MappingStart => {
                if stack.len() >= max_depth {
                    let mut path = String::new();
                    push_str(&mut path, "$");
                    proof {
                        lemma_open_balance(root, stack@);
                        assert(starts_collection(view.0[k as int].0));
                    }
                    return Err(Diagnostic::new(DiagnosticKind::DepthLimit, path, span, depth_message(max_depth)));
                }
                let c = Container::Mapping { start: span, values: Vec::new(), key: None };
                proof {
                    lemma_stack_push_tokens(s0, c);
                    assert(open_tokens(c) =~= step);
                }
                stack.push(c);
            },
            YamlEvent::SequenceEnd | YamlEvent::MappingEnd => {
                let container = match stack.pop() {
                    Some(c) => c,
                    None => {
                        return Err(diagnostic(DiagnosticKind::Syntax, "$", span, "unexpected collection end"));
                    },
                };
                let ghost opened = container;
                let ghost s1 = stack@;
                let node = finish_container(container, span)?;
                let ghost finished = node;
                push_node(&mut stack, &mut root, node)?;
                proof {
                    assert(s1 == s0.drop_last() && opened == s0.last());
                    lemma_finished_tokens(opened, span, finished);
                    lemma_pushed_tokens(s1, r0, finished, stack@, root);
                    assert(stack_tokens(s0) == stack_tokens(s1) + open_tokens(opened));
                    assert(root_tokens(root) + stack_tokens(stack@) =~= root_tokens(r0) + stack_tokens(s0) + step);
                }
            },
            _ => {
                proof {
                    assert(root_tokens(r0) + stack_tokens(s0) + step =~= root_tokens(r0) + stack_tokens(s0));
                }
            },
        }
        k = k + 1;
    }
    proof {
        assert(view.0.take(events@.len() as int) =~= view.0);
    }
    match &stream.failure {
        Some(f) => {
            let column = if f.column < usize::MAX {
                f.column + 1
            } else {
                f.column
            };
            let mut path = String::new();
            push_str(&mut path, "$");
            return Err(Diagnostic::new(DiagnosticKind::Syntax, path, SourceSpan::point(f.line, column, f.index), f.message.clone()));
        },
        None => {},
    }
    if documents != 1 {
        return Err(diagnostic(DiagnosticKind::Syntax, "$", SourceSpan::point(1, 1, 0), "exactly one YAML document is required"));
    }
    let root = match root {
        Some(n) => n,
        None => {
            return Err(diagnostic(DiagnosticKind::Syntax, "$", SourceSpan::point(1, 1, 0), "YAML document is empty"));
        },
    };
    validate_mapping_keys(&root, "$")?;
    proof {
        lemma_root_tokens(event_tokens(view.0), root, stack@);
    }
    Ok(root)
}

/// Reads one YAML document into a syntax tree. Rejects documents over the
/// byte limit before reading, collections nested deeper than the depth
/// limit, scanner errors, tags that do not accept their scalar, unbalanced
/// collections, more or fewer than one document or root value, and then
/// aliases, non-string, merge and duplicate keys anywhere in the tree.
/// The tree returned writes out as the first tokens of the event stream,
/// and as all of them when the stream closes every collection it opens.
pub fn parse(source: &str, limits: ParseLimits) -> (r: Result<Node, Diagnostic>)
    ensures
        source.len() > limits.max_document_bytes ==> (r matches Err(d) && d.kind == DiagnosticKind::DocumentTooLarge
            && d.path@ == "$"@ && d.span == point_span(1, 1, 0)),
        r matches Err(d) && d.kind == DiagnosticKind::DocumentTooLarge ==> source.len() > limits.max_document_bytes,
        r matches Err(d) ==> syntax_kind(d.kind),
        r matches Err(d) && d.kind == DiagnosticKind::DepthLimit ==> exists|k: int|
            0 <= k < scanned_events(source@).0.len() && starts_collection(#[trigger] scanned_events(source@).0[k].0)
                && token_balance(event_tokens(scanned_events(source@).0.take(k))) >= limits.max_depth,
        r matches Ok(root) ==> keys_valid(root) && scanned_events(source@).1 is None && document_count(scanned_events(source@).0) == 1,
        r matches Ok(root) ==> node_tokens(root).is_prefix_of(event_tokens(scanned_events(source@).0)),
        r matches Ok(root) ==> (token_balance(event_tokens(scanned_events(source@).0)) == 0 ==> event_tokens(
            scanned_events(source@).0,
        ) == node_tokens(root)),
{
    if source.len() > limits.max_document_bytes {
        let mut path = String::new();
        push_str(&mut path, "$");
        return Err(Diagnostic::new(DiagnosticKind::DocumentTooLarge, path, SourceSpan::point(1, 1, 0), size_message(source.len(), limits.max_document_bytes)));
    }
    let stream = scan_events(source);
    build_tree(&stream, limits.max_depth)
}

} // verus!
