//! Stable text renderings of compiled graphs: a plain listing, Graphviz DOT
//! and Mermaid, with identifier escaping and hex-encoded node names.

use vstd::prelude::*;

use crate::ids::{ResourceId, UnitId};
use crate::text::{chars_of, push_char, push_str};
use crate::types::{CompiledGraph, CompiledResource, Consumer, Producer};

verus! {

/// The concatenation of `f` over `s`, in order.
pub open spec fn concat_map<A, B>(s: Seq<A>, f: spec_fn(A) -> Seq<B>) -> Seq<B>
    decreases s.len(),
{
    if s.len() == 0 {
        Seq::empty()
    } else {
        concat_map(s.drop_last(), f) + f(s.last())
    }
}

pub proof fn lemma_concat_map_step<A, B>(s: Seq<A>, k: int, f: spec_fn(A) -> Seq<B>)
    requires
        0 <= k < s.len(),
    ensures
        concat_map(s.take(k + 1), f) == concat_map(s.take(k), f) + f(s[k]),
{
    assert(s.take(k + 1).drop_last() =~= s.take(k));
}

pub proof fn lemma_concat_map_all<A, B>(s: Seq<A>, f: spec_fn(A) -> Seq<B>)
    ensures
        concat_map(s.take(s.len() as int), f) == concat_map(s, f),
{
    assert(s.take(s.len() as int) =~= s);
}

/// `part` occurs somewhere in `text`.
pub open spec fn occurs_in(part: Seq<char>, text: Seq<char>) -> bool {
    exists|i: int| 0 <= i && i + part.len() <= text.len() && #[trigger] text.subrange(i, i + part.len()) == part
}

/// A part placed between two pieces occurs in the result.
pub proof fn lemma_occurs_between(p: Seq<char>, part: Seq<char>, q: Seq<char>)
    ensures
        occurs_in(part, p + part + q),
{
    let text = p + part + q;
    assert(text.subrange(p.len() as int, (p.len() + part.len()) as int) =~= part);
}

/// Each item's piece occurs in the concatenation.
pub proof fn lemma_concat_map_occurs<A>(s: Seq<A>, f: spec_fn(A) -> Seq<char>, i: int)
    requires
        0 <= i < s.len(),
    ensures
        occurs_in(f(s[i]), concat_map(s, f)),
    decreases s.len(),
{
    let d = s.drop_last();
    if i == s.len() - 1 {
        lemma_occurs_between(concat_map(d, f), f(s[i]), Seq::<char>::empty());
        assert(concat_map(s, f) =~= concat_map(d, f) + f(s[i]) + Seq::<char>::empty());
    } else {
        lemma_concat_map_occurs(d, f, i);
        assert(d[i] == s[i]);
        lemma_occurs_extend(f(s[i]), concat_map(d, f), Seq::empty(), f(s.last()));
        assert(concat_map(s, f) =~= Seq::<char>::empty() + concat_map(d, f) + f(s.last()));
    }
}

/// What occurs in one item's piece occurs in the concatenation.
pub proof fn lemma_occurs_within_concat<A>(part: Seq<char>, s: Seq<A>, f: spec_fn(A) -> Seq<char>, i: int)
    requires
        0 <= i < s.len(),
        occurs_in(part, f(s[i])),
    ensures
        occurs_in(part, concat_map(s, f)),
{
    lemma_concat_map_occurs(s, f, i);
    let j = choose|j: int| 0 <= j && j + f(s[i]).len() <= concat_map(s, f).len() && #[trigger] concat_map(s, f).subrange(j, j + f(s[i]).len()) == f(s[i]);
    let k = choose|k: int| 0 <= k && k + part.len() <= f(s[i]).len() && #[trigger] f(s[i]).subrange(k, k + part.len()) == part;
    let text = concat_map(s, f);
    assert(text.subrange(j + k, j + k + part.len()) =~= f(s[i]).subrange(k, k + part.len()));
}

/// What occurs in a piece occurs in anything built around it.
pub proof fn lemma_occurs_extend(part: Seq<char>, mid: Seq<char>, a: Seq<char>, b: Seq<char>)
    requires
        occurs_in(part, mid),
    ensures
        occurs_in(part, a + mid + b),
{
    let i = choose|i: int| 0 <= i && i + part.len() <= mid.len() && #[trigger] mid.subrange(i, i + part.len()) == part;
    let text = a + mid + b;
    assert(text.subrange(a.len() + i, a.len() + i + part.len()) =~= mid.subrange(i, i + part.len()));
}

/// DOT string escaping of one character.
pub open spec fn dot_escape_char(c: char) -> Seq<char> {
    if c == '\\' {
        seq!['\\', '\\']
    } else if c == '"' {
        seq!['\\', '"']
    } else {
        seq![c]
    }
}

/// DOT string escaping: backslashes and quotes are backslash-escaped.
pub open spec fn dot_escaped(s: Seq<char>) -> Seq<char> {
    concat_map(s, |c: char| dot_escape_char(c))
}

/// Mermaid label escaping of one character.
pub open spec fn mermaid_escape_char(c: char) -> Seq<char> {
    if c == '&' {
        seq!['&', 'a', 'm', 'p', ';']
    } else if c == '"' {
        seq!['&', 'q', 'u', 'o', 't', ';']
    } else if c == '<' {
        seq!['&', 'l', 't', ';']
    } else if c == '>' {
        seq!['&', 'g', 't', ';']
    } else {
        seq![c]
    }
}

/// Mermaid label escaping of `&`, `"`, `<` and `>` as HTML entities.
pub open spec fn mermaid_escaped(s: Seq<char>) -> Seq<char> {
    concat_map(s, |c: char| mermaid_escape_char(c))
}

/// Escapes backslashes and quotes for a DOT string.
pub fn escape(value: &str) -> (r: String)
    ensures
        r@ == dot_escaped(value@),
{
    let chars = chars_of(value);
    let mut out = String::new();
    let ghost f = |c: char| dot_escape_char(c);
    let mut k: usize = 0;
    while k < chars.len()
        invariant
            k <= chars@.len(),
            chars@ == value@,
            f == (|c: char| dot_escape_char(c)),
            out@ == concat_map(chars@.take(k as int), f),
        decreases chars@.len() - k,
    {
        let c = chars[k];
        if c == '\\' {
            push_char(&mut out, '\\');
            push_char(&mut out, '\\');
        } else if c == '"' {
            push_char(&mut out, '\\');
            push_char(&mut out, '"');
        } else {
            push_char(&mut out, c);
        }
        proof {
            lemma_concat_map_step(chars@, k as int, f);
            assert(out@ =~= concat_map(chars@.take(k as int), f) + f(c));
        }
        k = k + 1;
    }
    proof {
        lemma_concat_map_all(chars@, f);
    }
    out
}

/// Escapes `&`, `"`, `<` and `>` for a Mermaid label.
pub fn escape_mermaid_label(value: &str) -> (r: String)
    ensures
        r@ == mermaid_escaped(value@),
{
    let chars = chars_of(value);
    let mut out = String::new();
    let ghost f = |c: char| mermaid_escape_char(c);
    let mut k: usize = 0;
    while k < chars.len()
        invariant
            k <= chars@.len(),
            chars@ == value@,
            f == (|c: char| mermaid_escape_char(c)),
            out@ == concat_map(chars@.take(k as int), f),
        decreases chars@.len() - k,
    {
        let c = chars[k];
        let ghost before = out@;
        if c == '&' {
            push_char(&mut out, '&');
            push_char(&mut out, 'a');
            push_char(&mut out, 'm');
            push_char(&mut out, 'p');
            push_char(&mut out, ';');
        } else if c == '"' {
            push_char(&mut out, '&');
            push_char(&mut out, 'q');
            push_char(&mut out, 'u');
            push_char(&mut out, 'o');
            push_char(&mut out, 't');
            push_char(&mut out, ';');
        } else if c == '<' {
            push_char(&mut out, '&');
            push_char(&mut out, 'l');
            push_char(&mut out, 't');
            push_char(&mut out, ';');
        } else if c == '>' {
            push_char(&mut out, '&');
            push_char(&mut out, 'g');
            push_char(&mut out, 't');
            push_char(&mut out, ';');
        } else {
            push_char(&mut out, c);
        }
        proof {
            lemma_concat_map_step(chars@, k as int, f);
            assert(out@ =~= before + f(c));
        }
        k = k + 1;
    }
    proof {
        lemma_concat_map_all(chars@, f);
    }
    out
}

/// The UTF-8 encoding of a character.
pub open spec fn utf8(c: char) -> Seq<u8> {
    let v = c as u32;
    if v < 0x80 {
        seq![v as u8]
    } else if v < 0x800 {
        seq![(0xc0 + v / 64) as u8, (0x80 + v % 64) as u8]
    } else if v < 0x10000 {
        seq![(0xe0 + v / 4096) as u8, (0x80 + (v / 64) % 64) as u8, (0x80 + v % 64) as u8]
    } else {
        seq![(0xf0 + v / 262144) as u8, (0x80 + (v / 4096) % 64) as u8, (0x80 + (v / 64) % 64) as u8, (0x80 + v % 64) as u8]
    }
}

/// A lowercase hexadecimal digit.
pub open spec fn hex_digit(d: u8) -> char {
    if d < 10 {
        (('0' as u8) + d) as char
    } else {
        (('a' as u8) + d - 10) as char
    }
}

/// Two lowercase hexadecimal digits of a byte.
pub open spec fn hex_byte(b: u8) -> Seq<char> {
    seq![hex_digit(b / 16), hex_digit(b % 16)]
}

/// Lowercase hexadecimal of the UTF-8 bytes of a character.
pub open spec fn hex_char(c: char) -> Seq<char> {
    concat_map(utf8(c), |b: u8| hex_byte(b))
}

/// Lowercase hexadecimal of the UTF-8 bytes of a text.
pub open spec fn hex_text(s: Seq<char>) -> Seq<char> {
    concat_map(s, |c: char| hex_char(c))
}

fn digit_char(d: u8) -> (r: char)
    requires
        d < 16,
    ensures
        r == hex_digit(d),
{
    if d < 10 {
        (('0' as u8) + d) as char
    } else {
        (('a' as u8) + d - 10) as char
    }
}

fn utf8_bytes(c: char) -> (r: Vec<u8>)
    ensures
        r@ == utf8(c),
{
    let v = c as u32;
    let mut out: Vec<u8> = Vec::new();
    if v < 0x80 {
        out.push(v as u8);
    } else if v < 0x800 {
        out.push((0xc0 + v / 64) as u8);
        out.push((0x80 + v % 64) as u8);
    } else if v < 0x10000 {
        out.push((0xe0 + v / 4096) as u8);
        out.push((0x80 + (v / 64) % 64) as u8);
        out.push((0x80 + v % 64) as u8);
    } else {
        assert(v <= 0x10ffff);
        out.push((0xf0 + v / 262144) as u8);
        out.push((0x80 + (v / 4096) % 64) as u8);
        out.push((0x80 + (v / 64) % 64) as u8);
        out.push((0x80 + v % 64) as u8);
    }
    proof {
        assert(out@ =~= utf8(c));
    }
    out
}

/// `prefix` followed by the lowercase hex of the UTF-8 bytes of `value`.
pub fn encoded_id(prefix: &str, value: &str) -> (r: String)
    ensures
        r@ == prefix@ + hex_text(value@),
{
    let chars = chars_of(value);
    let mut out = String::new();
    push_str(&mut out, prefix);
    let ghost f = |c: char| hex_char(c);
    let ghost g = |b: u8| hex_byte(b);
    let mut k: usize = 0;
    while k < chars.len()
        invariant
            k <= chars@.len(),
            chars@ == value@,
            f == (|c: char| hex_char(c)),
            g == (|b: u8| hex_byte(b)),
            out@ == prefix@ + concat_map(chars@.take(k as int), f),
        decreases chars@.len() - k,
    {
        let bytes = utf8_bytes(chars[k]);
        let ghost base = out@;
        let mut j: usize = 0;
        while j < bytes.len()
            invariant
                j <= bytes@.len(),
                g == (|b: u8| hex_byte(b)),
                out@ == base + concat_map(bytes@.take(j as int), g),
            decreases bytes@.len() - j,
        {
            let b = bytes[j];
            push_char(&mut out, digit_char(b / 16));
            push_char(&mut out, digit_char(b % 16));
            proof {
                lemma_concat_map_step(bytes@, j as int, g);
                assert(out@ =~= base + concat_map(bytes@.take(j as int), g) + g(b));
            }
            j = j + 1;
        }
        proof {
            lemma_concat_map_all(bytes@, g);
            lemma_concat_map_step(chars@, k as int, f);
            assert(f(chars@[k as int]) == concat_map(utf8(chars@[k as int]), g));
            assert(out@ =~= prefix@ + concat_map(chars@.take(k + 1), f));
        }
        k = k + 1;
    }
    proof {
        lemma_concat_map_all(chars@, f);
    }
    out
}

/// Decimal digits of a number.
pub open spec fn decimal(n: nat) -> Seq<char>
    decreases n,
{
    if n < 10 {
        seq![hex_digit(n as u8)]
    } else {
        decimal(n / 10).push(hex_digit((n % 10) as u8))
    }
}

/// Appends the decimal digits of `n`.
pub fn push_decimal(out: &mut String, n: usize)
    ensures
        final(out)@ == old(out)@ + decimal(n as nat),
    decreases n,
{
    if n >= 10 {
        push_decimal(out, n / 10);
    }
    push_char(out, digit_char((n % 10) as u8));
    proof {
        if n >= 10 {
            assert(final(out)@ =~= old(out)@ + decimal(n as nat));
        } else {
            assert(final(out)@ =~= old(out)@ + decimal(n as nat));
        }
    }
}


/// `f` over `s`, separated by `", "`.
pub open spec fn joined<A>(s: Seq<A>, f: spec_fn(A) -> Seq<char>) -> Seq<char>
    decreases s.len(),
{
    if s.len() == 0 {
        Seq::empty()
    } else if s.len() == 1 {
        f(s[0])
    } else {
        joined(s.drop_last(), f) + ", "@ + f(s.last())
    }
}

pub proof fn lemma_joined_step<A>(s: Seq<A>, k: int, f: spec_fn(A) -> Seq<char>)
    requires
        0 <= k < s.len(),
    ensures
        joined(s.take(k + 1), f) == (if k == 0 {
            f(s[k])
        } else {
            joined(s.take(k), f) + ", "@ + f(s[k])
        }),
{
    assert(s.take(k + 1).drop_last() =~= s.take(k));
    if k == 0 {
        assert(s.take(1)[0] == s[0]);
    }
}

/// The id text of a unit id.
pub open spec fn id_text(u: UnitId) -> Seq<char> {
    u@
}

/// `unit.port` of a consumer.
pub open spec fn consumer_ref(c: Consumer) -> Seq<char> {
    c.unit@ + "."@ + c.port@
}

/// The producer of a Resource in the text listing.
pub open spec fn producer_text(p: Producer) -> Seq<char> {
    match p {
        Producer::ModuleInput => "module input"@,
        Producer::Unit { unit, port } => unit@ + "."@ + port@,
    }
}

/// One Resource line of the text listing; `concrete` names its representation.
pub open spec fn resource_line(r: CompiledResource, concrete: Seq<char>) -> Seq<char> {
    "resource "@ + r.id@ + ": "@ + r.semantic_type@ + " ["@ + concrete + "]; producer: "@ + producer_text(r.producer)
        + "; consumers: ["@ + joined(r.consumers@, |c: Consumer| consumer_ref(c)) + "]\n"@
}

/// The Resource lines of the first `n` Resources.
pub open spec fn resource_lines(rs: Seq<CompiledResource>, concretes: Seq<Seq<char>>, n: int) -> Seq<char>
    decreases n,
{
    if n <= 0 {
        Seq::empty()
    } else {
        resource_lines(rs, concretes, n - 1) + resource_line(rs[n - 1], concretes[n - 1])
    }
}

/// The text listing of a graph, given texts for the Resource representations.
pub open spec fn graph_text(g: CompiledGraph, concretes: Seq<Seq<char>>) -> Seq<char> {
    "module "@ + g.module@ + " ("@ + g.schema@ + ")\n"@ + "execution: "@ + joined(
        g.execution_order@,
        |u: UnitId| id_text(u),
    ) + "\n"@ + resource_lines(g.resources@, concretes, g.resources@.len() as int)
}

/// Appends the ids, separated by `", "`.
pub fn push_ids(out: &mut String, ids: &Vec<UnitId>)
    ensures
        final(out)@ == old(out)@ + joined(ids@, |u: UnitId| id_text(u)),
{
    let ghost f = |u: UnitId| id_text(u);
    let ghost base = out@;
    let mut k: usize = 0;
    while k < ids.len()
        invariant
            k <= ids@.len(),
            f == (|u: UnitId| id_text(u)),
            out@ == base + joined(ids@.take(k as int), f),
        decreases ids@.len() - k,
    {
        let ghost before = out@;
        if k > 0 {
            push_str(out, ", ");
        }
        push_str(out, ids[k].as_str());
        proof {
            lemma_joined_step(ids@, k as int, f);
            assert(out@ =~= base + joined(ids@.take(k + 1), f));
        }
        k = k + 1;
    }
    proof {
        assert(ids@.take(ids@.len() as int) =~= ids@);
    }
}

fn push_consumers(out: &mut String, cs: &Vec<Consumer>)
    ensures
        final(out)@ == old(out)@ + joined(cs@, |c: Consumer| consumer_ref(c)),
{
    let ghost f = |c: Consumer| consumer_ref(c);
    let ghost base = out@;
    let mut k: usize = 0;
    while k < cs.len()
        invariant
            k <= cs@.len(),
            f == (|c: Consumer| consumer_ref(c)),
            out@ == base + joined(cs@.take(k as int), f),
        decreases cs@.len() - k,
    {
        if k > 0 {
            push_str(out, ", ");
        }
        push_str(out, cs[k].unit.as_str());
        push_str(out, ".");
        push_str(out, cs[k].port.as_str());
        proof {
            lemma_joined_step(cs@, k as int, f);
            assert(out@ =~= base + joined(cs@.take(k + 1), f));
        }
        k = k + 1;
    }
    proof {
        assert(cs@.take(cs@.len() as int) =~= cs@);
    }
}

impl CompiledGraph {
    /// Stable text listing: the module header, the execution order, and one
    /// line per Resource with its representation, producer and consumers.
    #[verifier::rlimit(40)]
    pub fn to_text(&self) -> (r: String)
        ensures
            exists|concretes: Seq<Seq<char>>| concretes.len() == self.resources@.len() && #[trigger] graph_text(*self, concretes) == r@,
    {
        let mut out = String::new();
        push_str(&mut out, "module ");
        push_str(&mut out, self.module.as_str());
        push_str(&mut out, " (");
        push_str(&mut out, self.schema.as_str());
        push_str(&mut out, ")\n");
        push_str(&mut out, "execution: ");
        push_ids(&mut out, &self.execution_order);
        push_str(&mut out, "\n");
        let ghost head = out@;
        let ghost mut concretes: Seq<Seq<char>> = Seq::empty();
        let mut k: usize = 0;
        while k < self.resources.len()
            invariant
                k <= self.resources@.len(),
                concretes.len() == k,
                out@ == head + resource_lines(self.resources@, concretes, k as int),
            decreases self.resources@.len() - k,
        {
            let res = &self.resources[k];
            let ghost before = out@;
            push_str(&mut out, "resource ");
            push_str(&mut out, res.id.as_str());
            push_str(&mut out, ": ");
            push_str(&mut out, res.semantic_type.as_str());
            push_str(&mut out, " [");
            let concrete = res.concrete_type.text();
            push_str(&mut out, concrete.as_str());
            push_str(&mut out, "]; producer: ");
            match &res.producer {
                Producer::ModuleInput => {
                    push_str(&mut out, "module input");
                },
                Producer::Unit { unit, port } => {
                    push_str(&mut out, unit.as_str());
                    push_str(&mut out, ".");
                    push_str(&mut out, port.as_str());
                },
            }
            push_str(&mut out, "; consumers: [");
            push_consumers(&mut out, &res.consumers);
            push_str(&mut out, "]\n");
            proof {
                let c0 = concretes;
                concretes = concretes.push(concrete@);
                assert forall|n: int| 0 <= n <= k implies resource_lines(self.resources@, concretes, n) == resource_lines(self.resources@, c0, n) by {
                    lemma_resource_lines_prefix(self.resources@, c0, concretes, n);
                }
                assert(out@ =~= before + resource_line(self.resources@[k as int], concretes[k as int]));
            }
            k = k + 1;
        }
        proof {
            assert(graph_text(*self, concretes) =~= out@);
        }
        out
    }
}

proof fn lemma_resource_lines_prefix(rs: Seq<CompiledResource>, a: Seq<Seq<char>>, b: Seq<Seq<char>>, n: int)
    requires
        0 <= n <= a.len(),
        a.len() <= b.len(),
        forall|i: int| 0 <= i < a.len() ==> a[i] == b[i],
    ensures
        resource_lines(rs, a, n) == resource_lines(rs, b, n),
    decreases n,
{
    if n > 0 {
        lemma_resource_lines_prefix(rs, a, b, n - 1);
    }
}


/// Some Module output names `x`.
pub open spec fn lists_output(outputs: Seq<ResourceId>, x: Seq<char>) -> bool {
    exists|k: int| 0 <= k < outputs.len() && #[trigger] outputs[k]@ == x
}

pub open spec fn role_label(i: bool, o: bool) -> Seq<char> {
    if !i && !o {
        "Resource"@
    } else if i && !o {
        "Module input"@
    } else if !i && o {
        "Module output"@
    } else {
        "Module input / output"@
    }
}

pub open spec fn role_css(i: bool, o: bool) -> Seq<char> {
    if !i && !o {
        "resource"@
    } else if i && !o {
        "resource module-input"@
    } else if !i && o {
        "resource module-output"@
    } else {
        "resource module-input module-output"@
    }
}

pub open spec fn role_shape(i: bool, o: bool) -> Seq<char> {
    if o {
        "doubleoctagon"@
    } else if i {
        "parallelogram"@
    } else {
        "ellipse"@
    }
}

pub open spec fn role_style(i: bool, o: bool) -> Seq<char> {
    if !i && !o {
        "solid"@
    } else {
        "bold"@
    }
}

pub open spec fn role_class(i: bool, o: bool) -> Seq<char> {
    if !i && !o {
        "resource"@
    } else if i && !o {
        "moduleInput"@
    } else if !i && o {
        "moduleOutput"@
    } else {
        "moduleInputOutput"@
    }
}

fn label_of(i: bool, o: bool) -> (r: &'static str)
    ensures
        r@ == role_label(i, o),
{
    if !i && !o {
        "Resource"
    } else if i && !o {
        "Module input"
    } else if !i && o {
        "Module output"
    } else {
        "Module input / output"
    }
}

fn css_of(i: bool, o: bool) -> (r: &'static str)
    ensures
        r@ == role_css(i, o),
{
    if !i && !o {
        "resource"
    } else if i && !o {
        "resource module-input"
    } else if !i && o {
        "resource module-output"
    } else {
        "resource module-input module-output"
    }
}

fn shape_of(i: bool, o: bool) -> (r: &'static str)
    ensures
        r@ == role_shape(i, o),
{
    if o {
        "doubleoctagon"
    } else if i {
        "parallelogram"
    } else {
        "ellipse"
    }
}

fn style_of(i: bool, o: bool) -> (r: &'static str)
    ensures
        r@ == role_style(i, o),
{
    if !i && !o {
        "solid"
    } else {
        "bold"
    }
}

fn class_of(i: bool, o: bool) -> (r: &'static str)
    ensures
        r@ == role_class(i, o),
{
    if !i && !o {
        "resource"
    } else if i && !o {
        "moduleInput"
    } else if !i && o {
        "moduleOutput"
    } else {
        "moduleInputOutput"
    }
}

fn output_listed_in(outputs: &Vec<ResourceId>, id: &ResourceId) -> (r: bool)
    ensures
        r == lists_output(outputs@, id@),
{
    let mut k: usize = 0;
    while k < outputs.len()
        invariant
            k <= outputs@.len(),
            forall|t: int| 0 <= t < k ==> (#[trigger] outputs@[t])@ != id@,
        decreases outputs@.len() - k,
    {
        if outputs[k] == *id {
            return true;
        }
        k = k + 1;
    }
    false
}

/// The DOT node of a unit.
pub open spec fn dot_unit_line(u: crate::types::CompiledUnit) -> Seq<char> {
    "  \""@ + dot_escaped(u.id@) + "\" [shape=box,style=rounded,class=\"unit\",label=\""@ + dot_escaped(u.id@)
        + "\\nUnit\\n"@ + dot_escaped(u.unit_type@) + "\"];\n"@
}

/// The DOT edge from a Resource node to a consumer.
pub open spec fn dot_consumer_edge(node: Seq<char>, c: Consumer) -> Seq<char> {
    "  \""@ + node + "\" -> \""@ + dot_escaped(c.unit@) + "\" [label=\""@ + dot_escaped(c.port@) + "\"];\n"@
}

/// The DOT node line of a Resource.
pub open spec fn dot_resource_node(node: Seq<char>, i: bool, o: bool, r: CompiledResource) -> Seq<char> {
    "  \""@ + node + "\" [shape="@ + role_shape(i, o) + ",style="@ + role_style(i, o) + ",class=\""@ + role_css(i, o)
        + "\",label=\""@ + dot_escaped(r.id@) + "\\n"@ + role_label(i, o) + "\\n"@ + dot_escaped(r.semantic_type@)
        + "\"];\n"@
}

/// The DOT edge from the producing unit, if a unit produces the Resource.
pub open spec fn dot_producer_edge(node: Seq<char>, p: Producer) -> Seq<char> {
    match p {
        Producer::Unit { unit, port } => "  \""@ + dot_escaped(unit@) + "\" -> \""@ + node + "\" [label=\""@
            + dot_escaped(port@) + "\"];\n"@,
        Producer::ModuleInput => Seq::empty(),
    }
}

/// The DOT node of a Resource with its producer and consumer edges.
pub open spec fn dot_resource_block(outputs: Seq<ResourceId>, r: CompiledResource) -> Seq<char> {
    let node = "resource_"@ + hex_text(r.id@);
    let i = r.producer is ModuleInput;
    let o = lists_output(outputs, r.id@);
    dot_resource_node(node, i, o, r) + dot_producer_edge(node, r.producer) + concat_map(
        r.consumers@,
        |c: Consumer| dot_consumer_edge(node, c),
    )
}

/// The DOT rendering of a graph.
pub open spec fn dot_text(g: CompiledGraph) -> Seq<char> {
    "digraph \""@ + dot_escaped(g.module@) + "\" {\n"@ + concat_map(
        g.units@,
        |u: crate::types::CompiledUnit| dot_unit_line(u),
    ) + concat_map(g.resources@, |r: CompiledResource| dot_resource_block(g.module_outputs@, r)) + "}\n"@
}

fn push_dot_node(out: &mut String, node: &String, i: bool, o: bool, r: &CompiledResource)
    ensures
        final(out)@ == old(out)@ + dot_resource_node(node@, i, o, *r),
{
    push_str(out, "  \"");
    push_str(out, node.as_str());
    push_str(out, "\" [shape=");
    push_str(out, shape_of(i, o));
    push_str(out, ",style=");
    push_str(out, style_of(i, o));
    push_str(out, ",class=\"");
    push_str(out, css_of(i, o));
    push_str(out, "\",label=\"");
    push_str(out, escape(r.id.as_str()).as_str());
    push_str(out, "\\n");
    push_str(out, label_of(i, o));
    push_str(out, "\\n");
    push_str(out, escape(r.semantic_type.as_str()).as_str());
    push_str(out, "\"];\n");
    proof {
        assert(final(out)@ =~= old(out)@ + dot_resource_node(node@, i, o, *r));
    }
}

fn push_dot_producer(out: &mut String, node: &String, p: &Producer)
    ensures
        final(out)@ == old(out)@ + dot_producer_edge(node@, *p),
{
    match p {
        Producer::Unit { unit, port } => {
            push_str(out, "  \"");
            push_str(out, escape(unit.as_str()).as_str());
            push_str(out, "\" -> \"");
            push_str(out, node.as_str());
            push_str(out, "\" [label=\"");
            push_str(out, escape(port.as_str()).as_str());
            push_str(out, "\"];\n");
            proof {
                assert(final(out)@ =~= old(out)@ + dot_producer_edge(node@, *p));
            }
        },
        Producer::ModuleInput => {
            proof {
                assert(final(out)@ =~= old(out)@ + dot_producer_edge(node@, *p));
            }
        },
    }
}

fn push_dot_consumer(out: &mut String, node: &String, c: &Consumer)
    ensures
        final(out)@ == old(out)@ + dot_consumer_edge(node@, *c),
{
    push_str(out, "  \"");
    push_str(out, node.as_str());
    push_str(out, "\" -> \"");
    push_str(out, escape(c.unit.as_str()).as_str());
    push_str(out, "\" [label=\"");
    push_str(out, escape(c.port.as_str()).as_str());
    push_str(out, "\"];\n");
    proof {
        assert(final(out)@ =~= old(out)@ + dot_consumer_edge(node@, *c));
    }
}

/// The DOT edge along which a unit-produced Resource flows: from the node
/// of the unit that produces it to the Resource's node, labelled by the
/// producing port.
pub open spec fn dot_flow_edge(r: CompiledResource) -> Seq<char> {
    "  \""@ + dot_escaped(r.producer->unit@) + "\" -> \""@ + "resource_"@ + hex_text(r.id@) + "\" [label=\""@ + dot_escaped(
        r.producer->port@,
    ) + "\"];\n"@
}

/// Every unit-produced Resource flows out of its producer: the DOT text has
/// the edge from the producing unit to the Resource.
pub proof fn lemma_dot_flows_from_producer(g: CompiledGraph, i: int)
    requires
        0 <= i < g.resources@.len(),
        g.resources@[i].producer is Unit,
    ensures
        occurs_in(dot_flow_edge(g.resources@[i]), dot_text(g)),
{
    let r = g.resources@[i];
    let h = |x: CompiledResource| dot_resource_block(g.module_outputs@, x);
    lemma_concat_map_occurs(g.resources@, h, i);
    let node = "resource_"@ + hex_text(r.id@);
    let ib = r.producer is ModuleInput;
    let ob = lists_output(g.module_outputs@, r.id@);
    let consumers = concat_map(r.consumers@, |c: Consumer| dot_consumer_edge(node, c));
    assert(dot_producer_edge(node, r.producer) =~= dot_flow_edge(r));
    assert(h(r) == dot_resource_node(node, ib, ob, r) + dot_flow_edge(r) + consumers);
    let head = "digraph \""@ + dot_escaped(g.module@) + "\" {\n"@ + concat_map(
        g.units@,
        |u: crate::types::CompiledUnit| dot_unit_line(u),
    );
    lemma_occurs_between(dot_resource_node(node, ib, ob, r), dot_flow_edge(r), consumers);
    lemma_occurs_extend(dot_flow_edge(r), h(r), Seq::empty(), Seq::empty());
    assert(Seq::<char>::empty() + h(r) + Seq::<char>::empty() =~= h(r));
    lemma_occurs_within_concat(dot_flow_edge(r), g.resources@, h, i);
    lemma_occurs_extend(dot_flow_edge(r), concat_map(g.resources@, h), head, "}\n"@);
    assert(dot_text(g) =~= head + concat_map(g.resources@, h) + "}\n"@);
}

fn push_dot_resource(out: &mut String, outputs: &Vec<ResourceId>, r: &CompiledResource)
    ensures
        final(out)@ == old(out)@ + dot_resource_block(outputs@, *r),
{
    let node = encoded_id("resource_", r.id.as_str());
    let i = match r.producer {
        Producer::ModuleInput => true,
        _ => false,
    };
    let o = output_listed_in(outputs, &r.id);
    let ghost base = out@;
    push_dot_node(out, &node, i, o, r);
    push_dot_producer(out, &node, &r.producer);
    let ghost mid = out@;
    let ghost f = |c: Consumer| dot_consumer_edge(node@, c);
    let mut k: usize = 0;
    while k < r.consumers.len()
        invariant
            k <= r.consumers@.len(),
            f == (|c: Consumer| dot_consumer_edge(node@, c)),
            out@ == mid + concat_map(r.consumers@.take(k as int), f),
        decreases r.consumers@.len() - k,
    {
        push_dot_consumer(out, &node, &r.consumers[k]);
        proof {
            lemma_concat_map_step(r.consumers@, k as int, f);
        }
        k = k + 1;
    }
    proof {
        lemma_concat_map_all(r.consumers@, f);
        assert(out@ =~= base + dot_resource_block(outputs@, *r));
    }
}

impl CompiledGraph {
    /// Graphviz DOT rendering: rounded boxes for units, Resource nodes
    /// shaped by their Module input / output role, and producer and
    /// consumer edges labelled by port.
    pub fn to_dot(&self) -> (r: String)
        ensures
            r@ == dot_text(*self),
            forall|i: int|
                0 <= i < self.resources@.len() && self.resources@[i].producer is Unit ==> #[trigger] occurs_in(
                    dot_flow_edge(self.resources@[i]),
                    r@,
                ),
    {
        let mut out = String::new();
        push_str(&mut out, "digraph \"");
        push_str(&mut out, escape(self.module.as_str()).as_str());
        push_str(&mut out, "\" {\n");
        let ghost head = out@;
        let ghost f = |u: crate::types::CompiledUnit| dot_unit_line(u);
        let mut k: usize = 0;
        while k < self.units.len()
            invariant
                k <= self.units@.len(),
                f == (|u: crate::types::CompiledUnit| dot_unit_line(u)),
                out@ == head + concat_map(self.units@.take(k as int), f),
            decreases self.units@.len() - k,
        {
            let u = &self.units[k];
            let ghost before = out@;
            let id = escape(u.id.as_str());
            push_str(&mut out, "  \"");
            push_str(&mut out, id.as_str());
            push_str(&mut out, "\" [shape=box,style=rounded,class=\"unit\",label=\"");
            push_str(&mut out, id.as_str());
            push_str(&mut out, "\\nUnit\\n");
            push_str(&mut out, escape(u.unit_type.as_str()).as_str());
            push_str(&mut out, "\"];\n");
            proof {
                lemma_concat_map_step(self.units@, k as int, f);
                assert(out@ =~= before + f(*u));
            }
            k = k + 1;
        }
        proof {
            lemma_concat_map_all(self.units@, f);
        }
        let ghost mid = out@;
        let ghost h = |r: CompiledResource| dot_resource_block(self.module_outputs@, r);
        let mut k: usize = 0;
        while k < self.resources.len()
            invariant
                k <= self.resources@.len(),
                h == (|r: CompiledResource| dot_resource_block(self.module_outputs@, r)),
                out@ == mid + concat_map(self.resources@.take(k as int), h),
            decreases self.resources@.len() - k,
        {
            let ghost before = out@;
            push_dot_resource(&mut out, &self.module_outputs, &self.resources[k]);
            proof {
                lemma_concat_map_step(self.resources@, k as int, h);
            }
            k = k + 1;
        }
        proof {
            lemma_concat_map_all(self.resources@, h);
        }
        push_str(&mut out, "}\n");
        proof {
            assert(out@ =~= dot_text(*self));
            assert forall|i: int|
                0 <= i < self.resources@.len() && self.resources@[i].producer is Unit implies #[trigger] occurs_in(
                dot_flow_edge(self.resources@[i]),
                out@,
            ) by {
                lemma_dot_flows_from_producer(*self, i);
            }
        }
        out
    }
}


/// The annotation of unit `id`: the last entry naming it.
pub open spec fn annotation_of(ann: Seq<(UnitId, String)>, id: Seq<char>, k: int) -> bool {
    &&& 0 <= k < ann.len()
    &&& ann[k].0@ == id
    &&& forall|t: int| k < t < ann.len() ==> (#[trigger] ann[t]).0@ != id
}

/// The annotation text appended to a unit label, if any.
pub open spec fn annotation_text(ann: Seq<(UnitId, String)>, id: Seq<char>) -> Seq<char> {
    if exists|k: int| annotation_of(ann, id, k) {
        "<br/>"@ + mermaid_escaped(ann[choose|k: int| annotation_of(ann, id, k)].1@)
    } else {
        Seq::empty()
    }
}

/// The Mermaid node of a unit.
pub open spec fn mermaid_unit_line(ann: Seq<(UnitId, String)>, u: crate::types::CompiledUnit) -> Seq<char> {
    "  "@ + "unit_"@ + hex_text(u.id@) + "[\""@ + mermaid_escaped(u.id@) + "<br/>Unit<br/>"@ + mermaid_escaped(
        u.unit_type@,
    ) + annotation_text(ann, u.id@) + "\"]:::unit\n"@
}

/// The Mermaid shape and label of a Resource node.
pub open spec fn mermaid_resource_shape(i: bool, o: bool, r: CompiledResource) -> Seq<char> {
    let label = mermaid_escaped(r.id@) + "<br/>"@ + role_label(i, o) + "<br/>"@ + mermaid_escaped(r.semantic_type@);
    if o {
        "{{\""@ + label + "\"}}"@
    } else if i {
        "[/\""@ + label + "\"/]"@
    } else {
        "([\""@ + label + "\"])"@
    }
}

/// The Mermaid edge from the producing unit, if a unit produces the Resource.
pub open spec fn mermaid_producer_edge(node: Seq<char>, p: Producer) -> Seq<char> {
    match p {
        Producer::Unit { unit, port } => "  "@ + "unit_"@ + hex_text(unit@) + " -->|"@ + mermaid_escaped(port@) + "| "@
            + node + "\n"@,
        Producer::ModuleInput => Seq::empty(),
    }
}

/// The Mermaid edge from a Resource node to a consumer.
pub open spec fn mermaid_consumer_edge(node: Seq<char>, c: Consumer) -> Seq<char> {
    "  "@ + node + " -->|"@ + mermaid_escaped(c.port@) + "| "@ + "unit_"@ + hex_text(c.unit@) + "\n"@
}

/// The Mermaid node of a Resource with its producer and consumer edges.
pub open spec fn mermaid_resource_block(outputs: Seq<ResourceId>, r: CompiledResource) -> Seq<char> {
    let node = "resource_"@ + hex_text(r.id@);
    let i = r.producer is ModuleInput;
    let o = lists_output(outputs, r.id@);
    "  "@ + node + mermaid_resource_shape(i, o, r) + ":::"@ + role_class(i, o) + "\n"@ + mermaid_producer_edge(
        node,
        r.producer,
    ) + concat_map(r.consumers@, |c: Consumer| mermaid_consumer_edge(node, c))
}

/// The Mermaid class definitions.
pub open spec fn mermaid_footer() -> Seq<char> {
    "  classDef unit fill:#eef2ff,stroke:#4338ca,stroke-width:1px\n"@
        + "  classDef resource fill:#f8fafc,stroke:#64748b,stroke-width:1px\n"@
        + "  classDef moduleInput fill:#ecfdf5,stroke:#047857,stroke-width:2px\n"@
        + "  classDef moduleOutput fill:#fff7ed,stroke:#c2410c,stroke-width:3px\n"@
        + "  classDef moduleInputOutput fill:#fefce8,stroke:#a16207,stroke-width:3px\n"@
}

/// The Mermaid rendering of a graph with optional unit annotations.
pub open spec fn mermaid_text(g: CompiledGraph, ann: Seq<(UnitId, String)>) -> Seq<char> {
    "flowchart TD\n"@ + concat_map(g.units@, |u: crate::types::CompiledUnit| mermaid_unit_line(ann, u)) + concat_map(
        g.resources@,
        |r: CompiledResource| mermaid_resource_block(g.module_outputs@, r),
    ) + mermaid_footer()
}

fn annotation_index(ann: &Vec<(UnitId, String)>, id: &UnitId) -> (r: Option<usize>)
    ensures
        r is None <==> !exists|k: int| annotation_of(ann@, id@, k),
        r matches Some(k) ==> annotation_of(ann@, id@, k as int),
{
    let mut k: usize = ann.len();
    while k > 0
        invariant
            k <= ann@.len(),
            forall|t: int| k <= t < ann@.len() ==> (#[trigger] ann@[t]).0@ != id@,
        decreases k,
    {
        k = k - 1;
        if ann[k].0 == *id {
            assert(annotation_of(ann@, id@, k as int));
            return Some(k);
        }
    }
    None
}

proof fn lemma_annotation_unique(ann: Seq<(UnitId, String)>, id: Seq<char>, k: int, j: int)
    requires
        annotation_of(ann, id, k),
        annotation_of(ann, id, j),
    ensures
        k == j,
{
}

fn push_mermaid_unit(out: &mut String, ann: &Vec<(UnitId, String)>, u: &crate::types::CompiledUnit)
    ensures
        final(out)@ == old(out)@ + mermaid_unit_line(ann@, *u),
{
    let ghost base = out@;
    push_str(out, "  ");
    push_str(out, encoded_id("unit_", u.id.as_str()).as_str());
    push_str(out, "[\"");
    push_str(out, escape_mermaid_label(u.id.as_str()).as_str());
    push_str(out, "<br/>Unit<br/>");
    push_str(out, escape_mermaid_label(u.unit_type.as_str()).as_str());
    let ghost mid = out@;
    match annotation_index(ann, &u.id) {
        Some(k) => {
            push_str(out, "<br/>");
            push_str(out, escape_mermaid_label(ann[k].1.as_str()).as_str());
            proof {
                let c = choose|j: int| annotation_of(ann@, u.id@, j);
                lemma_annotation_unique(ann@, u.id@, k as int, c);
                assert(out@ =~= mid + annotation_text(ann@, u.id@));
            }
        },
        None => {
            proof {
                assert(out@ =~= mid + annotation_text(ann@, u.id@));
            }
        },
    }
    push_str(out, "\"]:::unit\n");
    proof {
        assert(out@ =~= base + mermaid_unit_line(ann@, *u));
    }
}

fn push_mermaid_shape(out: &mut String, i: bool, o: bool, r: &CompiledResource)
    ensures
        final(out)@ == old(out)@ + mermaid_resource_shape(i, o, *r),
{
    let ghost base = out@;
    let mut label = String::new();
    push_str(&mut label, escape_mermaid_label(r.id.as_str()).as_str());
    push_str(&mut label, "<br/>");
    push_str(&mut label, label_of(i, o));
    push_str(&mut label, "<br/>");
    push_str(&mut label, escape_mermaid_label(r.semantic_type.as_str()).as_str());
    if o {
        push_str(out, "{{\"");
        push_str(out, label.as_str());
        push_str(out, "\"}}");
    } else if i {
        push_str(out, "[/\"");
        push_str(out, label.as_str());
        push_str(out, "\"/]");
    } else {
        push_str(out, "([\"");
        push_str(out, label.as_str());
        push_str(out, "\"])");
    }
    proof {
        assert(out@ =~= base + mermaid_resource_shape(i, o, *r));
    }
}

fn push_mermaid_producer(out: &mut String, node: &String, p: &Producer)
    ensures
        final(out)@ == old(out)@ + mermaid_producer_edge(node@, *p),
{
    match p {
        Producer::Unit { unit, port } => {
            push_str(out, "  ");
            push_str(out, encoded_id("unit_", unit.as_str()).as_str());
            push_str(out, " -->|");
            push_str(out, escape_mermaid_label(port.as_str()).as_str());
            push_str(out, "| ");
            push_str(out, node.as_str());
            push_str(out, "\n");
            proof {
                assert(final(out)@ =~= old(out)@ + mermaid_producer_edge(node@, *p));
            }
        },
        Producer::ModuleInput => {
            proof {
                assert(final(out)@ =~= old(out)@ + mermaid_producer_edge(node@, *p));
            }
        },
    }
}

fn push_mermaid_consumer(out: &mut String, node: &String, c: &Consumer)
    ensures
        final(out)@ == old(out)@ + mermaid_consumer_edge(node@, *c),
{
    push_str(out, "  ");
    push_str(out, node.as_str());
    push_str(out, " -->|");
    push_str(out, escape_mermaid_label(c.port.as_str()).as_str());
    push_str(out, "| ");
    push_str(out, encoded_id("unit_", c.unit.as_str()).as_str());
    push_str(out, "\n");
    proof {
        assert(final(out)@ =~= old(out)@ + mermaid_consumer_edge(node@, *c));
    }
}

fn push_mermaid_resource(out: &mut String, outputs: &Vec<ResourceId>, r: &CompiledResource)
    ensures
        final(out)@ == old(out)@ + mermaid_resource_block(outputs@, *r),
{
    let node = encoded_id("resource_", r.id.as_str());
    let i = match r.producer {
        Producer::ModuleInput => true,
        _ => false,
    };
    let o = output_listed_in(outputs, &r.id);
    let ghost base = out@;
    push_str(out, "  ");
    push_str(out, node.as_str());
    push_mermaid_shape(out, i, o, r);
    push_str(out, ":::");
    push_str(out, class_of(i, o));
    push_str(out, "\n");
    push_mermaid_producer(out, &node, &r.producer);
    let ghost mid = out@;
    let ghost f = |c: Consumer| mermaid_consumer_edge(node@, c);
    let mut k: usize = 0;
    while k < r.consumers.len()
        invariant
            k <= r.consumers@.len(),
            f == (|c: Consumer| mermaid_consumer_edge(node@, c)),
            out@ == mid + concat_map(r.consumers@.take(k as int), f),
        decreases r.consumers@.len() - k,
    {
        push_mermaid_consumer(out, &node, &r.consumers[k]);
        proof {
            lemma_concat_map_step(r.consumers@, k as int, f);
        }
        k = k + 1;
    }
    proof {
        lemma_concat_map_all(r.consumers@, f);
        assert(out@ =~= base + mermaid_resource_block(outputs@, *r));
    }
}

fn push_mermaid_footer(out: &mut String)
    ensures
        final(out)@ == old(out)@ + mermaid_footer(),
{
    push_str(out, "  classDef unit fill:#eef2ff,stroke:#4338ca,stroke-width:1px\n");
    push_str(out, "  classDef resource fill:#f8fafc,stroke:#64748b,stroke-width:1px\n");
    push_str(out, "  classDef moduleInput fill:#ecfdf5,stroke:#047857,stroke-width:2px\n");
    push_str(out, "  classDef moduleOutput fill:#fff7ed,stroke:#c2410c,stroke-width:3px\n");
    push_str(out, "  classDef moduleInputOutput fill:#fefce8,stroke:#a16207,stroke-width:3px\n");
    proof {
        assert(final(out)@ =~= old(out)@ + mermaid_footer());
    }
}

impl CompiledGraph {
    /// Mermaid flowchart rendering.
    pub fn to_mermaid(&self) -> (r: String)
        ensures
            r@ == mermaid_text(*self, Seq::empty()),
    {
        let none: Vec<(UnitId, String)> = Vec::new();
        self.to_mermaid_with_unit_annotations(&none)
    }

    /// Mermaid rendering whose unit labels end with the annotation given for
    /// the unit (the last entry naming it), if any.
    pub fn to_mermaid_with_unit_annotations(&self, annotations: &Vec<(UnitId, String)>) -> (r: String)
        ensures
            r@ == mermaid_text(*self, annotations@),
    {
        let mut out = String::new();
        push_str(&mut out, "flowchart TD\n");
        let ghost head = out@;
        let ghost f = |u: crate::types::CompiledUnit| mermaid_unit_line(annotations@, u);
        let mut k: usize = 0;
        while k < self.units.len()
            invariant
                k <= self.units@.len(),
                f == (|u: crate::types::CompiledUnit| mermaid_unit_line(annotations@, u)),
                out@ == head + concat_map(self.units@.take(k as int), f),
            decreases self.units@.len() - k,
        {
            push_mermaid_unit(&mut out, annotations, &self.units[k]);
            proof {
                lemma_concat_map_step(self.units@, k as int, f);
            }
            k = k + 1;
        }
        proof {
            lemma_concat_map_all(self.units@, f);
        }
        let ghost mid = out@;
        let ghost h = |r: CompiledResource| mermaid_resource_block(self.module_outputs@, r);
        let mut k: usize = 0;
        while k < self.resources.len()
            invariant
                k <= self.resources@.len(),
                h == (|r: CompiledResource| mermaid_resource_block(self.module_outputs@, r)),
                out@ == mid + concat_map(self.resources@.take(k as int), h),
            decreases self.resources@.len() - k,
        {
            push_mermaid_resource(&mut out, &self.module_outputs, &self.resources[k]);
            proof {
                lemma_concat_map_step(self.resources@, k as int, h);
            }
            k = k + 1;
        }
        proof {
            lemma_concat_map_all(self.resources@, h);
        }
        push_mermaid_footer(&mut out);
        proof {
            assert(out@ =~= mermaid_text(*self, annotations@));
        }
        out
    }
}

} // verus!
