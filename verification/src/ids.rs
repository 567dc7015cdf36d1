//! String identities: Unit ids, Resource ids, Unit type names and semantic types.

use vstd::prelude::*;
use vstd::std_specs::cmp::PartialEqSpecImpl;

use crate::text::{seq_lt, text_lt, chars_of};

verus! {

/// Name of one Unit instance inside a Module definition.
#[derive(Debug, PartialOrd, Ord)]
pub struct UnitId(String);

impl View for UnitId {
    type V = Seq<char>;

    closed spec fn view(&self) -> Seq<char> {
        self.0@
    }
}

impl UnitId {
    /// Creates an identifier from its text.
    pub fn new(value: &str) -> (r: Self)
        ensures
            r@ == value@,
    {
        UnitId(value.to_owned())
    }

    /// Returns the identifier text.
    pub fn as_str(&self) -> (r: &str)
        ensures
            r@ == self@,
    {
        self.0.as_str()
    }

    /// Strict lexicographic comparison of two identifiers.
    pub fn less_than(&self, other: &Self) -> (r: bool)
        ensures
            r == seq_lt(self@, other@),
    {
        text_lt(self.0.as_str(), other.0.as_str())
    }
}

impl Clone for UnitId {
    fn clone(&self) -> (r: Self)
        ensures
            r@ == self@,
    {
        UnitId(self.0.clone())
    }
}

impl PartialEq for UnitId {
    fn eq(&self, other: &Self) -> (r: bool) {
        self.0 == other.0
    }
}

impl PartialEqSpecImpl for UnitId {
    open spec fn obeys_eq_spec() -> bool {
        true
    }

    open spec fn eq_spec(&self, other: &Self) -> bool {
        self@ == other@
    }
}

impl Eq for UnitId {
}

/// Name of one Resource inside a Module definition.
#[derive(Debug, PartialOrd, Ord)]
pub struct ResourceId(String);

impl View for ResourceId {
    type V = Seq<char>;

    closed spec fn view(&self) -> Seq<char> {
        self.0@
    }
}

impl ResourceId {
    /// Creates an identifier from its text.
    pub fn new(value: &str) -> (r: Self)
        ensures
            r@ == value@,
    {
        ResourceId(value.to_owned())
    }

    /// Returns the identifier text.
    pub fn as_str(&self) -> (r: &str)
        ensures
            r@ == self@,
    {
        self.0.as_str()
    }

    /// Strict lexicographic comparison of two identifiers.
    pub fn less_than(&self, other: &Self) -> (r: bool)
        ensures
            r == seq_lt(self@, other@),
    {
        text_lt(self.0.as_str(), other.0.as_str())
    }
}

impl Clone for ResourceId {
    fn clone(&self) -> (r: Self)
        ensures
            r@ == self@,
    {
        ResourceId(self.0.clone())
    }
}

impl PartialEq for ResourceId {
    fn eq(&self, other: &Self) -> (r: bool) {
        self.0 == other.0
    }
}

impl PartialEqSpecImpl for ResourceId {
    open spec fn obeys_eq_spec() -> bool {
        true
    }

    open spec fn eq_spec(&self, other: &Self) -> bool {
        self@ == other@
    }
}

impl Eq for ResourceId {
}

/// Registered name of a Unit implementation type.
#[derive(Debug, PartialOrd, Ord)]
pub struct UnitTypeName(String);

impl View for UnitTypeName {
    type V = Seq<char>;

    closed spec fn view(&self) -> Seq<char> {
        self.0@
    }
}

impl UnitTypeName {
    /// Creates an identifier from its text.
    pub fn new(value: &str) -> (r: Self)
        ensures
            r@ == value@,
    {
        UnitTypeName(value.to_owned())
    }

    /// Returns the identifier text.
    pub fn as_str(&self) -> (r: &str)
        ensures
            r@ == self@,
    {
        self.0.as_str()
    }

    /// Strict lexicographic comparison of two identifiers.
    pub fn less_than(&self, other: &Self) -> (r: bool)
        ensures
            r == seq_lt(self@, other@),
    {
        text_lt(self.0.as_str(), other.0.as_str())
    }
}

impl Clone for UnitTypeName {
    fn clone(&self) -> (r: Self)
        ensures
            r@ == self@,
    {
        UnitTypeName(self.0.clone())
    }
}

impl PartialEq for UnitTypeName {
    fn eq(&self, other: &Self) -> (r: bool) {
        self.0 == other.0
    }
}

impl PartialEqSpecImpl for UnitTypeName {
    open spec fn obeys_eq_spec() -> bool {
        true
    }

    open spec fn eq_spec(&self, other: &Self) -> bool {
        self@ == other@
    }
}

impl Eq for UnitTypeName {
}

/// Stable serialized identity of a Resource representation.
#[derive(Debug, PartialOrd, Ord)]
pub struct SemanticType(String);

impl View for SemanticType {
    type V = Seq<char>;

    closed spec fn view(&self) -> Seq<char> {
        self.0@
    }
}

impl SemanticType {
    /// Creates a namespaced and versioned semantic identity; the text must
    /// contain a `.` and the pattern `/v`.
    pub fn new(value: &str) -> (r: Result<Self, DescriptorError>)
        ensures
            r is Ok <==> valid_semantic_type(value@),
            r matches Ok(t) ==> t@ == value@,
            r matches Err(DescriptorError::InvalidSemanticType(text)) ==> text@ == value@,
            !(r matches Err(DescriptorError::DuplicateSemanticType(_))),
    {
        let chars = chars_of(value);
        if is_valid_semantic_type(&chars) {
            Ok(SemanticType(value.to_owned()))
        } else {
            Err(DescriptorError::InvalidSemanticType(value.to_owned()))
        }
    }


    /// Returns the identifier text.
    pub fn as_str(&self) -> (r: &str)
        ensures
            r@ == self@,
    {
        self.0.as_str()
    }

    /// Strict lexicographic comparison of two identifiers.
    pub fn less_than(&self, other: &Self) -> (r: bool)
        ensures
            r == seq_lt(self@, other@),
    {
        text_lt(self.0.as_str(), other.0.as_str())
    }
}

impl Clone for SemanticType {
    fn clone(&self) -> (r: Self)
        ensures
            r@ == self@,
    {
        SemanticType(self.0.clone())
    }
}

impl PartialEq for SemanticType {
    fn eq(&self, other: &Self) -> (r: bool) {
        self.0 == other.0
    }
}

impl PartialEqSpecImpl for SemanticType {
    open spec fn obeys_eq_spec() -> bool {
        true
    }

    open spec fn eq_spec(&self, other: &Self) -> bool {
        self@ == other@
    }
}

impl Eq for SemanticType {
}

/// `s` contains the character `c`.
pub open spec fn has_char(s: Seq<char>, c: char) -> bool {
    exists|i: int| 0 <= i < s.len() && s[i] == c
}

/// `s` contains the two-character pattern `a b` at some position.
pub open spec fn has_pair(s: Seq<char>, a: char, b: char) -> bool {
    exists|i: int| 0 <= i && i + 1 < s.len() && #[trigger] s[i] == a && s[i + 1] == b
}

/// A semantic type is namespaced (holds a `.`) and versioned (holds `/v`).
pub open spec fn valid_semantic_type(s: Seq<char>) -> bool {
    has_char(s, '.') && has_pair(s, '/', 'v')
}

/// Scans a character vector for the semantic type form.
pub fn is_valid_semantic_type(chars: &Vec<char>) -> (r: bool)
    ensures
        r == valid_semantic_type(chars@),
{
    let mut dot = false;
    let mut version = false;
    let mut i: usize = 0;
    while i < chars.len()
        invariant
            i <= chars.len(),
            dot == (exists|k: int| 0 <= k < i && chars@[k] == '.'),
            version == (exists|k: int| 0 <= k && k + 1 < i && #[trigger] chars@[k] == '/' && chars@[k + 1] == 'v'),
        decreases chars.len() - i,
    {
        if chars[i] == '.' {
            dot = true;
        }
        if i > 0 && chars[i - 1] == '/' && chars[i] == 'v' {
            version = true;
        }
        proof {
            if !version && (exists|k: int| 0 <= k && k + 1 < i + 1 && #[trigger] chars@[k] == '/' && chars@[k + 1] == 'v') {
                let k = choose|k: int| 0 <= k && k + 1 < i + 1 && #[trigger] chars@[k] == '/' && chars@[k + 1] == 'v';
                assert(k + 1 == i);
            }
        }
        i = i + 1;
    }
    r_helper(dot, version)
}

fn r_helper(dot: bool, version: bool) -> (r: bool)
    ensures
        r == (dot && version),
{
    dot && version
}

/// Descriptor validation failure.
#[derive(Clone, Debug, PartialEq, Eq)]
pub enum DescriptorError {
    InvalidSemanticType(String),
    DuplicateSemanticType(String),
}

} // verus!
