//! Resource representation authority: descriptors and their registry.

use vstd::prelude::*;

use crate::ids::{DescriptorError, SemanticType};
use crate::text::text_eq;
use crate::types::ConcreteType;

verus! {

/// Framework-owned physical form of a Resource value.
#[derive(Clone, Copy, Debug, PartialEq, Eq, Hash, Structural)]
pub enum StorageRepresentation {
    FixedValue,
    FixedBuffer,
    BoundedBuffer,
}

/// Complete representation authority for one semantic Resource type.
#[derive(Clone, Debug)]
pub struct ResourceDescriptor {
    semantic_type: SemanticType,
    concrete_type: ConcreteType,
    element_type: ConcreteType,
    element_size: usize,
    element_alignment: usize,
    representation: StorageRepresentation,
    adapter: &'static str,
    initialization: &'static str,
    reset: &'static str,
    validation: &'static str,
    drop_behavior: &'static str,
}

/// Read-only descriptor details used by build inspection.
#[derive(Clone, Copy, Debug, PartialEq, Eq)]
pub struct RepresentationInvariants<'a> {
    pub element_size: usize,
    pub element_alignment: usize,
    pub representation: StorageRepresentation,
    pub adapter: &'a str,
    pub initialization: &'a str,
    pub reset: &'a str,
    pub validation: &'a str,
    pub drop_behavior: &'a str,
}

impl ResourceDescriptor {
    /// The semantic identity.
    pub closed spec fn semantic(&self) -> Seq<char> {
        self.semantic_type@
    }

    /// The concrete representation a Resource of this type must have.
    pub closed spec fn concrete(&self) -> ConcreteType {
        self.concrete_type
    }

    /// Bytes of one stored element.
    pub closed spec fn spec_element_size(&self) -> usize {
        self.element_size
    }

    /// The storage representation.
    pub closed spec fn spec_representation(&self) -> StorageRepresentation {
        self.representation
    }

    /// The element alignment in bytes.
    pub closed spec fn spec_element_alignment(&self) -> usize {
        self.element_alignment
    }

    /// The texts naming the adapter, its initialization, reset, validation
    /// and drop behavior.
    pub closed spec fn spec_behavior(&self) -> (Seq<char>, Seq<char>, Seq<char>, Seq<char>, Seq<char>) {
        (self.adapter@, self.initialization@, self.reset@, self.validation@, self.drop_behavior@)
    }

    /// Two descriptors describe interchangeable storage.
    pub closed spec fn spec_compatible(&self, other: &Self) -> bool {
        &&& self.concrete_type == other.concrete_type
        &&& self.element_type == other.element_type
        &&& self.element_size == other.element_size
        &&& self.element_alignment == other.element_alignment
        &&& self.representation == other.representation
        &&& self.adapter@ == other.adapter@
        &&& self.initialization@ == other.initialization@
        &&& self.reset@ == other.reset@
        &&& self.validation@ == other.validation@
        &&& self.drop_behavior@ == other.drop_behavior@
    }

    /// Describes a single fixed value of type `T`.
    pub fn of<T: 'static>(
        semantic_type: SemanticType,
        adapter: &'static str,
        validation: &'static str,
    ) -> (r: Self)
        ensures
            r.semantic() == semantic_type@,
            r.spec_representation() == StorageRepresentation::FixedValue,
            r.spec_element_size() == vstd::layout::size_of::<T>(),
    {
        ResourceDescriptor {
            semantic_type,
            concrete_type: ConcreteType::of::<T>(),
            element_type: ConcreteType::of::<T>(),
            element_size: core::mem::size_of::<T>(),
            element_alignment: core::mem::align_of::<T>(),
            representation: StorageRepresentation::FixedValue,
            adapter,
            initialization: "initialize exactly one typed value",
            reset: "drop published value before the next run",
            validation,
            drop_behavior: "Rust Drop",
        }
    }

    /// Describes a fixed-length typed buffer: `R` is the public Resource type
    /// and `E` is the element stored by the framework adapter.
    pub fn fixed_buffer<R: 'static, E: 'static>(
        semantic_type: SemanticType,
        adapter: &'static str,
        validation: &'static str,
    ) -> (r: Self)
        ensures
            r.semantic() == semantic_type@,
            r.spec_representation() == StorageRepresentation::FixedBuffer,
            r.spec_element_size() == vstd::layout::size_of::<E>(),
    {
        Self::buffer::<R, E>(semantic_type, adapter, validation, StorageRepresentation::FixedBuffer)
    }

    /// Describes a bounded variable-length typed buffer.
    pub fn bounded_buffer<R: 'static, E: 'static>(
        semantic_type: SemanticType,
        adapter: &'static str,
        validation: &'static str,
    ) -> (r: Self)
        ensures
            r.semantic() == semantic_type@,
            r.spec_representation() == StorageRepresentation::BoundedBuffer,
            r.spec_element_size() == vstd::layout::size_of::<E>(),
    {
        Self::buffer::<R, E>(semantic_type, adapter, validation, StorageRepresentation::BoundedBuffer)
    }

    fn buffer<R: 'static, E: 'static>(
        semantic_type: SemanticType,
        adapter: &'static str,
        validation: &'static str,
        representation: StorageRepresentation,
    ) -> (r: Self)
        requires
            representation != StorageRepresentation::FixedValue,
        ensures
            r.semantic() == semantic_type@,
            r.spec_representation() == representation,
            r.spec_element_size() == vstd::layout::size_of::<E>(),
    {
        ResourceDescriptor {
            semantic_type,
            concrete_type: ConcreteType::of::<R>(),
            element_type: ConcreteType::of::<E>(),
            element_size: core::mem::size_of::<E>(),
            element_alignment: core::mem::align_of::<E>(),
            representation,
            adapter,
            initialization: "initialize elements in logical index order",
            reset: "drop initialized elements and reset logical length",
            validation,
            drop_behavior: "drop initialized elements only",
        }
    }

    /// Returns the stable semantic identity.
    pub fn semantic_type(&self) -> (r: &SemanticType)
        ensures
            r@ == self.semantic(),
    {
        &self.semantic_type
    }

    /// Tests the registered concrete representation.
    pub fn represents<T: 'static>(&self) -> bool {
        self.concrete_type.same_as(ConcreteType::of::<T>())
    }

    /// The registered concrete representation.
    pub fn concrete_type(&self) -> (r: ConcreteType)
        ensures
            r == self.concrete(),
    {
        self.concrete_type
    }

    /// Returns inspectable representation invariants.
    pub fn invariants(&self) -> (r: RepresentationInvariants<'_>)
        ensures
            r.element_size == self.spec_element_size(),
            r.element_alignment == self.spec_element_alignment(),
            r.representation == self.spec_representation(),
            (r.adapter@, r.initialization@, r.reset@, r.validation@, r.drop_behavior@) == self.spec_behavior(),
    {
        RepresentationInvariants {
            element_size: self.element_size,
            element_alignment: self.element_alignment,
            representation: self.representation,
            adapter: self.adapter,
            initialization: self.initialization,
            reset: self.reset,
            validation: self.validation,
            drop_behavior: self.drop_behavior,
        }
    }

    /// Descriptor equality on everything that shapes storage.
    pub fn compatible_with(&self, other: &Self) -> (r: bool)
        ensures
            r == self.spec_compatible(other),
    {
        self.concrete_type.same_as(other.concrete_type)
            && self.element_type.same_as(other.element_type)
            && self.element_size == other.element_size
            && self.element_alignment == other.element_alignment
            && self.representation == other.representation
            && text_eq(self.adapter, other.adapter)
            && text_eq(self.initialization, other.initialization)
            && text_eq(self.reset, other.reset)
            && text_eq(self.validation, other.validation)
            && text_eq(self.drop_behavior, other.drop_behavior)
    }
}

/// Semantic-to-concrete representation registry: at most one descriptor per
/// semantic type.
pub struct ResourceRegistry {
    descriptors: Vec<ResourceDescriptor>,
}

impl ResourceRegistry {
    /// The registered descriptors, in registration order.
    pub closed spec fn entries(&self) -> Seq<ResourceDescriptor> {
        self.descriptors@
    }

    /// Semantic types are registered at most once.
    pub open spec fn wf(&self) -> bool {
        forall|i: int, j: int|
            0 <= i < j < self.entries().len() ==> #[trigger] self.entries()[i].semantic()
                != #[trigger] self.entries()[j].semantic()
    }

    /// Some descriptor is registered for `semantic`.
    pub open spec fn knows(&self, semantic: Seq<char>) -> bool {
        exists|i: int| 0 <= i < self.entries().len() && #[trigger] self.entries()[i].semantic() == semantic
    }

    /// `semantic` is registered with concrete representation `concrete`.
    pub open spec fn registers(&self, semantic: Seq<char>, concrete: ConcreteType) -> bool {
        exists|i: int|
            0 <= i < self.entries().len() && #[trigger] self.entries()[i].semantic() == semantic
                && self.entries()[i].concrete() == concrete
    }

    /// A semantic type has one registered representation.
    pub proof fn lemma_registers_unique(&self, semantic: Seq<char>, a: ConcreteType, b: ConcreteType)
        requires
            self.wf(),
            self.registers(semantic, a),
            self.registers(semantic, b),
        ensures
            a == b,
    {
        let i = choose|i: int|
            0 <= i < self.entries().len() && #[trigger] self.entries()[i].semantic() == semantic
                && self.entries()[i].concrete() == a;
        let j = choose|j: int|
            0 <= j < self.entries().len() && #[trigger] self.entries()[j].semantic() == semantic
                && self.entries()[j].concrete() == b;
        if i < j {
            assert(self.entries()[i].semantic() != self.entries()[j].semantic());
        } else if j < i {
            assert(self.entries()[j].semantic() != self.entries()[i].semantic());
        }
    }

    /// An empty registry.
    pub fn new() -> (r: Self)
        ensures
            r.wf(),
            r.entries().len() == 0,
    {
        ResourceRegistry { descriptors: Vec::new() }
    }

    /// Registers the sole representation authority for a semantic type.
    pub fn register(&mut self, descriptor: ResourceDescriptor) -> (r: Result<(), DescriptorError>)
        requires
            old(self).wf(),
        ensures
            final(self).wf(),
            r is Ok <==> !old(self).knows(descriptor.semantic()),
            r is Ok ==> final(self).entries() == old(self).entries().push(descriptor),
            r is Err ==> final(self).entries() == old(self).entries(),
            r matches Err(e) ==> e == DescriptorError::DuplicateSemanticType(e->DuplicateSemanticType_0)
                && e->DuplicateSemanticType_0@ == descriptor.semantic(),
    {
        match self.find(&descriptor.semantic_type) {
            Some(index) => {
                let name = self.descriptors[index].semantic_type.as_str().to_owned();
                Err(DescriptorError::DuplicateSemanticType(name))
            },
            None => {
                let ghost before = self.entries();
                self.descriptors.push(descriptor);
                proof {
                    assert forall|i: int, j: int|
                        0 <= i < j < self.entries().len() implies #[trigger] self.entries()[i].semantic()
                            != #[trigger] self.entries()[j].semantic() by {
                        if j == before.len() {
                            assert(before[i] == self.entries()[i]);
                        } else {
                            assert(before[i] == self.entries()[i]);
                            assert(before[j] == self.entries()[j]);
                        }
                    }
                }
                Ok(())
            },
        }
    }

    pub(crate) fn find(&self, semantic_type: &SemanticType) -> (r: Option<usize>)
        ensures
            r is None <==> !self.knows(semantic_type@),
            r matches Some(i) ==> i < self.entries().len() && self.entries()[i as int].semantic()
                == semantic_type@,
    {
        let mut i: usize = 0;
        while i < self.descriptors.len()
            invariant
                i <= self.descriptors.len(),
                forall|k: int| 0 <= k < i ==> #[trigger] self.entries()[k].semantic() != semantic_type@,
            decreases self.descriptors.len() - i,
        {
            if self.descriptors[i].semantic_type == *semantic_type {
                assert(self.entries()[i as int].semantic() == semantic_type@);
                return Some(i);
            }
            i = i + 1;
        }
        None
    }

    pub(crate) fn entry(&self, i: usize) -> (r: &ResourceDescriptor)
        requires
            i < self.entries().len(),
        ensures
            *r == self.entries()[i as int],
    {
        &self.descriptors[i]
    }

    /// Resolves the descriptor of a semantic type.
    pub fn get(&self, semantic_type: &SemanticType) -> (r: Option<&ResourceDescriptor>)
        requires
            self.wf(),
        ensures
            r is None <==> !self.knows(semantic_type@),
            r matches Some(d) ==> d.semantic() == semantic_type@ && self.entries().contains(*d)
                && self.registers(semantic_type@, d.concrete()),
    {
        match self.find(semantic_type) {
            Some(index) => Some(&self.descriptors[index]),
            None => None,
        }
    }
}

impl Default for ResourceRegistry {
    fn default() -> (r: Self)
        ensures
            r.wf(),
            r.entries().len() == 0,
    {
        ResourceRegistry::new()
    }
}

} // verus!
