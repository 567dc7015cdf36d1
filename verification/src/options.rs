//! Construction options and the inspectable strict-allocation capability.

use vstd::prelude::*;

verus! {

/// Framework-owned output capacity behavior.
#[derive(Clone, Copy, Debug, PartialEq, Eq, Structural)]
pub enum CapacityPolicy {
    GrowAndMeasure,
    RejectOverflow,
}

/// Steady-state allocation claim.
#[derive(Clone, Copy, Debug, PartialEq, Eq, Structural)]
pub enum AllocationGuarantee {
    BestEffort,
    NoRunAllocation,
}

/// Validated construction options: a growing capacity policy never comes
/// with a no-allocation claim.
#[derive(Clone, Copy, Debug, PartialEq, Eq, Structural)]
pub struct BuildOptions {
    capacity_policy: CapacityPolicy,
    allocation_guarantee: AllocationGuarantee,
}

#[derive(Clone, Copy, Debug, PartialEq, Eq, Structural)]
pub enum BuildOptionError {
    GrowthWithNoRunAllocation,
}

impl BuildOptions {
    /// The capacity policy.
    pub closed spec fn policy(self) -> CapacityPolicy {
        self.capacity_policy
    }

    /// The allocation claim.
    pub closed spec fn guarantee(self) -> AllocationGuarantee {
        self.allocation_guarantee
    }

    /// Options hold no claim that their policy cannot uphold.
    pub open spec fn consistent(self) -> bool {
        !(self.policy() == CapacityPolicy::GrowAndMeasure && self.guarantee()
            == AllocationGuarantee::NoRunAllocation)
    }

    /// Every value of `BuildOptions` is consistent: no constructor couples
    /// growth with a no-allocation claim.
    #[verifier::type_invariant]
    spec fn claims_are_upheld(self) -> bool {
        !(self.capacity_policy == CapacityPolicy::GrowAndMeasure && self.allocation_guarantee
            == AllocationGuarantee::NoRunAllocation)
    }

    /// Friendly development behavior with no allocation claim.
    pub fn development() -> (r: Self)
        ensures
            r.policy() == CapacityPolicy::GrowAndMeasure,
            r.guarantee() == AllocationGuarantee::BestEffort,
    {
        BuildOptions {
            capacity_policy: CapacityPolicy::GrowAndMeasure,
            allocation_guarantee: AllocationGuarantee::BestEffort,
        }
    }

    /// Strict bounded behavior.
    pub fn strict() -> (r: Self)
        ensures
            r.policy() == CapacityPolicy::RejectOverflow,
            r.guarantee() == AllocationGuarantee::NoRunAllocation,
    {
        BuildOptions {
            capacity_policy: CapacityPolicy::RejectOverflow,
            allocation_guarantee: AllocationGuarantee::NoRunAllocation,
        }
    }

    /// Rejects combinations that cannot uphold their advertised guarantee.
    pub fn try_new(
        capacity_policy: CapacityPolicy,
        allocation_guarantee: AllocationGuarantee,
    ) -> (r: Result<Self, BuildOptionError>)
        ensures
            r is Err <==> (capacity_policy == CapacityPolicy::GrowAndMeasure && allocation_guarantee
                == AllocationGuarantee::NoRunAllocation),
            r matches Ok(o) ==> o.policy() == capacity_policy && o.guarantee() == allocation_guarantee,
    {
        if capacity_policy == CapacityPolicy::GrowAndMeasure && allocation_guarantee
            == AllocationGuarantee::NoRunAllocation {
            Err(BuildOptionError::GrowthWithNoRunAllocation)
        } else {
            Ok(BuildOptions { capacity_policy, allocation_guarantee })
        }
    }

    /// Options are determined by their policy and claim.
    pub proof fn lemma_determined(a: Self, b: Self)
        requires
            a.policy() == b.policy(),
            a.guarantee() == b.guarantee(),
        ensures
            a == b,
    {
    }

    /// The capacity policy; whatever it is, the options are consistent.
    pub fn capacity_policy(self) -> (r: CapacityPolicy)
        ensures
            r == self.policy(),
            self.consistent(),
    {
        proof {
            use_type_invariant(&self);
        }
        self.capacity_policy
    }

    /// The allocation claim; whatever it is, the options are consistent.
    pub fn allocation_guarantee(self) -> (r: AllocationGuarantee)
        ensures
            r == self.guarantee(),
            self.consistent(),
    {
        proof {
            use_type_invariant(&self);
        }
        self.allocation_guarantee
    }
}

/// How one declared allocation domain supports a strict claim.
#[derive(Clone, Debug, PartialEq, Eq)]
pub enum AllocationEvidence {
    Instrumented,
    /// A trusted assertion that cannot be mechanically proven by the framework.
    Certified { source: String },
    Unsupported,
}

/// Whether preparation has a finite allocation requirement.
#[derive(Clone, Copy, Debug, PartialEq, Eq, Structural)]
pub enum RequirementStatus {
    Fixed,
    Bounded,
    Dynamic,
    Unresolved,
}

/// Allocation operation totals observed by one domain probe.
#[derive(Clone, Copy, Debug, Default, PartialEq, Eq, Structural)]
pub struct AllocationOperations {
    pub allocations: usize,
    pub reallocations: usize,
    pub deallocations: usize,
}

impl AllocationOperations {
    pub fn is_zero(self) -> (r: bool)
        ensures
            r == (self.allocations == 0 && self.reallocations == 0 && self.deallocations == 0),
    {
        self.allocations == 0 && self.reallocations == 0 && self.deallocations == 0
    }
}

#[derive(Clone, Debug, PartialEq, Eq)]
pub struct AllocationDomain {
    pub name: String,
    pub evidence: AllocationEvidence,
}

/// Unicode `White_Space`, the set `char::is_whitespace` tests.
pub open spec fn is_white_space(c: char) -> bool {
    let v = c as u32;
    (0x9 <= v <= 0xd) || v == 0x20 || v == 0x85 || v == 0xa0 || v == 0x1680 || (0x2000 <= v
        <= 0x200a) || v == 0x2028 || v == 0x2029 || v == 0x202f || v == 0x205f || v == 0x3000
}

/// Tests Unicode `White_Space`.
pub fn white_space(c: char) -> (r: bool)
    ensures
        r == is_white_space(c),
{
    let v = c as u32;
    (0x9 <= v && v <= 0xd) || v == 0x20 || v == 0x85 || v == 0xa0 || v == 0x1680 || (0x2000 <= v
        && v <= 0x200a) || v == 0x2028 || v == 0x2029 || v == 0x202f || v == 0x205f || v == 0x3000
}

/// Text that is empty once surrounding white space is trimmed.
pub open spec fn blank(s: Seq<char>) -> bool {
    forall|i: int| 0 <= i < s.len() ==> is_white_space(#[trigger] s[i])
}

/// Tests whether a string is empty after trimming white space.
pub fn is_blank(s: &str) -> (r: bool)
    ensures
        r == blank(s@),
{
    let chars = crate::text::chars_of(s);
    let mut i: usize = 0;
    while i < chars.len()
        invariant
            i <= chars.len(),
            chars@ == s@,
            forall|k: int| 0 <= k < i ==> is_white_space(#[trigger] chars@[k]),
        decreases chars.len() - i,
    {
        if !white_space(chars[i]) {
            return false;
        }
        i = i + 1;
    }
    true
}

/// A domain can back a strict claim: it is named, and it is instrumented or
/// certified by a named source.
pub open spec fn domain_supports_strict(domain: AllocationDomain) -> bool {
    &&& !blank(domain.name@)
    &&& match domain.evidence {
        AllocationEvidence::Instrumented => true,
        AllocationEvidence::Certified { source } => !blank(source@),
        AllocationEvidence::Unsupported => false,
    }
}

/// Inspectable strict-allocation capability. Completeness of declarations
/// and certifications remains a trusted integrator responsibility.
#[derive(Clone, Debug, PartialEq, Eq)]
pub struct AllocationCapability {
    strict_capable: bool,
    declarations_complete_by_trusted_assertion: bool,
    domains: Vec<AllocationDomain>,
}

impl AllocationCapability {
    pub closed spec fn spec_strict_capable(&self) -> bool {
        self.strict_capable
    }

    pub closed spec fn spec_trusted(&self) -> bool {
        self.declarations_complete_by_trusted_assertion
    }

    pub closed spec fn spec_domains(&self) -> Seq<AllocationDomain> {
        self.domains@
    }

    /// Strict capability holds exactly when declarations are trusted, at
    /// least one domain is declared, and every domain supports a strict claim.
    pub fn inspect(
        domains: Vec<AllocationDomain>,
        declarations_complete_by_trusted_assertion: bool,
    ) -> (r: Self)
        ensures
            r.spec_domains() == domains@,
            r.spec_trusted() == declarations_complete_by_trusted_assertion,
            r.spec_strict_capable() == (declarations_complete_by_trusted_assertion && domains@.len()
                > 0 && forall|i: int|
                0 <= i < domains@.len() ==> domain_supports_strict(#[trigger] domains@[i])),
    {
        let mut all = true;
        let mut i: usize = 0;
        while i < domains.len()
            invariant
                i <= domains.len(),
                all == forall|k: int| 0 <= k < i ==> domain_supports_strict(#[trigger] domains@[k]),
            decreases domains.len() - i,
        {
            let domain = &domains[i];
            let named = !is_blank(domain.name.as_str());
            let evidenced = match &domain.evidence {
                AllocationEvidence::Instrumented => true,
                AllocationEvidence::Certified { source } => !is_blank(source.as_str()),
                AllocationEvidence::Unsupported => false,
            };
            if !(named && evidenced) {
                all = false;
            }
            i = i + 1;
        }
        let strict_capable = declarations_complete_by_trusted_assertion && domains.len() > 0 && all;
        AllocationCapability { strict_capable, declarations_complete_by_trusted_assertion, domains }
    }

    pub fn strict_capable(&self) -> (r: bool)
        ensures
            r == self.spec_strict_capable(),
    {
        self.strict_capable
    }

    pub fn declarations_are_trusted(&self) -> (r: bool)
        ensures
            r == self.spec_trusted(),
    {
        self.declarations_complete_by_trusted_assertion
    }

    pub fn domains(&self) -> (r: &[AllocationDomain])
        ensures
            r@ == self.spec_domains(),
    {
        self.domains.as_slice()
    }
}

/// The capability of a Module whose only allocation domain is the
/// instrumented Rust global allocator.
pub fn strict_global_allocator_capability() -> (r: AllocationCapability)
    ensures
        r.spec_strict_capable(),
        r.spec_trusted(),
        r.spec_domains().len() == 1,
        r.spec_domains()[0].evidence == AllocationEvidence::Instrumented,
        r.spec_domains()[0].name@ == "rust-global"@,
{
    let mut domains: Vec<AllocationDomain> = Vec::new();
    let name = "rust-global".to_owned();
    proof {
        reveal_strlit("rust-global");
        assert(!is_white_space('r'));
        assert(name@[0] == 'r');
    }
    domains.push(AllocationDomain { name, evidence: AllocationEvidence::Instrumented });
    AllocationCapability::inspect(domains, true)
}

} // verus!
