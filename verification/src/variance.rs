//! When a reference of one signature may be used where another is expected.
//!
//! Shared references are covariant in their lifetime, exclusive references
//! are invariant, an exclusive reference can be read as a shared one, and a
//! shared reference never becomes exclusive.

use vstd::prelude::*;
use crate::graph::LifetimeGraph;
use crate::order::{reaches, Constraint, Lifetime};
use crate::reference::{Mutability, Signature};

verus! {

/// The rule that governs a substitution, named by the mutability offered
/// and the mutability expected.
#[derive(Clone, Copy, Debug, PartialEq, Eq, Structural)]
pub enum Rule {
    SharedToShared,
    ExclusiveToShared,
    ExclusiveToExclusive,
    SharedToExclusive,
}

/// A refused substitution: the rule that failed, what was offered and what
/// was expected.
#[derive(Clone, Copy, Debug, PartialEq, Eq, Structural)]
pub struct VarianceViolation {
    pub rule: Rule,
    pub offered: Signature,
    pub expected: Signature,
}

/// The rule that governs offering `offered` where `expected` is expected.
pub open spec fn governing_rule(offered: Mutability, expected: Mutability) -> Rule {
    match (offered, expected) {
        (Mutability::Shared, Mutability::Shared) => Rule::SharedToShared,
        (Mutability::Exclusive, Mutability::Shared) => Rule::ExclusiveToShared,
        (Mutability::Exclusive, Mutability::Exclusive) => Rule::ExclusiveToExclusive,
        (Mutability::Shared, Mutability::Exclusive) => Rule::SharedToExclusive,
    }
}

/// Whether a reference of signature `offered` may stand where one of
/// signature `expected` is expected, under the order that `constraints`
/// generate.
pub open spec fn substitutable(
    constraints: Seq<Constraint>,
    offered: Signature,
    expected: Signature,
) -> bool {
    match expected.mutability {
        Mutability::Shared => reaches(constraints, offered.lifetime, expected.lifetime),
        Mutability::Exclusive => offered.mutability is Exclusive && offered.lifetime
            == expected.lifetime,
    }
}

/// The verdict on offering `offered` where `expected` is expected: accepted
/// where the substitution is legal, and otherwise refused with the rule that
/// governs it and the two signatures.
pub open spec fn verdict(constraints: Seq<Constraint>, offered: Signature, expected: Signature) -> Result<
    (),
    VarianceViolation,
> {
    if substitutable(constraints, offered, expected) {
        Ok(())
    } else {
        Err(
            VarianceViolation {
                rule: governing_rule(offered.mutability, expected.mutability),
                offered,
                expected,
            },
        )
    }
}

/// Decides whether `offered` may be used where `expected` is expected.
pub fn check_substitution(graph: &LifetimeGraph, offered: Signature, expected: Signature) -> (r:
    Result<(), VarianceViolation>)
    requires
        graph.wf(),
    ensures
        r == verdict(graph@, offered, expected),
{
    let (rule, legal) = match (offered.mutability, expected.mutability) {
        (Mutability::Shared, Mutability::Shared) => (
            Rule::SharedToShared,
            graph.outlives(offered.lifetime, expected.lifetime),
        ),
        (Mutability::Exclusive, Mutability::Shared) => (
            Rule::ExclusiveToShared,
            graph.outlives(offered.lifetime, expected.lifetime),
        ),
        (Mutability::Exclusive, Mutability::Exclusive) => (
            Rule::ExclusiveToExclusive,
            offered.lifetime == expected.lifetime,
        ),
        (Mutability::Shared, Mutability::Exclusive) => (Rule::SharedToExclusive, false),
    };
    if legal {
        Ok(())
    } else {
        Err(VarianceViolation { rule, offered, expected })
    }
}

/// Shared references are covariant: a shared reference may stand in for a
/// shared reference of lifetime `expected` exactly when its own lifetime
/// outlives `expected`.
pub proof fn lemma_shared_covariant(constraints: Seq<Constraint>, offered: Lifetime, expected: Lifetime)
    ensures
        substitutable(
            constraints,
            Signature { mutability: Mutability::Shared, lifetime: offered },
            Signature { mutability: Mutability::Shared, lifetime: expected },
        ) <==> reaches(constraints, offered, expected),
{
}

/// Exclusive references are invariant: between two different lifetimes no
/// exclusive reference stands in for another, whatever outlives what.
pub proof fn lemma_exclusive_invariant(
    constraints: Seq<Constraint>,
    offered: Lifetime,
    expected: Lifetime,
)
    ensures
        substitutable(
            constraints,
            Signature { mutability: Mutability::Exclusive, lifetime: offered },
            Signature { mutability: Mutability::Exclusive, lifetime: expected },
        ) <==> offered == expected,
{
}

/// An exclusive reference reads as a shared one of any lifetime that its
/// own outlives; a shared reference never becomes exclusive.
pub proof fn lemma_only_downgrade(constraints: Seq<Constraint>, offered: Lifetime, expected: Lifetime)
    ensures
        substitutable(
            constraints,
            Signature { mutability: Mutability::Exclusive, lifetime: offered },
            Signature { mutability: Mutability::Shared, lifetime: expected },
        ) <==> reaches(constraints, offered, expected),
        !substitutable(
            constraints,
            Signature { mutability: Mutability::Shared, lifetime: offered },
            Signature { mutability: Mutability::Exclusive, lifetime: expected },
        ),
{
}

} // verus!
