//! What dereferencing a reference to a reference yields.
//!
//! The outer reference has lifetime `'b`, the inner one lifetime `'a`. The
//! result either stays within the outer scope (the short result, valid for
//! `'b`) or escapes it (the long result, valid for `'a`). The short result can
//! always be had. The long result can be had through a shared outer borrow
//! only: an exclusive borrow pins what it borrows to its own scope.

use vstd::prelude::*;
use crate::order::Lifetime;
use crate::reference::{Mutability, ReferenceType, Signature, Type};

verus! {

/// Which lifetime the result of a reborrow claims.
#[derive(Clone, Copy, Debug, PartialEq, Eq, Structural)]
pub enum Target {
    /// The lifetime of the outer reference.
    Short,
    /// The lifetime of the inner reference.
    Long,
}

/// A long result was asked for through an exclusive outer borrow: `outer` is
/// the lifetime of that borrow, `claimed` the lifetime that the result was
/// to have.
#[derive(Clone, Copy, Debug, PartialEq, Eq, Structural)]
pub struct LifetimeEscapeError {
    pub outer: Lifetime,
    pub claimed: Lifetime,
}

/// The access that remains when a reference of mutability `inner` is reached
/// through a borrow of mutability `outer`: exclusive only if both are.
pub open spec fn read_through(outer: Mutability, inner: Mutability) -> Mutability {
    if outer is Exclusive && inner is Exclusive {
        Mutability::Exclusive
    } else {
        Mutability::Shared
    }
}

/// The result of dereferencing a reference of signature `outer` to a
/// reference of signature `inner`.
pub open spec fn spec_reborrow(outer: Signature, inner: Signature, target: Target) -> Result<
    Signature,
    LifetimeEscapeError,
> {
    if target is Long && outer.mutability is Exclusive {
        Err(LifetimeEscapeError { outer: outer.lifetime, claimed: inner.lifetime })
    } else {
        Ok(
            Signature {
                mutability: read_through(outer.mutability, inner.mutability),
                lifetime: if target is Short {
                    outer.lifetime
                } else {
                    inner.lifetime
                },
            },
        )
    }
}

/// The result of dereferencing all of `layers`, outermost first, starting
/// from a reference of signature `outer` around them: each step reborrows
/// what the steps before it have yielded.
pub open spec fn spec_resolve(outer: Signature, layers: Seq<Signature>, target: Target) -> Result<
    Signature,
    LifetimeEscapeError,
>
    decreases layers.len(),
{
    if layers.len() == 0 {
        Ok(outer)
    } else {
        match spec_reborrow(outer, layers.first(), target) {
            Ok(next) => spec_resolve(next, layers.drop_first(), target),
            Err(e) => Err(e),
        }
    }
}

/// Dereferences a reference of signature `outer` to a reference of
/// signature `inner`, for the short or the long result.
pub fn reborrow(outer: Signature, inner: Signature, target: Target) -> (r: Result<
    Signature,
    LifetimeEscapeError,
>)
    ensures
        r == spec_reborrow(outer, inner, target),
{
    match (target, outer.mutability) {
        (Target::Long, Mutability::Exclusive) => Err(
            LifetimeEscapeError { outer: outer.lifetime, claimed: inner.lifetime },
        ),
        (Target::Long, Mutability::Shared) => Ok(
            Signature { mutability: Mutability::Shared, lifetime: inner.lifetime },
        ),
        (Target::Short, Mutability::Shared) => Ok(
            Signature { mutability: Mutability::Shared, lifetime: outer.lifetime },
        ),
        (Target::Short, Mutability::Exclusive) => Ok(
            Signature { mutability: inner.mutability, lifetime: outer.lifetime },
        ),
    }
}

/// Dereferences `reference` down to its base type, layer by layer and
/// outermost first. A reference to a base type resolves to its own signature.
pub fn resolve(reference: &ReferenceType, target: Target) -> (r: Result<
    Signature,
    LifetimeEscapeError,
>)
    ensures
        r == spec_resolve(reference.signature(), reference.referent.layers(), target),
{
    let mut reached = reference.outer();
    let mut rest: &Type = &reference.referent;
    loop
        invariant
            spec_resolve(reached, rest.layers(), target) == spec_resolve(
                reference.signature(),
                reference.referent.layers(),
                target,
            ),
        decreases rest,
    {
        match rest {
            Type::Base(_) => {
                return Ok(reached);
            },
            Type::Reference(inner) => {
                proof {
                    let layers = rest.layers();
                    assert(layers.first() == inner.signature());
                    assert(layers.drop_first() =~= inner.referent.layers());
                }
                match reborrow(reached, inner.outer(), target) {
                    Ok(next) => {
                        reached = next;
                    },
                    Err(e) => {
                        return Err(e);
                    },
                }
                rest = &inner.referent;
            },
        }
    }
}

/// The long result of `&'b &'a T`: a shared reference for `'a`.
pub fn bar1(a: Lifetime, b: Lifetime) -> (r: Result<Signature, LifetimeEscapeError>)
    ensures
        r == Ok::<Signature, LifetimeEscapeError>(
            Signature { mutability: Mutability::Shared, lifetime: a },
        ),
{
    reborrow(
        Signature { mutability: Mutability::Shared, lifetime: b },
        Signature { mutability: Mutability::Shared, lifetime: a },
        Target::Long,
    )
}

/// The long result of `&'b mut &'a mut T`: refused, since the exclusive outer
/// borrow ends with `'b`.
pub fn bar4(a: Lifetime, b: Lifetime) -> (r: Result<Signature, LifetimeEscapeError>)
    ensures
        r == Err::<Signature, LifetimeEscapeError>(LifetimeEscapeError { outer: b, claimed: a }),
{
    reborrow(
        Signature { mutability: Mutability::Exclusive, lifetime: b },
        Signature { mutability: Mutability::Exclusive, lifetime: a },
        Target::Long,
    )
}

/// The short result can always be had, whatever the two mutabilities: it is
/// valid for the outer lifetime, and exclusive only if both references are.
pub proof fn lemma_short_always_legal(outer: Signature, inner: Signature)
    ensures
        spec_reborrow(outer, inner, Target::Short) == Ok::<Signature, LifetimeEscapeError>(
            Signature {
                mutability: read_through(outer.mutability, inner.mutability),
                lifetime: outer.lifetime,
            },
        ),
{
}

/// The long result can be had exactly through a shared outer borrow, and is
/// then a shared reference for the inner lifetime. The mutability of the
/// inner reference decides nothing.
pub proof fn lemma_long_needs_shared_outer(outer: Signature, inner: Signature)
    ensures
        outer.mutability is Shared ==> spec_reborrow(outer, inner, Target::Long) == Ok::<
            Signature,
            LifetimeEscapeError,
        >(Signature { mutability: Mutability::Shared, lifetime: inner.lifetime }),
        outer.mutability is Exclusive ==> spec_reborrow(outer, inner, Target::Long) == Err::<
            Signature,
            LifetimeEscapeError,
        >(LifetimeEscapeError { outer: outer.lifetime, claimed: inner.lifetime }),
{
}

/// Resolving a reference to a reference to a base type is one reborrow.
pub proof fn lemma_resolve_single(outer: Signature, inner: Signature, target: Target)
    ensures
        spec_resolve(outer, seq![inner], target) == spec_reborrow(outer, inner, target),
{
    let layers = seq![inner];
    assert(layers.drop_first() =~= Seq::<Signature>::empty());
    reveal_with_fuel(spec_resolve, 2);
}

/// Layer by layer resolution composes: a chain may be cut anywhere, the
/// front resolved first and the back resolved from what the front yielded.
pub proof fn lemma_resolve_composes(
    outer: Signature,
    front: Seq<Signature>,
    back: Seq<Signature>,
    target: Target,
)
    ensures
        spec_resolve(outer, front + back, target) == match spec_resolve(outer, front, target) {
            Ok(reached) => spec_resolve(reached, back, target),
            Err(e) => Err(e),
        },
    decreases front.len(),
{
    if front.len() == 0 {
        assert(front + back =~= back);
    } else {
        assert((front + back).first() == front.first());
        assert((front + back).drop_first() =~= front.drop_first() + back);
        match spec_reborrow(outer, front.first(), target) {
            Ok(next) => {
                lemma_resolve_composes(next, front.drop_first(), back, target);
            },
            Err(_) => {},
        }
    }
}

/// At any depth the short result can be had: it is valid for the outermost
/// lifetime, and exclusive only if every layer is.
pub proof fn lemma_resolve_short(outer: Signature, layers: Seq<Signature>)
    ensures
        spec_resolve(outer, layers, Target::Short) matches Ok(s) && s.lifetime == outer.lifetime
            && (s.mutability is Exclusive <==> outer.mutability is Exclusive && forall|i: int|
            0 <= i < layers.len() ==> (#[trigger] layers[i]).mutability is Exclusive),
    decreases layers.len(),
{
    if layers.len() > 0 {
        let next = spec_reborrow(outer, layers.first(), Target::Short)->Ok_0;
        let rest = layers.drop_first();
        lemma_resolve_short(next, rest);
        assert forall|i: int| 0 <= i < rest.len() implies rest[i] == layers[i + 1] by {}
        if forall|i: int| 0 <= i < layers.len() ==> (#[trigger] layers[i]).mutability is Exclusive {
            assert forall|i: int| 0 <= i < rest.len() implies (
            #[trigger] rest[i]).mutability is Exclusive by {
                assert(layers[i + 1].mutability is Exclusive);
            }
        }
        if next.mutability is Exclusive && forall|i: int|
            0 <= i < rest.len() ==> (#[trigger] rest[i]).mutability is Exclusive {
            assert forall|i: int| 0 <= i < layers.len() implies (
            #[trigger] layers[i]).mutability is Exclusive by {
                if i > 0 {
                    assert(rest[i - 1].mutability is Exclusive);
                }
            }
        }
    }
}

/// At any depth the long result can be had exactly through a shared
/// outermost borrow. It is then a shared reference for the innermost
/// lifetime; otherwise the escape is reported at the outermost layer.
pub proof fn lemma_resolve_long(outer: Signature, layers: Seq<Signature>)
    requires
        layers.len() > 0,
    ensures
        outer.mutability is Shared ==> spec_resolve(outer, layers, Target::Long) == Ok::<
            Signature,
            LifetimeEscapeError,
        >(Signature { mutability: Mutability::Shared, lifetime: layers.last().lifetime }),
        outer.mutability is Exclusive ==> spec_resolve(outer, layers, Target::Long) == Err::<
            Signature,
            LifetimeEscapeError,
        >(LifetimeEscapeError { outer: outer.lifetime, claimed: layers.first().lifetime }),
    decreases layers.len(),
{
    if outer.mutability is Shared {
        let next = Signature { mutability: Mutability::Shared, lifetime: layers.first().lifetime };
        let rest = layers.drop_first();
        if rest.len() > 0 {
            lemma_resolve_long(next, rest);
            assert(rest.last() == layers.last());
        } else {
            assert(layers.last() == layers.first());
        }
    }
}

} // verus!
