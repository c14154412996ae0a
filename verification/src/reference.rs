//! Reference types as data: a lifetime, a mutability and a referent, which
//! may be a reference again.

use vstd::prelude::*;
use crate::order::Lifetime;

verus! {

/// Whether a reference shares its referent or holds it exclusively.
#[derive(Clone, Copy, Debug, PartialEq, Eq, Structural, Hash)]
pub enum Mutability {
    Shared,
    Exclusive,
}

/// What the engine decides about: the mutability and the governing lifetime
/// of one reference, without its referent.
#[derive(Clone, Copy, Debug, PartialEq, Eq, Structural, Hash)]
pub struct Signature {
    pub mutability: Mutability,
    pub lifetime: Lifetime,
}

/// A type that is no reference, known only by its identifier.
#[derive(Clone, Copy, Debug, PartialEq, Eq, Structural, Hash)]
pub struct BaseType {
    pub id: u64,
}

/// A referent: a base type, or a reference again.
#[derive(Debug, PartialEq, Eq)]
pub enum Type {
    Base(BaseType),
    Reference(Box<ReferenceType>),
}

/// One reference layer around a referent.
#[derive(Debug, PartialEq, Eq)]
pub struct ReferenceType {
    pub lifetime: Lifetime,
    pub mutability: Mutability,
    pub referent: Type,
}

impl Clone for Type {
    fn clone(&self) -> (t: Type)
        ensures
            t == *self,
        decreases self,
    {
        match self {
            Type::Base(b) => Type::Base(*b),
            Type::Reference(r) => {
                let inner: &ReferenceType = &**r;
                Type::Reference(Box::new(inner.clone()))
            },
        }
    }
}

impl Clone for ReferenceType {
    fn clone(&self) -> (r: ReferenceType)
        ensures
            r == *self,
        decreases self,
    {
        ReferenceType {
            lifetime: self.lifetime,
            mutability: self.mutability,
            referent: self.referent.clone(),
        }
    }
}

impl Type {
    /// The signatures of the reference layers of this type, outermost first;
    /// none for a base type.
    pub open spec fn layers(&self) -> Seq<Signature>
        decreases self,
    {
        match self {
            Type::Base(_) => Seq::empty(),
            Type::Reference(r) => seq![r.signature()] + r.referent.layers(),
        }
    }

    /// Whether this type is a reference, and so can be dereferenced.
    pub fn is_reference(&self) -> (r: bool)
        ensures
            r == (self is Reference),
    {
        match self {
            Type::Base(_) => false,
            Type::Reference(_) => true,
        }
    }
}

impl ReferenceType {
    /// The mutability and lifetime of the outermost layer.
    pub open spec fn signature(&self) -> Signature {
        Signature { mutability: self.mutability, lifetime: self.lifetime }
    }

    /// A reference of the given mutability and lifetime to `referent`.
    pub fn new(mutability: Mutability, lifetime: Lifetime, referent: Type) -> (r: ReferenceType)
        ensures
            r == (ReferenceType { lifetime, mutability, referent }),
    {
        ReferenceType { lifetime, mutability, referent }
    }

    /// The mutability and lifetime of the outermost layer.
    pub fn outer(&self) -> (s: Signature)
        ensures
            s == self.signature(),
    {
        Signature { mutability: self.mutability, lifetime: self.lifetime }
    }

    /// Strips the outermost layer and yields what it referred to.
    pub fn dereference(self) -> (t: Type)
        ensures
            t == self.referent,
    {
        self.referent
    }
}

} // verus!
