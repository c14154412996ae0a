//! The lifetime of what a call through a capability returns.
//!
//! A capability is a contract that values implement and that can be called
//! without knowing the implementor. Where its declaration carries a lifetime
//! parameter, that parameter fixes the lifetime of what its methods return,
//! however briefly the capability itself is borrowed for the call.

use vstd::prelude::*;
use crate::graph::LifetimeGraph;
use crate::order::{lemma_reaches_reflexive, reaches, Constraint, Lifetime};

verus! {

/// The lifetime that a method's return type names.
#[derive(Clone, Copy, Debug, PartialEq, Eq, Structural)]
pub enum ReturnLifetime {
    /// The lifetime parameter of the capability.
    Parameter,
    /// A lifetime of the method's own, bound strictly shorter than the
    /// parameter.
    Shorter(Lifetime),
}

/// One method of a capability, as far as lifetimes go.
#[derive(Clone, Copy, Debug, PartialEq, Eq, Structural)]
pub struct MethodSignature {
    pub returns: ReturnLifetime,
}

/// A capability: the lifetime bound to its parameter, if it declares one,
/// and its methods.
#[derive(Debug, PartialEq, Eq)]
pub struct CapabilityDeclaration {
    pub parameter: Option<Lifetime>,
    pub methods: Vec<MethodSignature>,
}

/// A call through a capability that declares no lifetime parameter: nothing
/// says how long what it returns is valid. `receiver` is the lifetime of the
/// reference that the call went through.
#[derive(Clone, Copy, Debug, PartialEq, Eq, Structural)]
pub struct UnresolvedLifetimeError {
    pub method: usize,
    pub receiver: Lifetime,
}

/// A declaration that no call can go through: `method` is its first method
/// that returns a lifetime which the parameter does not bind, and `lifetime`
/// is that lifetime.
#[derive(Clone, Copy, Debug, PartialEq, Eq, Structural)]
pub struct DefinitionError {
    pub method: usize,
    pub lifetime: Lifetime,
}

/// Why a call through a capability has no result lifetime.
#[derive(Clone, Copy, Debug, PartialEq, Eq, Structural)]
pub enum CallError {
    /// The declaration has no lifetime parameter.
    Unresolved(UnresolvedLifetimeError),
    /// The declaration has a parameter, and a method that escapes it.
    Definition(DefinitionError),
}

/// Whether the lifetime that `method` returns is bound by `parameter`: it is
/// the parameter, or a different lifetime that the parameter outlives.
pub open spec fn bound_by(
    constraints: Seq<Constraint>,
    parameter: Option<Lifetime>,
    method: MethodSignature,
) -> bool {
    match (parameter, method.returns) {
        (Some(_), ReturnLifetime::Parameter) => true,
        (Some(p), ReturnLifetime::Shorter(l)) => p != l && reaches(constraints, p, l),
        (None, _) => false,
    }
}

impl CapabilityDeclaration {
    /// The declaration has a method, and every lifetime that a method
    /// returns is bound by the parameter.
    pub open spec fn well_defined(&self, constraints: Seq<Constraint>) -> bool {
        &&& self.methods@.len() > 0
        &&& forall|i: int|
            0 <= i < self.methods@.len() ==> bound_by(
                constraints,
                self.parameter,
                #[trigger] self.methods@[i],
            )
    }

    /// The `i`-th method returns a lifetime that the parameter does not
    /// bind, and no method before it does.
    pub open spec fn is_first_unbound(&self, constraints: Seq<Constraint>, i: int) -> bool {
        &&& 0 <= i < self.methods@.len()
        &&& !bound_by(constraints, self.parameter, self.methods@[i])
        &&& forall|k: int|
            0 <= k < i ==> bound_by(constraints, self.parameter, #[trigger] self.methods@[k])
    }

    /// The first method that returns a lifetime which the parameter does not
    /// bind, where there is one.
    pub open spec fn first_unbound(&self, constraints: Seq<Constraint>) -> int {
        choose|i: int| self.is_first_unbound(constraints, i)
    }

    /// What a call of the `method`-th method through a reference of lifetime
    /// `receiver` comes to, under the order that `constraints` generate.
    /// Without a parameter the call is unresolved. With a parameter and a
    /// method that escapes it, no call yields a lifetime. Otherwise the call
    /// yields the lifetime that the method's return type names.
    pub open spec fn spec_resolve_call(
        &self,
        constraints: Seq<Constraint>,
        method: usize,
        receiver: Lifetime,
    ) -> Result<Lifetime, CallError> {
        match self.parameter {
            None => Err(CallError::Unresolved(UnresolvedLifetimeError { method, receiver })),
            Some(p) => if self.well_defined(constraints) {
                match self.methods@[method as int].returns {
                    ReturnLifetime::Parameter => Ok(p),
                    ReturnLifetime::Shorter(l) => Ok(l),
                }
            } else {
                let first = self.first_unbound(constraints);
                Err(
                    CallError::Definition(
                        DefinitionError {
                            method: first as usize,
                            lifetime: self.methods@[first].returns->Shorter_0,
                        },
                    ),
                )
            },
        }
    }

    /// Looks for the first method that returns a lifetime of its own which
    /// `parameter` does not bind.
    fn find_unbound(&self, graph: &LifetimeGraph, parameter: Lifetime) -> (r: Option<
        (usize, Lifetime),
    >)
        requires
            graph.wf(),
            self.parameter == Some(parameter),
        ensures
            match r {
                Some((i, l)) => self.is_first_unbound(graph@, i as int) && self.methods@[i as int].returns
                    == ReturnLifetime::Shorter(l),
                None => forall|k: int|
                    0 <= k < self.methods@.len() ==> bound_by(
                        graph@,
                        self.parameter,
                        #[trigger] self.methods@[k],
                    ),
            },
    {
        let mut i: usize = 0;
        while i < self.methods.len()
            invariant
                graph.wf(),
                self.parameter == Some(parameter),
                i <= self.methods@.len(),
                forall|k: int|
                    0 <= k < i ==> bound_by(graph@, self.parameter, #[trigger] self.methods@[k]),
            decreases self.methods.len() - i,
        {
            match self.methods[i].returns {
                ReturnLifetime::Parameter => {},
                ReturnLifetime::Shorter(l) => {
                    if l == parameter || !graph.outlives(parameter, l) {
                        return Some((i, l));
                    }
                },
            }
            i += 1;
        }
        None
    }

    /// Checks the declaration against the outlives order of `graph`.
    pub fn is_well_defined(&self, graph: &LifetimeGraph) -> (r: bool)
        requires
            graph.wf(),
        ensures
            r == self.well_defined(graph@),
    {
        if self.methods.len() == 0 {
            return false;
        }
        match self.parameter {
            None => {
                assert(!bound_by(graph@, self.parameter, self.methods@[0]));
                false
            },
            Some(p) => {
                let found = self.find_unbound(graph, p);
                found.is_none()
            },
        }
    }

    /// Resolves the lifetime of what the `method`-th method returns when it is
    /// called through a reference of lifetime `receiver`. The receiver never
    /// shortens the result: where the declaration has a parameter that binds
    /// every lifetime its methods return, the result is the lifetime that the
    /// method's return type names.
    pub fn resolve_call(
        &self,
        graph: &LifetimeGraph,
        method: usize,
        receiver: Lifetime,
    ) -> (r: Result<Lifetime, CallError>)
        requires
            graph.wf(),
            method < self.methods@.len(),
        ensures
            r == self.spec_resolve_call(graph@, method, receiver),
    {
        match self.parameter {
            None => Err(CallError::Unresolved(UnresolvedLifetimeError { method, receiver })),
            Some(p) => match self.find_unbound(graph, p) {
                Some((first, lifetime)) => {
                    proof {
                        self.lemma_first_unbound_is_unique(graph@, first as int);
                    }
                    Err(CallError::Definition(DefinitionError { method: first, lifetime }))
                },
                None => match self.methods[method].returns {
                    ReturnLifetime::Parameter => Ok(p),
                    ReturnLifetime::Shorter(l) => Ok(l),
                },
            },
        }
    }

    /// A declaration has one first escaping method at most.
    pub proof fn lemma_first_unbound_is_unique(&self, constraints: Seq<Constraint>, i: int)
        requires
            self.is_first_unbound(constraints, i),
        ensures
            self.first_unbound(constraints) == i,
            !self.well_defined(constraints),
    {
        let j = self.first_unbound(constraints);
        assert(self.is_first_unbound(constraints, j));
        if i < j {
            assert(bound_by(constraints, self.parameter, self.methods@[i]));
        }
        if j < i {
            assert(bound_by(constraints, self.parameter, self.methods@[j]));
        }
    }
}

/// A method that returns data of the capability's own lifetime `a` yields
/// exactly `a`, through a receiver of any lifetime.
pub proof fn lemma_parameter_fixes_result(
    constraints: Seq<Constraint>,
    declaration: CapabilityDeclaration,
    method: usize,
    a: Lifetime,
    receiver: Lifetime,
)
    requires
        declaration.well_defined(constraints),
        method < declaration.methods@.len(),
        declaration.parameter == Some(a),
        declaration.methods@[method as int].returns is Parameter,
    ensures
        declaration.spec_resolve_call(constraints, method, receiver) == Ok::<Lifetime, CallError>(a),
{
}

/// Without a declared parameter every call stays unresolved.
pub proof fn lemma_no_parameter_no_result(
    constraints: Seq<Constraint>,
    declaration: CapabilityDeclaration,
    method: usize,
    receiver: Lifetime,
)
    requires
        declaration.parameter is None,
    ensures
        declaration.spec_resolve_call(constraints, method, receiver) == Err::<Lifetime, CallError>(
            CallError::Unresolved(UnresolvedLifetimeError { method, receiver }),
        ),
{
}

/// A declaration with a method that escapes its parameter is a definition
/// error: no call through it yields a lifetime, whichever method is called.
pub proof fn lemma_ill_defined_no_result(
    constraints: Seq<Constraint>,
    declaration: CapabilityDeclaration,
    method: usize,
    receiver: Lifetime,
)
    requires
        !declaration.well_defined(constraints),
    ensures
        declaration.spec_resolve_call(constraints, method, receiver) is Err,
        declaration.parameter is Some ==> declaration.spec_resolve_call(
            constraints,
            method,
            receiver,
        ) matches Err(CallError::Definition(_)),
{
}

/// Whatever a call resolves to, the parameter of the capability outlives it.
pub proof fn lemma_result_within_parameter(
    constraints: Seq<Constraint>,
    declaration: CapabilityDeclaration,
    method: usize,
    receiver: Lifetime,
)
    requires
        method < declaration.methods@.len(),
        declaration.spec_resolve_call(constraints, method, receiver) is Ok,
    ensures
        declaration.parameter matches Some(p) && declaration.spec_resolve_call(
            constraints,
            method,
            receiver,
        ) matches Ok(l) && reaches(constraints, p, l),
{
    assert(bound_by(constraints, declaration.parameter, declaration.methods@[method as int]));
    lemma_reaches_reflexive(constraints, declaration.parameter->Some_0);
}

/// A source of text that lives for `'a`.
pub trait Reader<'a> {
    /// The text that `read` hands out.
    spec fn text(&self) -> Seq<char>;

    fn read(&self) -> (r: &'a str)
        ensures
            r@ == self.text(),
    ;
}

/// A reader over a string that it borrows for `'a`.
pub struct Text<'a> {
    pub content: &'a str,
}

impl<'a> Reader<'a> for Text<'a> {
    open spec fn text(&self) -> Seq<char> {
        self.content@
    }

    fn read(&self) -> (r: &'a str) {
        self.content
    }
}

/// Reads through a reader of unknown type. The text lives for `'a`, the
/// parameter of the capability, and not just for the borrow of `reader`.
pub fn get_reader<'a>(reader: &dyn Reader<'a>) -> (r: &'a str)
    ensures
        r@ == reader.text(),
{
    reader.read()
}

} // verus!
