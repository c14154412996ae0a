//! Lifetimes, and the outlives order that a list of constraints generates.
//!
//! A constraint `(a, b)` reads "`a` outlives `b`". The order generated by a
//! list of constraints is its reflexive-transitive closure: `a` outlives `b`
//! exactly when a chain of constraints leads from `a` to `b`.

use vstd::prelude::*;

verus! {

/// A region of validity, known only by its identifier.
#[derive(Clone, Copy, Debug, PartialEq, Eq, Structural, Hash)]
pub struct Lifetime {
    pub id: u64,
}

impl Lifetime {
    /// The lifetime with the given identifier.
    pub fn new(id: u64) -> (l: Lifetime)
        ensures
            l.id == id,
    {
        Lifetime { id }
    }
}

/// `(a, b)` states that `a` outlives `b`.
pub type Constraint = (Lifetime, Lifetime);

/// The step of `path` that leaves its `i`-th lifetime is one of `constraints`.
pub open spec fn is_step(constraints: Seq<Constraint>, path: Seq<Lifetime>, i: int) -> bool {
    constraints.contains((path[i], path[i + 1]))
}

/// Every step of `path` is one of `constraints`.
pub open spec fn is_chain(constraints: Seq<Constraint>, path: Seq<Lifetime>) -> bool {
    &&& path.len() > 0
    &&& forall|i: int| 0 <= i < path.len() - 1 ==> #[trigger] is_step(constraints, path, i)
}

/// `path` is a chain of `constraints` that starts at `a` and ends at `b`.
pub open spec fn leads(constraints: Seq<Constraint>, path: Seq<Lifetime>, a: Lifetime, b: Lifetime) -> bool {
    &&& is_chain(constraints, path)
    &&& path.first() == a
    &&& path.last() == b
}

/// `a` outlives `b` in the order generated by `constraints`.
pub open spec fn reaches(constraints: Seq<Constraint>, a: Lifetime, b: Lifetime) -> bool {
    exists|path: Seq<Lifetime>| #[trigger] leads(constraints, path, a, b)
}

/// No two distinct lifetimes outlive each other.
pub open spec fn acyclic(constraints: Seq<Constraint>) -> bool {
    forall|a: Lifetime, b: Lifetime|
        #[trigger] reaches(constraints, a, b) && reaches(constraints, b, a) ==> a == b
}

/// Adding `a` outlives `b` would make two distinct lifetimes outlive each other.
pub open spec fn closes_cycle(constraints: Seq<Constraint>, a: Lifetime, b: Lifetime) -> bool {
    a != b && reaches(constraints, b, a)
}

/// Every lifetime outlives itself.
pub proof fn lemma_reaches_reflexive(constraints: Seq<Constraint>, a: Lifetime)
    ensures
        reaches(constraints, a, a),
{
    assert(leads(constraints, seq![a], a, a));
}

/// A stated constraint holds in the generated order.
pub proof fn lemma_reaches_constraint(constraints: Seq<Constraint>, a: Lifetime, b: Lifetime)
    requires
        constraints.contains((a, b)),
    ensures
        reaches(constraints, a, b),
{
    let path = seq![a, b];
    assert(is_step(constraints, path, 0));
    assert(leads(constraints, path, a, b));
}

/// The generated order is transitive.
pub proof fn lemma_reaches_transitive(
    constraints: Seq<Constraint>,
    a: Lifetime,
    m: Lifetime,
    b: Lifetime,
)
    requires
        reaches(constraints, a, m),
        reaches(constraints, m, b),
    ensures
        reaches(constraints, a, b),
{
    let p = choose|p: Seq<Lifetime>| leads(constraints, p, a, m);
    let q = choose|q: Seq<Lifetime>| leads(constraints, q, m, b);
    let r = p + q.subrange(1, q.len() as int);
    assert forall|i: int| 0 <= i < r.len() - 1 implies #[trigger] is_step(constraints, r, i) by {
        if i < p.len() - 1 {
            assert(is_step(constraints, p, i));
        } else {
            let k = i - (p.len() - 1);
            assert(is_step(constraints, q, k));
            assert(r[i] == q[k]);
            assert(r[i + 1] == q[k + 1]);
        }
    }
    assert(leads(constraints, r, a, b));
}

/// With no constraints a lifetime outlives only itself.
pub proof fn lemma_reaches_empty(a: Lifetime, b: Lifetime)
    ensures
        reaches(Seq::<Constraint>::empty(), a, b) <==> a == b,
{
    let none = Seq::<Constraint>::empty();
    lemma_reaches_reflexive(none, a);
    if reaches(none, a, b) {
        let p = choose|p: Seq<Lifetime>| leads(none, p, a, b);
        if p.len() > 1 {
            assert(is_step(none, p, 0));
        }
    }
}

/// More constraints never shrink the generated order.
pub proof fn lemma_reaches_monotone(
    fewer: Seq<Constraint>,
    more: Seq<Constraint>,
    a: Lifetime,
    b: Lifetime,
)
    requires
        forall|c: Constraint| fewer.contains(c) ==> more.contains(c),
        reaches(fewer, a, b),
    ensures
        reaches(more, a, b),
{
    let p = choose|p: Seq<Lifetime>| leads(fewer, p, a, b);
    assert forall|i: int| 0 <= i < p.len() - 1 implies #[trigger] is_step(more, p, i) by {
        assert(is_step(fewer, p, i));
    }
    assert(leads(more, p, a, b));
}

/// A chain that may use the new constraint `(a, b)` either avoids it, or
/// gets to `a` and goes on from `b`, on the old constraints alone.
proof fn lemma_chain_splits(constraints: Seq<Constraint>, a: Lifetime, b: Lifetime, path: Seq<Lifetime>)
    requires
        is_chain(constraints.push((a, b)), path),
    ensures
        reaches(constraints, path.first(), path.last()) || (reaches(constraints, path.first(), a)
            && reaches(constraints, b, path.last())),
    decreases path.len(),
{
    let x = path.first();
    let y = path.last();
    if path.len() == 1 {
        lemma_reaches_reflexive(constraints, x);
    } else {
        let init = path.drop_last();
        let w = init.last();
        let extended = constraints.push((a, b));
        assert forall|i: int| 0 <= i < init.len() - 1 implies #[trigger] is_step(
            extended,
            init,
            i,
        ) by {
            assert(is_step(extended, path, i));
        }
        lemma_chain_splits(constraints, a, b, init);
        let last = path.len() - 2;
        assert(is_step(extended, path, last));
        assert(path[last] == w && path[last + 1] == y);
        assert(init.first() == x);
        vstd::seq_lib::lemma_seq_contains_after_push(constraints, (a, b), (w, y));
        if constraints.contains((w, y)) {
            lemma_reaches_constraint(constraints, w, y);
            if reaches(constraints, x, w) {
                lemma_reaches_transitive(constraints, x, w, y);
            } else {
                lemma_reaches_transitive(constraints, b, w, y);
            }
        } else {
            assert(w == a && y == b);
            lemma_reaches_reflexive(constraints, b);
        }
    }
}

/// How one more constraint extends the generated order: `x` outlives `y`
/// afterwards exactly when it did before, or `x` outlived the longer end
/// and the shorter end outlived `y`.
pub proof fn lemma_reaches_push(
    constraints: Seq<Constraint>,
    a: Lifetime,
    b: Lifetime,
    x: Lifetime,
    y: Lifetime,
)
    ensures
        reaches(constraints.push((a, b)), x, y) <==> reaches(constraints, x, y) || (reaches(
            constraints,
            x,
            a,
        ) && reaches(constraints, b, y)),
{
    let extended = constraints.push((a, b));
    assert forall|c: Constraint| constraints.contains(c) implies extended.contains(c) by {
        vstd::seq_lib::lemma_seq_contains_after_push(constraints, (a, b), c);
    }
    if reaches(extended, x, y) {
        let p = choose|p: Seq<Lifetime>| leads(extended, p, x, y);
        lemma_chain_splits(constraints, a, b, p);
    }
    if reaches(constraints, x, y) {
        lemma_reaches_monotone(constraints, extended, x, y);
    }
    if reaches(constraints, x, a) && reaches(constraints, b, y) {
        lemma_reaches_monotone(constraints, extended, x, a);
        lemma_reaches_monotone(constraints, extended, b, y);
        vstd::seq_lib::lemma_seq_contains_after_push(constraints, (a, b), (a, b));
        lemma_reaches_constraint(extended, a, b);
        lemma_reaches_transitive(extended, x, a, b);
        lemma_reaches_transitive(extended, x, b, y);
    }
}

/// A constraint that closes no cycle keeps the order free of cycles.
pub proof fn lemma_acyclic_push(constraints: Seq<Constraint>, a: Lifetime, b: Lifetime)
    requires
        acyclic(constraints),
        !closes_cycle(constraints, a, b),
    ensures
        acyclic(constraints.push((a, b))),
{
    let extended = constraints.push((a, b));
    assert forall|x: Lifetime, y: Lifetime| #[trigger]
        reaches(extended, x, y) && reaches(extended, y, x) implies x == y by {
        lemma_reaches_push(constraints, a, b, x, y);
        lemma_reaches_push(constraints, a, b, y, x);
        if x != y {
            // The old constraints order x and y one way at most, so one of
            // the two chains goes through the new constraint: b reaches a.
            if reaches(constraints, x, y) {
                lemma_reaches_transitive(constraints, b, x, y);
                lemma_reaches_transitive(constraints, b, y, a);
            } else if reaches(constraints, y, x) {
                lemma_reaches_transitive(constraints, b, y, x);
                lemma_reaches_transitive(constraints, b, x, a);
            } else {
                lemma_reaches_transitive(constraints, b, y, a);
            }
            // Then a and b are one lifetime, and both chains were there before.
            lemma_reaches_transitive(constraints, x, a, y);
            lemma_reaches_transitive(constraints, y, a, x);
        }
    }
}

/// Once `a` outlives `b` has been accepted for two distinct lifetimes, the
/// reverse constraint closes a cycle.
pub proof fn lemma_reverse_closes_cycle(constraints: Seq<Constraint>, a: Lifetime, b: Lifetime)
    requires
        a != b,
        !closes_cycle(constraints, a, b),
    ensures
        closes_cycle(constraints.push((a, b)), b, a),
{
    lemma_reaches_reflexive(constraints, a);
    lemma_reaches_reflexive(constraints, b);
    lemma_reaches_push(constraints, a, b, a, b);
}

} // verus!
