//! The lifetime graph: the constraints of one analysis session, kept as the
//! table of their closure so that an outlives query is a lookup.

use vstd::prelude::*;
use crate::order::{
    acyclic, closes_cycle, lemma_acyclic_push, lemma_reaches_empty, lemma_reaches_push,
    lemma_reaches_reflexive, lemma_reaches_transitive, reaches, Constraint, Lifetime,
};

verus! {

/// The constraint that was refused: with `longer` outliving `shorter`, two
/// distinct lifetimes would outlive each other.
#[derive(Clone, Copy, Debug, PartialEq, Eq, Structural)]
pub struct CycleError {
    pub longer: Lifetime,
    pub shorter: Lifetime,
}

/// The outlives order of one session.
///
/// Its view is the list of constraints accepted so far, oldest first. The
/// order itself is what these constraints generate, see [`reaches`].
pub struct LifetimeGraph {
    /// Every pair of distinct lifetimes of which the first outlives the second.
    closure: Vec<Constraint>,
    constraints: Ghost<Seq<Constraint>>,
}

impl View for LifetimeGraph {
    type V = Seq<Constraint>;

    closed spec fn view(&self) -> Seq<Constraint> {
        self.constraints@
    }
}

/// Whether `table` lists the pair `(a, b)`.
fn lists(table: &Vec<Constraint>, a: Lifetime, b: Lifetime) -> (r: bool)
    ensures
        r == table@.contains((a, b)),
{
    let mut i: usize = 0;
    while i < table.len()
        invariant
            i <= table.len(),
            forall|k: int| 0 <= k < i ==> table@[k] != (a, b),
        decreases table.len() - i,
    {
        let entry = table[i];
        if entry.0 == a && entry.1 == b {
            assert(table@[i as int] == (a, b));
            return true;
        }
        i += 1;
    }
    false
}

/// `a` itself and every lifetime that `table` lists as outliving `a`.
fn longer_than(table: &Vec<Constraint>, a: Lifetime) -> (r: Vec<Lifetime>)
    ensures
        forall|x: Lifetime| #[trigger] r@.contains(x) <==> x == a || table@.contains((x, a)),
{
    let mut found: Vec<Lifetime> = Vec::new();
    found.push(a);
    let mut i: usize = 0;
    while i < table.len()
        invariant
            i <= table.len(),
            found@.len() > 0,
            found@[0] == a,
            forall|k: int|
                0 <= k < found@.len() ==> #[trigger] found@[k] == a || table@.contains(
                    (found@[k], a),
                ),
            forall|k: int|
                0 <= k < i && (#[trigger] table@[k]).1 == a ==> found@.contains(table@[k].0),
        decreases table.len() - i,
    {
        let entry = table[i];
        if entry.1 == a {
            let ghost before = found@;
            found.push(entry.0);
            proof {
                assert(table@[i as int] == (entry.0, a));
                assert forall|k: int| 0 <= k <= i && (#[trigger] table@[k]).1 == a implies found@.contains(
                    table@[k].0,
                ) by {
                    vstd::seq_lib::lemma_seq_contains_after_push(before, entry.0, table@[k].0);
                }
            }
        }
        i += 1;
    }
    proof {
        assert forall|x: Lifetime| x == a || table@.contains((x, a)) implies #[trigger] found@.contains(
            x,
        ) by {
            if x == a {
                assert(found@[0] == x);
            } else {
                let k = choose|k: int| 0 <= k < table@.len() && table@[k] == (x, a);
                assert(table@[k].1 == a);
            }
        }
    }
    found
}

/// `b` itself and every lifetime that `table` lists as outlived by `b`.
fn shorter_than(table: &Vec<Constraint>, b: Lifetime) -> (r: Vec<Lifetime>)
    ensures
        forall|y: Lifetime| #[trigger] r@.contains(y) <==> y == b || table@.contains((b, y)),
{
    let mut found: Vec<Lifetime> = Vec::new();
    found.push(b);
    let mut i: usize = 0;
    while i < table.len()
        invariant
            i <= table.len(),
            found@.len() > 0,
            found@[0] == b,
            forall|k: int|
                0 <= k < found@.len() ==> #[trigger] found@[k] == b || table@.contains(
                    (b, found@[k]),
                ),
            forall|k: int|
                0 <= k < i && (#[trigger] table@[k]).0 == b ==> found@.contains(table@[k].1),
        decreases table.len() - i,
    {
        let entry = table[i];
        if entry.0 == b {
            let ghost before = found@;
            found.push(entry.1);
            proof {
                assert(table@[i as int] == (b, entry.1));
                assert forall|k: int| 0 <= k <= i && (#[trigger] table@[k]).0 == b implies found@.contains(
                    table@[k].1,
                ) by {
                    vstd::seq_lib::lemma_seq_contains_after_push(before, entry.1, table@[k].1);
                }
            }
        }
        i += 1;
    }
    proof {
        assert forall|y: Lifetime| y == b || table@.contains((b, y)) implies #[trigger] found@.contains(
            y,
        ) by {
            if y == b {
                assert(found@[0] == y);
            } else {
                let k = choose|k: int| 0 <= k < table@.len() && table@[k] == (b, y);
                assert(table@[k].0 == b);
            }
        }
    }
    found
}

/// Lists in `table` every pair of a lifetime of `longer` and one of `shorter`.
fn join(table: &mut Vec<Constraint>, longer: &Vec<Lifetime>, shorter: &Vec<Lifetime>)
    ensures
        forall|x: Lifetime, y: Lifetime| #[trigger]
            final(table)@.contains((x, y)) <==> old(table)@.contains((x, y)) || (longer@.contains(
                x,
            ) && shorter@.contains(y)),
{
    let mut i: usize = 0;
    while i < longer.len()
        invariant
            i <= longer.len(),
            forall|c: Constraint| old(table)@.contains(c) ==> table@.contains(c),
            forall|c: Constraint| #[trigger]
                table@.contains(c) ==> old(table)@.contains(c) || (longer@.contains(c.0)
                    && shorter@.contains(c.1)),
            forall|p: int, q: int|
                0 <= p < i && 0 <= q < shorter.len() ==> table@.contains(
                    (#[trigger] longer@[p], #[trigger] shorter@[q]),
                ),
        decreases longer.len() - i,
    {
        let x = longer[i];
        let mut j: usize = 0;
        while j < shorter.len()
            invariant
                i < longer.len(),
                j <= shorter.len(),
                x == longer@[i as int],
                forall|c: Constraint| old(table)@.contains(c) ==> table@.contains(c),
                forall|c: Constraint| #[trigger]
                    table@.contains(c) ==> old(table)@.contains(c) || (longer@.contains(c.0)
                        && shorter@.contains(c.1)),
                forall|p: int, q: int|
                    0 <= p < i && 0 <= q < shorter.len() ==> table@.contains(
                        (#[trigger] longer@[p], #[trigger] shorter@[q]),
                    ),
                forall|q: int| 0 <= q < j ==> table@.contains((x, #[trigger] shorter@[q])),
            decreases shorter.len() - j,
        {
            let y = shorter[j];
            if !lists(table, x, y) {
                let ghost shorter_table = table@;
                table.push((x, y));
                proof {
                    assert forall|c: Constraint| #[trigger]
                        table@.contains(c) <==> c == (x, y) || shorter_table.contains(c) by {
                        vstd::seq_lib::lemma_seq_contains_after_push(shorter_table, (x, y), c);
                    }
                    assert(longer@.contains(x) && shorter@.contains(y));
                }
            }
            j += 1;
        }
        i += 1;
    }
    proof {
        assert forall|x: Lifetime, y: Lifetime|
            longer@.contains(x) && shorter@.contains(y) implies #[trigger] table@.contains(
            (x, y),
        ) by {
            let p = choose|p: int| 0 <= p < longer@.len() && longer@[p] == x;
            let q = choose|q: int| 0 <= q < shorter@.len() && shorter@[q] == y;
            assert(table@.contains((longer@[p], shorter@[q])));
        }
    }
}

impl LifetimeGraph {
    /// The table lists exactly the pairs of distinct lifetimes that the
    /// constraints order, and the constraints order no two lifetimes both ways.
    pub closed spec fn wf(&self) -> bool {
        &&& acyclic(self@)
        &&& forall|a: Lifetime, b: Lifetime|
            #![trigger self.closure@.contains((a, b))]
            #![trigger reaches(self@, a, b)]
            self.closure@.contains((a, b)) <==> a != b && reaches(self@, a, b)
    }

    /// `a` outlives `b`: a chain of accepted constraints leads from `a` to `b`.
    pub open spec fn spec_outlives(&self, a: Lifetime, b: Lifetime) -> bool {
        reaches(self@, a, b)
    }

    /// A graph without constraints, in which a lifetime outlives only itself.
    pub fn new() -> (g: LifetimeGraph)
        ensures
            g.wf(),
            g@ == Seq::<Constraint>::empty(),
    {
        let g = LifetimeGraph { closure: Vec::new(), constraints: Ghost(Seq::empty()) };
        proof {
            assert forall|a: Lifetime, b: Lifetime| #[trigger]
                reaches(g@, a, b) implies a == b by {
                lemma_reaches_empty(a, b);
            }
        }
        g
    }

    /// Whether `a` is known to last at least as long as `b`.
    #[verifier::when_used_as_spec(spec_outlives)]
    pub fn outlives(&self, a: Lifetime, b: Lifetime) -> (r: bool)
        requires
            self.wf(),
        ensures
            r == self.spec_outlives(a, b),
    {
        proof {
            lemma_reaches_reflexive(self@, a);
        }
        a == b || lists(&self.closure, a, b)
    }

    /// Records that `a` outlives `b`, unless that would make two distinct
    /// lifetimes outlive each other; then the graph stays as it was.
    pub fn add_constraint(&mut self, a: Lifetime, b: Lifetime) -> (r: Result<(), CycleError>)
        requires
            old(self).wf(),
        ensures
            final(self).wf(),
            match r {
                Ok(_) => !closes_cycle(old(self)@, a, b) && final(self)@ == old(self)@.push((a, b)),
                Err(e) => closes_cycle(old(self)@, a, b) && final(self)@ == old(self)@ && e == (
                CycleError { longer: a, shorter: b }),
            },
    {
        let ghost before = self@;
        let ghost after = before.push((a, b));
        if a == b {
            self.constraints = Ghost(after);
            proof {
                assert forall|x: Lifetime, y: Lifetime| #[trigger]
                    reaches(after, x, y) == reaches(before, x, y) by {
                    lemma_reaches_push(before, a, b, x, y);
                    if reaches(before, x, a) && reaches(before, b, y) {
                        lemma_reaches_transitive(before, x, a, y);
                    }
                }
            }
            return Ok(());
        }
        if self.outlives(b, a) {
            return Err(CycleError { longer: a, shorter: b });
        }
        let longer = longer_than(&self.closure, a);
        let shorter = shorter_than(&self.closure, b);
        join(&mut self.closure, &longer, &shorter);
        self.constraints = Ghost(after);
        proof {
            lemma_acyclic_push(before, a, b);
            lemma_reaches_reflexive(before, a);
            lemma_reaches_reflexive(before, b);
            assert forall|x: Lifetime, y: Lifetime|
                #![trigger self.closure@.contains((x, y))]
                #![trigger reaches(after, x, y)]
                self.closure@.contains((x, y)) <==> x != y && reaches(after, x, y) by {
                lemma_reaches_push(before, a, b, x, y);
                if reaches(before, x, a) && reaches(before, b, y) && x == y {
                    lemma_reaches_transitive(before, b, x, a);
                }
            }
        }
        Ok(())
    }

    /// The outlives relation of a graph is a partial order: reflexive,
    /// transitive, and never both ways between two distinct lifetimes.
    pub proof fn lemma_partial_order(&self, a: Lifetime, b: Lifetime, c: Lifetime)
        requires
            self.wf(),
        ensures
            self.spec_outlives(a, a),
            self.spec_outlives(a, b) && self.spec_outlives(b, c) ==> self.spec_outlives(a, c),
            self.spec_outlives(a, b) && self.spec_outlives(b, a) ==> a == b,
    {
        lemma_reaches_reflexive(self@, a);
        if self.spec_outlives(a, b) && self.spec_outlives(b, c) {
            lemma_reaches_transitive(self@, a, b, c);
        }
    }

    /// What a graph answers depends on the accepted constraints alone: two
    /// graphs that hold the same constraints answer every query alike, and
    /// so does one graph asked twice.
    pub proof fn lemma_answers_follow_constraints(&self, other: &LifetimeGraph, a: Lifetime, b: Lifetime)
        requires
            self@ == other@,
        ensures
            self.spec_outlives(a, b) == other.spec_outlives(a, b),
    {
    }
}

} // verus!
