use lifetime_engine::graph::LifetimeGraph;
use lifetime_engine::order::Lifetime;
use lifetime_engine::reference::{Mutability, Signature};
use lifetime_engine::variance::{check_substitution, Rule, VarianceViolation};

fn shared(id: u64) -> Signature {
    Signature { mutability: Mutability::Shared, lifetime: Lifetime::new(id) }
}

fn exclusive(id: u64) -> Signature {
    Signature { mutability: Mutability::Exclusive, lifetime: Lifetime::new(id) }
}

fn long_outlives_short() -> LifetimeGraph {
    let mut g = LifetimeGraph::new();
    assert_eq!(g.add_constraint(Lifetime::new(1), Lifetime::new(2)), Ok(()));
    g
}

#[test]
fn shared_reference_shortens() {
    let g = long_outlives_short();
    assert_eq!(check_substitution(&g, shared(1), shared(2)), Ok(()));
}

#[test]
fn shared_reference_does_not_lengthen() {
    let g = long_outlives_short();
    assert_eq!(
        check_substitution(&g, shared(2), shared(1)),
        Err(VarianceViolation {
            rule: Rule::SharedToShared,
            offered: shared(2),
            expected: shared(1),
        })
    );
}

#[test]
fn shared_reference_stands_in_for_itself() {
    let g = LifetimeGraph::new();
    assert_eq!(check_substitution(&g, shared(5), shared(5)), Ok(()));
}

#[test]
fn shared_reference_shortens_along_a_chain() {
    let mut g = long_outlives_short();
    assert_eq!(g.add_constraint(Lifetime::new(2), Lifetime::new(3)), Ok(()));
    assert_eq!(check_substitution(&g, shared(1), shared(3)), Ok(()));
    assert!(check_substitution(&g, shared(3), shared(1)).is_err());
}

#[test]
fn exclusive_reference_is_invariant() {
    let g = long_outlives_short();
    assert_eq!(
        check_substitution(&g, exclusive(1), exclusive(2)),
        Err(VarianceViolation {
            rule: Rule::ExclusiveToExclusive,
            offered: exclusive(1),
            expected: exclusive(2),
        })
    );
    assert_eq!(
        check_substitution(&g, exclusive(2), exclusive(1)),
        Err(VarianceViolation {
            rule: Rule::ExclusiveToExclusive,
            offered: exclusive(2),
            expected: exclusive(1),
        })
    );
}

#[test]
fn exclusive_reference_stands_in_for_itself() {
    let g = long_outlives_short();
    assert_eq!(check_substitution(&g, exclusive(1), exclusive(1)), Ok(()));
    assert_eq!(check_substitution(&g, exclusive(9), exclusive(9)), Ok(()));
}

#[test]
fn exclusive_reference_reads_as_shared() {
    let g = long_outlives_short();
    assert_eq!(check_substitution(&g, exclusive(1), shared(2)), Ok(()));
    assert_eq!(check_substitution(&g, exclusive(1), shared(1)), Ok(()));
    assert_eq!(
        check_substitution(&g, exclusive(2), shared(1)),
        Err(VarianceViolation {
            rule: Rule::ExclusiveToShared,
            offered: exclusive(2),
            expected: shared(1),
        })
    );
}

#[test]
fn shared_reference_never_becomes_exclusive() {
    let g = long_outlives_short();
    for (from, to) in [(1, 2), (2, 1), (1, 1)] {
        assert_eq!(
            check_substitution(&g, shared(from), exclusive(to)),
            Err(VarianceViolation {
                rule: Rule::SharedToExclusive,
                offered: shared(from),
                expected: exclusive(to),
            })
        );
    }
}

#[test]
fn same_substitution_gives_same_verdict() {
    let g = long_outlives_short();
    let all = [shared(1), shared(2), exclusive(1), exclusive(2)];
    for offered in all {
        for expected in all {
            assert_eq!(
                check_substitution(&g, offered, expected),
                check_substitution(&g, offered, expected)
            );
        }
    }
}
