use lifetime_engine::graph::LifetimeGraph;
use lifetime_engine::order::Lifetime;
use lifetime_engine::trait_lifetime::{
    get_reader, CallError, CapabilityDeclaration, DefinitionError, MethodSignature, Reader,
    ReturnLifetime, Text, UnresolvedLifetimeError,
};

fn reader_declaration(parameter: Option<Lifetime>) -> CapabilityDeclaration {
    CapabilityDeclaration {
        parameter,
        methods: vec![MethodSignature { returns: ReturnLifetime::Parameter }],
    }
}

fn own_and_shorter(a: Lifetime, s: Lifetime) -> CapabilityDeclaration {
    CapabilityDeclaration {
        parameter: Some(a),
        methods: vec![
            MethodSignature { returns: ReturnLifetime::Parameter },
            MethodSignature { returns: ReturnLifetime::Shorter(s) },
        ],
    }
}

#[test]
fn call_yields_the_lifetime_of_the_capability() {
    let a = Lifetime::new(1);
    let b = Lifetime::new(2);
    let mut g = LifetimeGraph::new();
    assert_eq!(g.add_constraint(a, b), Ok(()));
    let d = reader_declaration(Some(a));
    assert!(d.is_well_defined(&g));
    assert_eq!(d.resolve_call(&g, 0, b), Ok(a));
    assert_ne!(d.resolve_call(&g, 0, b), Ok(b));
}

#[test]
fn receiver_does_not_change_the_result() {
    let a = Lifetime::new(1);
    let g = LifetimeGraph::new();
    let d = reader_declaration(Some(a));
    for receiver in 0..4u64 {
        assert_eq!(d.resolve_call(&g, 0, Lifetime::new(receiver)), Ok(a));
    }
}

#[test]
fn call_without_parameter_is_unresolved() {
    let b = Lifetime::new(2);
    let g = LifetimeGraph::new();
    let d = reader_declaration(None);
    assert_eq!(
        d.resolve_call(&g, 0, b),
        Err(CallError::Unresolved(UnresolvedLifetimeError { method: 0, receiver: b }))
    );
}

#[test]
fn method_with_its_own_shorter_lifetime() {
    let a = Lifetime::new(1);
    let s = Lifetime::new(5);
    let mut g = LifetimeGraph::new();
    assert_eq!(g.add_constraint(a, s), Ok(()));
    let d = own_and_shorter(a, s);
    assert!(d.is_well_defined(&g));
    assert_eq!(d.resolve_call(&g, 0, Lifetime::new(2)), Ok(a));
    assert_eq!(d.resolve_call(&g, 1, Lifetime::new(2)), Ok(s));
}

#[test]
fn shorter_lifetime_bound_through_a_chain() {
    let a = Lifetime::new(1);
    let m = Lifetime::new(3);
    let s = Lifetime::new(5);
    let mut g = LifetimeGraph::new();
    assert_eq!(g.add_constraint(a, m), Ok(()));
    assert_eq!(g.add_constraint(m, s), Ok(()));
    let d = own_and_shorter(a, s);
    assert!(d.is_well_defined(&g));
    assert_eq!(d.resolve_call(&g, 1, Lifetime::new(2)), Ok(s));
}

#[test]
fn unbound_lifetime_is_a_definition_error() {
    let a = Lifetime::new(1);
    let s = Lifetime::new(5);
    let g = LifetimeGraph::new();
    let d = own_and_shorter(a, s);
    assert!(!d.is_well_defined(&g));
    let refused = Err(CallError::Definition(DefinitionError { method: 1, lifetime: s }));
    assert_eq!(d.resolve_call(&g, 1, Lifetime::new(2)), refused);
}

#[test]
fn no_method_of_an_ill_defined_declaration_resolves() {
    let a = Lifetime::new(1);
    let s = Lifetime::new(5);
    let g = LifetimeGraph::new();
    let d = own_and_shorter(a, s);
    let refused = Err(CallError::Definition(DefinitionError { method: 1, lifetime: s }));
    assert_eq!(d.resolve_call(&g, 0, Lifetime::new(2)), refused);
    assert_eq!(d.resolve_call(&g, 0, a), refused);
}

#[test]
fn definition_error_names_the_first_escaping_method() {
    let a = Lifetime::new(1);
    let bound = Lifetime::new(4);
    let first = Lifetime::new(5);
    let second = Lifetime::new(6);
    let mut g = LifetimeGraph::new();
    assert_eq!(g.add_constraint(a, bound), Ok(()));
    let d = CapabilityDeclaration {
        parameter: Some(a),
        methods: vec![
            MethodSignature { returns: ReturnLifetime::Shorter(bound) },
            MethodSignature { returns: ReturnLifetime::Parameter },
            MethodSignature { returns: ReturnLifetime::Shorter(first) },
            MethodSignature { returns: ReturnLifetime::Shorter(second) },
        ],
    };
    for method in 0..4usize {
        assert_eq!(
            d.resolve_call(&g, method, Lifetime::new(2)),
            Err(CallError::Definition(DefinitionError { method: 2, lifetime: first }))
        );
    }
}

#[test]
fn declaration_becomes_well_defined_with_the_constraint() {
    let a = Lifetime::new(1);
    let s = Lifetime::new(5);
    let mut g = LifetimeGraph::new();
    let d = own_and_shorter(a, s);
    assert!(!d.is_well_defined(&g));
    assert!(d.resolve_call(&g, 1, Lifetime::new(2)).is_err());
    assert_eq!(g.add_constraint(a, s), Ok(()));
    assert!(d.is_well_defined(&g));
    assert_eq!(d.resolve_call(&g, 1, Lifetime::new(2)), Ok(s));
}

#[test]
fn shorter_lifetime_must_differ_from_the_parameter() {
    let a = Lifetime::new(1);
    let g = LifetimeGraph::new();
    let d = CapabilityDeclaration {
        parameter: Some(a),
        methods: vec![MethodSignature { returns: ReturnLifetime::Shorter(a) }],
    };
    assert!(!d.is_well_defined(&g));
    assert_eq!(
        d.resolve_call(&g, 0, Lifetime::new(2)),
        Err(CallError::Definition(DefinitionError { method: 0, lifetime: a }))
    );
}

#[test]
fn shorter_lifetime_must_not_be_longer() {
    let a = Lifetime::new(1);
    let l = Lifetime::new(5);
    let mut g = LifetimeGraph::new();
    assert_eq!(g.add_constraint(l, a), Ok(()));
    let d = CapabilityDeclaration {
        parameter: Some(a),
        methods: vec![MethodSignature { returns: ReturnLifetime::Shorter(l) }],
    };
    assert!(!d.is_well_defined(&g));
    assert_eq!(
        d.resolve_call(&g, 0, Lifetime::new(2)),
        Err(CallError::Definition(DefinitionError { method: 0, lifetime: l }))
    );
}

#[test]
fn missing_parameter_is_reported_before_anything_else() {
    let b = Lifetime::new(2);
    let g = LifetimeGraph::new();
    let d = CapabilityDeclaration {
        parameter: None,
        methods: vec![
            MethodSignature { returns: ReturnLifetime::Parameter },
            MethodSignature { returns: ReturnLifetime::Shorter(Lifetime::new(5)) },
        ],
    };
    assert_eq!(
        d.resolve_call(&g, 1, b),
        Err(CallError::Unresolved(UnresolvedLifetimeError { method: 1, receiver: b }))
    );
}

#[test]
fn declaration_without_parameter_or_methods_is_ill_defined() {
    let g = LifetimeGraph::new();
    assert!(!reader_declaration(None).is_well_defined(&g));
    let empty = CapabilityDeclaration { parameter: Some(Lifetime::new(1)), methods: vec![] };
    assert!(!empty.is_well_defined(&g));
    assert!(reader_declaration(Some(Lifetime::new(1))).is_well_defined(&g));
}

#[test]
fn same_call_gives_same_verdict() {
    let g = LifetimeGraph::new();
    let d = reader_declaration(Some(Lifetime::new(1)));
    let n = reader_declaration(None);
    let ill = own_and_shorter(Lifetime::new(1), Lifetime::new(5));
    let b = Lifetime::new(2);
    assert_eq!(d.resolve_call(&g, 0, b), d.resolve_call(&g, 0, b));
    assert_eq!(n.resolve_call(&g, 0, b), n.resolve_call(&g, 0, b));
    assert_eq!(ill.resolve_call(&g, 1, b), ill.resolve_call(&g, 1, b));
}

#[test]
fn text_reads_its_content() {
    let text = Text { content: "Hello, Rust!" };
    assert_eq!(text.read(), "Hello, Rust!");
}

#[test]
fn get_reader_reads_through_the_trait_object() {
    let text = Text { content: "Hello, Rust!" };
    assert_eq!(get_reader(&text), "Hello, Rust!");
}

#[test]
fn text_outlives_the_reader_that_handed_it_out() {
    let content = String::from("kept");
    let result = {
        let text = Text { content: &content };
        get_reader(&text)
    };
    assert_eq!(result, "kept");
}
