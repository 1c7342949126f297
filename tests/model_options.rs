use move_abi::options::{
    ConfigError, ConfigField, ConfigValue, ModelBuilderOptions, NumRepresentation,
    SimplificationPass,
};

fn f(key: &str, value: ConfigValue) -> ConfigField {
    ConfigField { key: key.to_string(), value }
}

fn names(xs: &[&str]) -> ConfigValue {
    ConfigValue::Names(xs.iter().map(|x| x.to_string()).collect())
}

#[test]
fn representation_predicates() {
    assert!(NumRepresentation::Int.integer_representation());
    assert!(!NumRepresentation::Int.bv_representation());
    assert!(!NumRepresentation::Int.auto_representation());
    assert!(NumRepresentation::Bv.bv_representation());
    assert!(!NumRepresentation::Bv.integer_representation());
    assert!(NumRepresentation::Auto.auto_representation());
    assert!(!NumRepresentation::Auto.bv_representation());
    assert_eq!(NumRepresentation::default(), NumRepresentation::Int);
}

#[test]
fn defaults() {
    let o = ModelBuilderOptions::default();
    assert!(!o.ignore_pragma_opaque_internal_only);
    assert!(!o.ignore_pragma_opaque_when_possible);
    assert!(o.simplification_pipeline.is_empty());
    assert_eq!(o.num_repr, NumRepresentation::Int);
}

#[test]
fn empty_document_gives_defaults() {
    let o = ModelBuilderOptions::from_document(&vec![]).unwrap();
    assert!(!o.ignore_pragma_opaque_internal_only);
    assert!(o.simplification_pipeline.is_empty());
    assert_eq!(o.num_repr, NumRepresentation::Int);
}

#[test]
fn full_document_is_loaded() {
    let doc = vec![
        f("num_repr", ConfigValue::Name("Bv".to_string())),
        f("simplification_pipeline", names(&["Quantifier", "Inline", "Quantifier"])),
        f("ignore_pragma_opaque_when_possible", ConfigValue::Bool(true)),
        f("ignore_pragma_opaque_internal_only", ConfigValue::Bool(false)),
    ];
    let o = ModelBuilderOptions::from_document(&doc).unwrap();
    assert_eq!(o.num_repr, NumRepresentation::Bv);
    assert_eq!(
        o.simplification_pipeline,
        vec![SimplificationPass::Quantifier, SimplificationPass::Inline, SimplificationPass::Quantifier]
    );
    assert!(o.ignore_pragma_opaque_when_possible);
    assert!(!o.ignore_pragma_opaque_internal_only);
}

#[test]
fn unknown_field_is_rejected() {
    let doc = vec![
        f("num_repr", ConfigValue::Name("Auto".to_string())),
        f("no_such_option", ConfigValue::Bool(true)),
    ];
    match ModelBuilderOptions::from_document(&doc) {
        Err(ConfigError::UnknownField(k)) => assert_eq!(k, "no_such_option"),
        other => panic!("unexpected {:?}", other),
    }
}

#[test]
fn repeated_field_is_rejected() {
    let doc = vec![
        f("ignore_pragma_opaque_internal_only", ConfigValue::Bool(true)),
        f("ignore_pragma_opaque_internal_only", ConfigValue::Bool(true)),
    ];
    match ModelBuilderOptions::from_document(&doc) {
        Err(ConfigError::DuplicateField(k)) => assert_eq!(k, "ignore_pragma_opaque_internal_only"),
        other => panic!("unexpected {:?}", other),
    }
}

#[test]
fn ill_typed_values_are_rejected() {
    let bad = vec![
        f("num_repr", ConfigValue::Name("Float".to_string())),
        f("num_repr", ConfigValue::Bool(true)),
        f("simplification_pipeline", names(&["Inline", "Nope"])),
        f("ignore_pragma_opaque_when_possible", ConfigValue::Other),
    ];
    for field in bad {
        let key = field.key.clone();
        match ModelBuilderOptions::from_document(&vec![field]) {
            Err(ConfigError::InvalidValue(k)) => assert_eq!(k, key),
            other => panic!("unexpected {:?}", other),
        }
    }
}

#[test]
fn opaque_relaxation_never_overrides_a_marked_property() {
    let mut o = ModelBuilderOptions::default();
    assert!(!o.may_ignore_opaque(true, false));
    o.ignore_pragma_opaque_internal_only = true;
    assert!(o.may_ignore_opaque(true, false));
    assert!(!o.may_ignore_opaque(false, false));
    assert!(!o.may_ignore_opaque(true, true));
    o.ignore_pragma_opaque_when_possible = true;
    assert!(o.may_ignore_opaque(false, false));
    assert!(!o.may_ignore_opaque(false, true));
}
