//! The registry of operators.
use fest::config::types::MutatorConfig;
use fest::mutation::builtin::all_builtins;
use fest::mutation::builtin::arithmetic::ArithmeticOp;
use fest::mutation::builtin::comparison::ComparisonOp;
use fest::mutation::mutator::Mutation;
use fest::mutation::registry::{build_registry, MutatorRegistry};

/// `Mutation` struct can be constructed and compared.
#[test]
fn mutation_construction_and_equality() {
    let mutation_a = Mutation {
        byte_offset: 10,
        byte_length: 3,
        original_text: "and".to_owned(),
        replacement_text: "or".to_owned(),
    };

    let mutation_b = mutation_a.clone();
    assert_eq!(mutation_a, mutation_b);
}

/// Two different `Mutation` values are not equal.
#[test]
fn mutation_inequality() {
    let mutation_a = Mutation {
        byte_offset: 0,
        byte_length: 1,
        original_text: "+".to_owned(),
        replacement_text: "-".to_owned(),
    };

    let mutation_b = Mutation {
        byte_offset: 0,
        byte_length: 1,
        original_text: "+".to_owned(),
        replacement_text: "*".to_owned(),
    };

    assert_ne!(mutation_a, mutation_b);
}

/// An empty `MutatorRegistry` reports length 0 and `is_empty`.
#[test]
fn empty_registry() {
    let registry = MutatorRegistry::new();
    assert!(registry.is_empty());
    assert_eq!(registry.len(), 0);
    assert_eq!(registry.iter().len(), 0);
}

/// Registering mutators increments the length and they can be iterated.
#[test]
fn register_and_iterate() {
    let mut registry = MutatorRegistry::new();

    registry.register(Box::new(ArithmeticOp));
    registry.register(Box::new(ComparisonOp));

    assert_eq!(registry.len(), 2);
    assert!(!registry.is_empty());

    let names: Vec<&str> = registry.iter().iter().map(|m| m.name()).collect();
    assert_eq!(names, vec!["arithmetic_op", "comparison_op"]);
}

/// `MutatorRegistry::default` produces an empty registry.
#[test]
fn default_registry_is_empty() {
    let registry = MutatorRegistry::default();
    assert!(registry.is_empty());
}

/// The factory returns exactly 8 built-in mutators.
#[test]
fn all_builtins_count() {
    let builtins = all_builtins();
    assert_eq!(builtins.len(), 8);
}

/// Each built-in mutator has a unique name.
#[test]
fn all_builtins_unique_names() {
    let builtins = all_builtins();
    let mut names: Vec<&str> = builtins.iter().map(|m| m.name()).collect();
    names.sort_unstable();
    names.dedup();
    assert_eq!(names.len(), 8);
}

/// The default configuration leaves out the operators that are opt-in.
#[test]
fn default_registry_names() {
    let registry = build_registry(&MutatorConfig::default());
    let names: Vec<&str> = registry.iter().iter().map(|m| m.name()).collect();
    assert_eq!(names.len(), 14);
    assert!(!names.contains(&"statement_deletion"));
    assert!(!names.contains(&"variable_replace"));
    assert!(!names.contains(&"variable_insert"));
}
