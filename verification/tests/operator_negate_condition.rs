//! The negate_condition operator.
use fest::mutation::builtin::negate_condition::NegateCondition;
use fest::mutation::mutator::{Mutation, MutationContext, Mutator};
use fest::parse::parse_module;

/// The mutations of a source.
fn find(source: &str) -> Vec<Mutation> {
    let ast = parse_module(source).expect("valid Python source");
    let ctx = MutationContext { file_path: "test.py", seed: None, floats: &[] };
    NegateCondition.find_mutations(source, &ast, &ctx)
}

/// An `if` condition is negated.
#[test]
fn negate_if_condition() {
    let source = "if x:\n    pass";
    let mutations = find(source);
    assert_eq!(mutations.len(), 1);
    assert_eq!(mutations[0].original_text, "x");
    assert_eq!(mutations[0].replacement_text, "not (x)");
}

/// A `while` condition is negated.
#[test]
fn negate_while_condition() {
    let source = "while running:\n    pass";
    let mutations = find(source);
    assert_eq!(mutations.len(), 1);
    assert_eq!(mutations[0].original_text, "running");
    assert_eq!(mutations[0].replacement_text, "not (running)");
}

/// An `elif` condition is also negated.
#[test]
fn negate_elif_condition() {
    let source = "if x:\n    pass\nelif y:\n    pass";
    let mutations = find(source);
    assert_eq!(mutations.len(), 2);
    assert_eq!(mutations[0].original_text, "x");
    assert_eq!(mutations[1].original_text, "y");
}

/// `else` clause (no condition) does not produce a mutation.
#[test]
fn no_mutation_for_else() {
    let source = "if x:\n    pass\nelse:\n    pass";
    let mutations = find(source);
    assert_eq!(mutations.len(), 1);
}

/// Nested `if` inside function produces mutations.
#[test]
fn nested_if_in_function() {
    let source = "def func():\n    if a:\n        pass";
    let mutations = find(source);
    assert_eq!(mutations.len(), 1);
    assert_eq!(mutations[0].original_text, "a");
}
