//! The return_value operator.
use fest::mutation::builtin::return_value::ReturnValue;
use fest::mutation::mutator::{Mutation, MutationContext, Mutator};
use fest::parse::parse_module;

/// The mutations of a source.
fn find(source: &str) -> Vec<Mutation> {
    let ast = parse_module(source).expect("valid Python source");
    let ctx = MutationContext { file_path: "test.py", seed: None, floats: &[] };
    ReturnValue.find_mutations(source, &ast, &ctx)
}

/// `return expr` is replaced with `return None`.
#[test]
fn return_expr_to_none() {
    let source = "def calc():\n    return 42";
    let mutations = find(source);
    assert_eq!(mutations.len(), 1);
    assert_eq!(mutations[0].original_text, "42");
    assert_eq!(mutations[0].replacement_text, "None");
}

/// `return True` is swapped to `return False`.
#[test]
fn return_true_to_false() {
    let source = "def check():\n    return True";
    let mutations = find(source);
    assert_eq!(mutations.len(), 1);
    assert_eq!(mutations[0].original_text, "True");
    assert_eq!(mutations[0].replacement_text, "False");
}

/// `return False` is swapped to `return True`.
#[test]
fn return_false_to_true() {
    let source = "def check():\n    return False";
    let mutations = find(source);
    assert_eq!(mutations.len(), 1);
    assert_eq!(mutations[0].original_text, "False");
    assert_eq!(mutations[0].replacement_text, "True");
}

/// Bare `return` (no value) produces no mutations.
#[test]
fn bare_return_no_mutation() {
    let source = "def noop():\n    return";
    let mutations = find(source);
    assert!(mutations.is_empty());
}

/// Return inside nested if produces mutations.
#[test]
fn return_inside_if() {
    let source = "def calc():\n    if True:\n        return 1\n    return 2";
    let mutations = find(source);
    assert_eq!(mutations.len(), 2);
}
