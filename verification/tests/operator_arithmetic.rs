//! The arithmetic operator.
use fest::mutation::builtin::arithmetic::ArithmeticOp;
use fest::mutation::mutator::{Mutation, MutationContext, Mutator};
use fest::parse::parse_module;

/// The mutations of a source.
fn find(source: &str) -> Vec<Mutation> {
    let ast = parse_module(source).expect("valid Python source");
    let ctx = MutationContext { file_path: "test.py", seed: None, floats: &[] };
    ArithmeticOp.find_mutations(source, &ast, &ctx)
}

/// Addition is swapped to subtraction.
#[test]
fn swap_add_to_sub() {
    let mutations = find("x = a + b");
    assert_eq!(mutations.len(), 1);
    assert_eq!(mutations[0].original_text, "+");
    assert_eq!(mutations[0].replacement_text, "-");
}

/// Subtraction is swapped to addition.
#[test]
fn swap_sub_to_add() {
    let mutations = find("x = a - b");
    assert_eq!(mutations.len(), 1);
    assert_eq!(mutations[0].original_text, "-");
    assert_eq!(mutations[0].replacement_text, "+");
}

/// Multiplication is swapped to division.
#[test]
fn swap_mult_to_div() {
    let mutations = find("x = a * b");
    assert_eq!(mutations.len(), 1);
    assert_eq!(mutations[0].original_text, "*");
    assert_eq!(mutations[0].replacement_text, "/");
}

/// Division is swapped to multiplication.
#[test]
fn swap_div_to_mult() {
    let mutations = find("x = a / b");
    assert_eq!(mutations.len(), 1);
    assert_eq!(mutations[0].original_text, "/");
    assert_eq!(mutations[0].replacement_text, "*");
}

/// Floor division is swapped to multiplication.
#[test]
fn swap_floordiv_to_mult() {
    let mutations = find("x = a // b");
    assert_eq!(mutations.len(), 1);
    assert_eq!(mutations[0].original_text, "//");
    assert_eq!(mutations[0].replacement_text, "*");
}

/// Modulo is swapped to multiplication.
#[test]
fn swap_mod_to_mult() {
    let mutations = find("x = a % b");
    assert_eq!(mutations.len(), 1);
    assert_eq!(mutations[0].original_text, "%");
    assert_eq!(mutations[0].replacement_text, "*");
}

/// Power is swapped to multiplication.
#[test]
fn swap_pow_to_mult() {
    let mutations = find("x = a ** b");
    assert_eq!(mutations.len(), 1);
    assert_eq!(mutations[0].original_text, "**");
    assert_eq!(mutations[0].replacement_text, "*");
}

/// Multiple operators in one expression produce multiple mutations.
#[test]
fn multiple_operators() {
    let mutations = find("x = a + b * c");
    assert_eq!(mutations.len(), 2);
}

/// No mutations for bitwise operators.
#[test]
fn no_mutation_for_bitwise() {
    let mutations = find("x = a & b");
    assert!(mutations.is_empty());
}
