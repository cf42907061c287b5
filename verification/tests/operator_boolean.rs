//! The boolean operator.
use fest::mutation::builtin::boolean::BooleanOp;
use fest::mutation::mutator::{Mutation, MutationContext, Mutator};
use fest::parse::parse_module;

/// The mutations of a source.
fn find(source: &str) -> Vec<Mutation> {
    let ast = parse_module(source).expect("valid Python source");
    let ctx = MutationContext { file_path: "test.py", seed: None, floats: &[] };
    BooleanOp.find_mutations(source, &ast, &ctx)
}

/// `and` is swapped to `or`.
#[test]
fn swap_and_to_or() {
    let mutations = find("x = a and b");
    assert_eq!(mutations.len(), 1);
    assert_eq!(mutations[0].original_text, "and");
    assert_eq!(mutations[0].replacement_text, "or");
}

/// `or` is swapped to `and`.
#[test]
fn swap_or_to_and() {
    let mutations = find("x = a or b");
    assert_eq!(mutations.len(), 1);
    assert_eq!(mutations[0].original_text, "or");
    assert_eq!(mutations[0].replacement_text, "and");
}

/// `not x` removes the `not` prefix.
#[test]
fn remove_not_prefix() {
    let mutations = find("x = not y");
    assert_eq!(mutations.len(), 1);
    assert_eq!(mutations[0].original_text, "not ");
    assert_eq!(mutations[0].replacement_text, "");
}

/// Multiple `and` operators in a chained expression.
#[test]
fn chained_and() {
    let mutations = find("x = a and b and c");
    assert_eq!(mutations.len(), 2);
}

/// Mixed `and` + `not` produces two mutations.
#[test]
fn mixed_and_not() {
    let mutations = find("x = not a and b");
    assert_eq!(mutations.len(), 2);
}

/// Mutations are found inside if blocks.
#[test]
fn boolean_inside_if_block() {
    let source = "if True:\n    x = a and b";
    let mutations = find(source);
    assert!(!mutations.is_empty());
}

/// Mutations are found inside try/except blocks.
#[test]
fn boolean_inside_try_block() {
    let source = "try:\n    x = a and b\nexcept:\n    y = c or d";
    let mutations = find(source);
    assert_eq!(mutations.len(), 2);
}

/// Byte offset of `and` operator is correct.
#[test]
fn byte_offset_and_length() {
    let source = "x = a and b";
    let mutations = find(source);
    assert_eq!(mutations.len(), 1);
    let expected_offset = source.find("and").expect("has and");
    assert_eq!(mutations[0].byte_offset, expected_offset);
    assert_eq!(mutations[0].byte_length, 3);
}

/// Byte offset of `or` operator is correct.
#[test]
fn byte_offset_or() {
    let source = "x = a or b";
    let mutations = find(source);
    assert_eq!(mutations.len(), 1);
    let expected_offset = source.find(" or ").expect("has or") + 1;
    assert_eq!(mutations[0].byte_offset, expected_offset);
    assert_eq!(mutations[0].byte_length, 2);
}
