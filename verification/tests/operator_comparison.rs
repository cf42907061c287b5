//! The comparison operator.
use fest::mutation::builtin::comparison::ComparisonOp;
use fest::mutation::mutator::{Mutation, MutationContext, Mutator};
use fest::parse::parse_module;

/// The mutations of a source.
fn find(source: &str) -> Vec<Mutation> {
    let ast = parse_module(source).expect("valid Python source");
    let ctx = MutationContext { file_path: "test.py", seed: None, floats: &[] };
    ComparisonOp.find_mutations(source, &ast, &ctx)
}

/// `==` is swapped to `!=`.
#[test]
fn swap_eq_to_ne() {
    let mutations = find("x = a == b");
    assert_eq!(mutations.len(), 1);
    assert_eq!(mutations[0].original_text, "==");
    assert_eq!(mutations[0].replacement_text, "!=");
}

/// `!=` is swapped to `==`.
#[test]
fn swap_ne_to_eq() {
    let mutations = find("x = a != b");
    assert_eq!(mutations.len(), 1);
    assert_eq!(mutations[0].original_text, "!=");
    assert_eq!(mutations[0].replacement_text, "==");
}

/// `<` is swapped to `>=`.
#[test]
fn swap_lt_to_gte() {
    let mutations = find("x = a < b");
    assert_eq!(mutations.len(), 1);
    assert_eq!(mutations[0].original_text, "<");
    assert_eq!(mutations[0].replacement_text, ">=");
}

/// `>` is swapped to `<=`.
#[test]
fn swap_gt_to_lte() {
    let mutations = find("x = a > b");
    assert_eq!(mutations.len(), 1);
    assert_eq!(mutations[0].original_text, ">");
    assert_eq!(mutations[0].replacement_text, "<=");
}

/// `is` is swapped to `is not`.
#[test]
fn swap_is_to_is_not() {
    let mutations = find("x = a is b");
    assert_eq!(mutations.len(), 1);
    assert_eq!(mutations[0].original_text, "is");
    assert_eq!(mutations[0].replacement_text, "is not");
}

/// `is not` is swapped to `is`.
#[test]
fn swap_is_not_to_is() {
    let mutations = find("x = a is not b");
    assert_eq!(mutations.len(), 1);
    assert_eq!(mutations[0].original_text, "is not");
    assert_eq!(mutations[0].replacement_text, "is");
}

/// `in` is swapped to `not in`.
#[test]
fn swap_in_to_not_in() {
    let mutations = find("x = a in b");
    assert_eq!(mutations.len(), 1);
    assert_eq!(mutations[0].original_text, "in");
    assert_eq!(mutations[0].replacement_text, "not in");
}

/// `not in` is swapped to `in`.
#[test]
fn swap_not_in_to_in() {
    let mutations = find("x = a not in b");
    assert_eq!(mutations.len(), 1);
    assert_eq!(mutations[0].original_text, "not in");
    assert_eq!(mutations[0].replacement_text, "in");
}

/// Chained comparisons produce multiple mutations.
#[test]
fn chained_comparison() {
    let mutations = find("x = a < b < c");
    assert_eq!(mutations.len(), 2);
}

/// Mutations are found inside if blocks.
#[test]
fn comparison_inside_if_block() {
    let source = "if True:\n    x = a == b";
    let mutations = find(source);
    assert!(!mutations.is_empty());
}

/// Mutations are found inside try/except blocks.
#[test]
fn comparison_inside_try_block() {
    let source = "try:\n    x = a == b\nexcept:\n    y = c != d";
    let mutations = find(source);
    assert_eq!(mutations.len(), 2);
}

/// Mutations are found inside expressions visited via visit_exprs (e.g. bool_op values).
#[test]
fn comparison_inside_bool_op_values() {
    let source = "x = (a == b) or (c != d)";
    let mutations = find(source);
    assert_eq!(mutations.len(), 2);
}

/// Byte offset of `==` operator is correct.
#[test]
fn comparison_byte_offset_is_correct() {
    let source = "x = a == b";
    let mutations = find(source);
    assert_eq!(mutations.len(), 1);
    let expected_offset = source.find("==").expect("has ==");
    assert_eq!(mutations[0].byte_offset, expected_offset);
    assert_eq!(mutations[0].byte_length, 2);
}

/// find_op_in_source returns correct offset for operator not at start of region.
#[test]
fn find_op_in_source_offset() {
    let source = "x = a  !=  b";
    let mutations = find(source);
    assert_eq!(mutations.len(), 1);
    let expected_offset = source.find("!=").expect("has !=");
    assert_eq!(mutations[0].byte_offset, expected_offset);
    assert_eq!(mutations[0].byte_length, 2);
}
