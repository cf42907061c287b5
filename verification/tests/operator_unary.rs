//! The unary operator.
use fest::mutation::builtin::unary::UnaryOp;
use fest::mutation::mutator::{Mutation, MutationContext, Mutator};
use fest::parse::parse_module;

/// The mutations of a source.
fn find(source: &str) -> Vec<Mutation> {
    let ast = parse_module(source).expect("valid Python source");
    let ctx = MutationContext { file_path: "test.py", seed: None, floats: &[] };
    UnaryOp.find_mutations(source, &ast, &ctx)
}

/// `-x` produces 3 mutations: swap to `+`, swap to `~`, and removal.
#[test]
fn usub_swap_and_remove() {
    let mutations = find("x = -y");
    assert_eq!(mutations.len(), 3);
    assert_eq!(mutations[0].replacement_text, "+");
    assert_eq!(mutations[1].replacement_text, "~");
    assert_eq!(mutations[2].replacement_text, "");
}

/// `+x` produces 2 swap mutations (no removal since `+x` == `x`).
#[test]
fn uadd_swap_only() {
    let mutations = find("x = +y");
    assert_eq!(mutations.len(), 2);
    assert_eq!(mutations[0].replacement_text, "-");
    assert_eq!(mutations[1].replacement_text, "~");
}

/// `~x` produces 3 mutations: swap to `-`, swap to `+`, and removal.
#[test]
fn invert_swap_and_remove() {
    let mutations = find("x = ~y");
    assert_eq!(mutations.len(), 3);
    assert_eq!(mutations[0].replacement_text, "-");
    assert_eq!(mutations[1].replacement_text, "+");
    assert_eq!(mutations[2].replacement_text, "");
}

/// `not` is not handled by this mutator (handled by boolean_op).
#[test]
fn not_is_skipped() {
    let mutations = find("x = not y");
    assert!(mutations.is_empty());
}

/// Nested unary operators produce mutations for each level.
#[test]
fn nested_unary() {
    let mutations = find("x = -(-y)");
    // Outer `-`: 3 mutations (swap +, swap ~, remove)
    // Inner `-`: 3 mutations (swap +, swap ~, remove)
    assert_eq!(mutations.len(), 6);
}

/// Mutations are found inside if blocks.
#[test]
fn unary_inside_if_block() {
    let source = "if True:\n    x = -y";
    let mutations = find(source);
    assert_eq!(mutations.len(), 3);
}

/// Mutations are found inside try/except blocks.
#[test]
fn unary_inside_try_block() {
    let source = "try:\n    x = -y\nexcept:\n    z = +w";
    let mutations = find(source);
    // -y: 3 mutations (swap +, swap ~, remove), +w: 2 mutations (swap -, swap ~)
    assert_eq!(mutations.len(), 5);
}

/// Mutations are found inside expressions visited via visit_exprs.
#[test]
fn unary_inside_bool_op_values() {
    let source = "x = (-a) or (-b)";
    let mutations = find(source);
    assert_eq!(mutations.len(), 6);
}

/// Byte offset of unary operator swap mutation is correct.
#[test]
fn unary_swap_byte_offset() {
    let source = "x = -y";
    let mutations = find(source);
    // "-" is at byte offset 4
    let expected_offset = source.find('-').expect("has -");
    assert_eq!(mutations[0].byte_offset, expected_offset);
    assert_eq!(mutations[0].byte_length, 1);
}

/// Byte offset of removal mutation covers the entire prefix.
#[test]
fn removal_byte_offset() {
    let source = "x = -y";
    let mutations = find(source);
    // The removal mutation is the last one (index 2)
    let removal = &mutations[2];
    let expected_offset = source.find('-').expect("has -");
    assert_eq!(removal.byte_offset, expected_offset);
    // prefix is "-" (1 byte, no extra whitespace)
    assert_eq!(removal.byte_length, 1);
}
