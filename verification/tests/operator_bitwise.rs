//! The bitwise operator.
use fest::mutation::builtin::bitwise::BitwiseOp;
use fest::mutation::mutator::{Mutation, MutationContext, Mutator};
use fest::parse::parse_module;

/// The mutations of a source.
fn find(source: &str) -> Vec<Mutation> {
    let ast = parse_module(source).expect("valid Python source");
    let ctx = MutationContext { file_path: "test.py", seed: None, floats: &[] };
    BitwiseOp.find_mutations(source, &ast, &ctx)
}

/// `&` is swapped to `|`.
#[test]
fn swap_bitand_to_bitor() {
    let source = "x = a & b";
    let mutations = find(source);
    assert_eq!(mutations.len(), 1);
    assert_eq!(mutations[0].original_text, "&");
    assert_eq!(mutations[0].replacement_text, "|");
}

/// `|` is swapped to `&`.
#[test]
fn swap_bitor_to_bitand() {
    let source = "x = a | b";
    let mutations = find(source);
    assert_eq!(mutations.len(), 1);
    assert_eq!(mutations[0].original_text, "|");
    assert_eq!(mutations[0].replacement_text, "&");
}

/// `<<` is swapped to `>>`.
#[test]
fn swap_lshift_to_rshift() {
    let source = "x = a << b";
    let mutations = find(source);
    assert_eq!(mutations.len(), 1);
    assert_eq!(mutations[0].original_text, "<<");
    assert_eq!(mutations[0].replacement_text, ">>");
}

/// Arithmetic operators are not mutated by this mutator.
#[test]
fn no_mutation_for_arithmetic() {
    let source = "x = a + b";
    let mutations = find(source);
    assert!(mutations.is_empty());
}

/// Byte offset of bitwise operator is correct.
#[test]
fn bitwise_byte_offset_is_correct() {
    let source = "x = a & b";
    let mutations = find(source);
    assert_eq!(mutations.len(), 1);
    let expected_offset = source.find('&').expect("has &");
    assert_eq!(mutations[0].byte_offset, expected_offset);
    assert_eq!(mutations[0].byte_length, 1);
}

/// Byte offset for multi-char bitwise operator.
#[test]
fn byte_offset_lshift() {
    let source = "x = a << b";
    let mutations = find(source);
    assert_eq!(mutations.len(), 1);
    let expected_offset = source.find("<<").expect("has <<");
    assert_eq!(mutations[0].byte_offset, expected_offset);
    assert_eq!(mutations[0].byte_length, 2);
}
