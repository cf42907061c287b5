//! The augmented_assign operator.
use fest::mutation::builtin::augmented_assign::AugmentedAssign;
use fest::mutation::mutator::{Mutation, MutationContext, Mutator};
use fest::parse::parse_module;

/// The mutations of a source.
fn find(source: &str) -> Vec<Mutation> {
    let ast = parse_module(source).expect("valid Python source");
    let ctx = MutationContext { file_path: "test.py", seed: None, floats: &[] };
    AugmentedAssign.find_mutations(source, &ast, &ctx)
}

/// `+=` is swapped to `-=`.
#[test]
fn swap_add_assign() {
    let source = "x += 1";
    let mutations = find(source);
    assert_eq!(mutations.len(), 1);
    assert_eq!(mutations[0].original_text, "+=");
    assert_eq!(mutations[0].replacement_text, "-=");
}

/// `-=` is swapped to `+=`.
#[test]
fn swap_sub_assign() {
    let source = "x -= 1";
    let mutations = find(source);
    assert_eq!(mutations.len(), 1);
    assert_eq!(mutations[0].original_text, "-=");
    assert_eq!(mutations[0].replacement_text, "+=");
}

/// Byte offset of augmented assignment operator is correct.
#[test]
fn augmented_assign_byte_offset_is_correct() {
    let source = "x += 1";
    let mutations = find(source);
    assert_eq!(mutations.len(), 1);
    let expected_offset = source.find("+=").expect("has +=");
    assert_eq!(mutations[0].byte_offset, expected_offset);
    assert_eq!(mutations[0].byte_length, 2);
}

/// Byte offset with wider spacing.
#[test]
fn byte_offset_wider_spacing() {
    let source = "x  -=  1";
    let mutations = find(source);
    assert_eq!(mutations.len(), 1);
    let expected_offset = source.find("-=").expect("has -=");
    assert_eq!(mutations[0].byte_offset, expected_offset);
    assert_eq!(mutations[0].byte_length, 2);
}
