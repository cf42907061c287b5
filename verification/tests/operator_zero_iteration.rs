//! The zero_iteration operator.
use fest::mutation::builtin::zero_iteration::ZeroIterationLoop;
use fest::mutation::mutator::{Mutation, MutationContext, Mutator};
use fest::parse::parse_module;

/// The mutations of a source.
fn find(source: &str) -> Vec<Mutation> {
    let ast = parse_module(source).expect("valid Python source");
    let ctx = MutationContext { file_path: "test.py", seed: None, floats: &[] };
    ZeroIterationLoop.find_mutations(source, &ast, &ctx)
}

/// `for` loop iter is replaced with `[]`.
#[test]
fn for_loop_iter_replaced() {
    let source = "for x in items:\n    process(x)";
    let mutations = find(source);
    assert_eq!(mutations.len(), 1);
    assert_eq!(mutations[0].original_text, "items");
    assert_eq!(mutations[0].replacement_text, "[]");
}

/// `while` loop condition is replaced with `False`.
#[test]
fn while_loop_condition_replaced() {
    let source = "while True:\n    do_work()";
    let mutations = find(source);
    assert_eq!(mutations.len(), 1);
    assert_eq!(mutations[0].original_text, "True");
    assert_eq!(mutations[0].replacement_text, "False");
}

/// Nested loops produce one mutation per loop.
#[test]
fn nested_loops() {
    let source = "for x in items:\n    for y in other:\n        pass";
    let mutations = find(source);
    assert_eq!(mutations.len(), 2);
    assert_eq!(mutations[0].replacement_text, "[]");
    assert_eq!(mutations[1].replacement_text, "[]");
}

/// Byte offset of for loop iter mutation is correct.
#[test]
fn for_iter_byte_offset() {
    let source = "for x in items:\n    process(x)";
    let mutations = find(source);
    assert_eq!(mutations.len(), 1);
    let expected_offset = source.find("items").expect("has items");
    assert_eq!(mutations[0].byte_offset, expected_offset);
    assert_eq!(mutations[0].byte_length, "items".len());
}

/// Byte offset of while loop condition mutation is correct.
#[test]
fn while_condition_byte_offset() {
    let source = "while True:\n    do_work()";
    let mutations = find(source);
    assert_eq!(mutations.len(), 1);
    let expected_offset = source.find("True").expect("has True");
    assert_eq!(mutations[0].byte_offset, expected_offset);
    assert_eq!(mutations[0].byte_length, "True".len());
}
