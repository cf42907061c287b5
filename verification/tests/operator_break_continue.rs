//! The break_continue operator.
use fest::mutation::builtin::break_continue::BreakContinue;
use fest::mutation::mutator::{Mutation, MutationContext, Mutator};
use fest::parse::parse_module;

/// The mutations of a source.
fn find(source: &str) -> Vec<Mutation> {
    let ast = parse_module(source).expect("valid Python source");
    let ctx = MutationContext { file_path: "test.py", seed: None, floats: &[] };
    BreakContinue.find_mutations(source, &ast, &ctx)
}

/// `break` is swapped to `continue`.
#[test]
fn swap_break_to_continue() {
    let source = "for x in y:\n    break";
    let mutations = find(source);
    assert_eq!(mutations.len(), 1);
    assert_eq!(mutations[0].original_text, "break");
    assert_eq!(mutations[0].replacement_text, "continue");
}

/// `continue` is swapped to `break`.
#[test]
fn swap_continue_to_break() {
    let source = "for x in y:\n    continue";
    let mutations = find(source);
    assert_eq!(mutations.len(), 1);
    assert_eq!(mutations[0].original_text, "continue");
    assert_eq!(mutations[0].replacement_text, "break");
}

/// Break inside if block within a loop is found.
#[test]
fn break_inside_if_block() {
    let source = "for x in y:\n    if True:\n        break";
    let mutations = find(source);
    assert_eq!(mutations.len(), 1);
}

/// Break inside try/except within a loop is found.
#[test]
fn break_inside_try_block() {
    let source = "for x in y:\n    try:\n        break\n    except:\n        continue";
    let mutations = find(source);
    assert_eq!(mutations.len(), 2);
}

/// Byte offset and length of break swap mutation are correct.
#[test]
fn break_continue_swap_byte_offset() {
    let source = "for x in y:\n    break";
    let mutations = find(source);
    assert_eq!(mutations.len(), 1);
    let expected_offset = source.find("break").expect("has break");
    assert_eq!(mutations[0].byte_offset, expected_offset);
    assert_eq!(mutations[0].byte_length, "break".len());
}
