//! The remove_super operator.
use fest::mutation::builtin::remove_super::RemoveSuperCall;
use fest::mutation::mutator::{Mutation, MutationContext, Mutator};
use fest::parse::parse_module;

/// The mutations of a source.
fn find(source: &str) -> Vec<Mutation> {
    let ast = parse_module(source).expect("valid Python source");
    let ctx = MutationContext { file_path: "test.py", seed: None, floats: &[] };
    RemoveSuperCall.find_mutations(source, &ast, &ctx)
}

/// `super().__init__()` is replaced with `pass`.
#[test]
fn remove_super_init() {
    let source = "class A(B):\n    def __init__(self):\n        super().__init__()";
    let mutations = find(source);
    assert_eq!(mutations.len(), 1);
    assert_eq!(mutations[0].replacement_text, "pass");
}

/// Regular function calls are not affected.
#[test]
fn regular_call_not_affected() {
    let source = "class A:\n    def method(self):\n        other()";
    let mutations = find(source);
    assert!(mutations.is_empty());
}

/// Byte offset and length of super call mutation are correct.
#[test]
fn super_call_byte_offset() {
    let source = "class A(B):\n    def __init__(self):\n        super().__init__()";
    let mutations = find(source);
    assert_eq!(mutations.len(), 1);
    let expected_offset = source.find("super().__init__()").expect("has super");
    assert_eq!(mutations[0].byte_offset, expected_offset);
    assert_eq!(mutations[0].byte_length, "super().__init__()".len());
}
