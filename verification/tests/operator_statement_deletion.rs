//! The statement_deletion operator.
use fest::mutation::builtin::statement_deletion::StatementDeletion;
use fest::mutation::mutator::{Mutation, MutationContext, Mutator};
use fest::parse::parse_module;

/// The mutations of a source.
fn find(source: &str) -> Vec<Mutation> {
    let ast = parse_module(source).expect("valid Python source");
    let ctx = MutationContext { file_path: "test.py", seed: None, floats: &[] };
    StatementDeletion.find_mutations(source, &ast, &ctx)
}

/// An assignment statement is replaced with `pass`.
#[test]
fn delete_assignment() {
    let source = "x = 1";
    let mutations = find(source);
    assert_eq!(mutations.len(), 1);
    assert_eq!(mutations[0].replacement_text, "pass");
}

/// `pass` itself is not deleted.
#[test]
fn pass_not_deleted() {
    let source = "pass";
    let mutations = find(source);
    assert!(mutations.is_empty());
}

/// Mutator name matches expected identifier.
#[test]
fn statement_deletion_mutator_name() {
    assert_eq!(StatementDeletion.name(), "statement_deletion");
}

/// Statements inside function bodies are found via walk_stmt.
#[test]
fn inside_function_body() {
    let source = "def func():\n    x = 1";
    let mutations = find(source);
    assert_eq!(mutations.len(), 1);
    assert_eq!(mutations[0].replacement_text, "pass");
}

/// Byte offset and length of statement deletion are correct.
#[test]
fn deletion_byte_offset() {
    let source = "x = 1";
    let mutations = find(source);
    assert_eq!(mutations.len(), 1);
    assert_eq!(mutations[0].byte_offset, 0);
    assert_eq!(mutations[0].byte_length, source.len());
}
