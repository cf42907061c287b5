//! The exception operator.
use fest::mutation::builtin::exception::ExceptionSwallow;
use fest::mutation::mutator::{Mutation, MutationContext, Mutator};
use fest::parse::parse_module;

/// The mutations of a source.
fn find(source: &str) -> Vec<Mutation> {
    let ast = parse_module(source).expect("valid Python source");
    let ctx = MutationContext { file_path: "test.py", seed: None, floats: &[] };
    ExceptionSwallow.find_mutations(source, &ast, &ctx)
}

/// An except handler body is replaced with `pass`.
#[test]
fn replace_except_body_with_pass() {
    let source = "try:\n    risky()\nexcept Exception:\n    log(error)";
    let mutations = find(source);
    assert_eq!(mutations.len(), 1);
    assert_eq!(mutations[0].replacement_text, "pass");
    assert!(mutations[0].original_text.contains("log"));
}

/// An except handler that already has `pass` produces no mutation.
#[test]
fn already_pass_no_mutation() {
    let source = "try:\n    risky()\nexcept Exception:\n    pass";
    let mutations = find(source);
    assert!(mutations.is_empty());
}

/// Multiple except handlers produce multiple mutations.
#[test]
fn multiple_handlers() {
    let source =
        "try:\n    risky()\nexcept ValueError:\n    handle_v()\nexcept TypeError:\n    \
         handle_t()";
    let mutations = find(source);
    assert_eq!(mutations.len(), 2);
}

/// Nested try in function is found.
#[test]
fn nested_try_in_function() {
    let source = "def func():\n    try:\n        op()\n    except:\n        recover()";
    let mutations = find(source);
    assert_eq!(mutations.len(), 1);
}
