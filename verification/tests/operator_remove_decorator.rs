//! The remove_decorator operator.
use fest::mutation::builtin::remove_decorator::RemoveDecorator;
use fest::mutation::mutator::{Mutation, MutationContext, Mutator};
use fest::parse::parse_module;

/// The mutations of a source.
fn find(source: &str) -> Vec<Mutation> {
    let ast = parse_module(source).expect("valid Python source");
    let ctx = MutationContext { file_path: "test.py", seed: None, floats: &[] };
    RemoveDecorator.find_mutations(source, &ast, &ctx)
}

/// A single decorator is removed.
#[test]
fn remove_single_decorator() {
    let source = "@my_decorator\ndef func():\n    pass";
    let mutations = find(source);
    assert_eq!(mutations.len(), 1);
    assert_eq!(mutations[0].replacement_text, "");
    assert!(mutations[0].original_text.contains("@my_decorator"));
}

/// Two decorators produce two mutations.
#[test]
fn remove_multiple_decorators() {
    let source = "@dec1\n@dec2\ndef func():\n    pass";
    let mutations = find(source);
    assert_eq!(mutations.len(), 2);
}

/// Class decorators are also removed.
#[test]
fn remove_class_decorator() {
    let source = "@dataclass\nclass Pt:\n    x: int";
    let mutations = find(source);
    assert_eq!(mutations.len(), 1);
    assert!(mutations[0].original_text.contains("@dataclass"));
}

/// Functions without decorators produce no mutations.
#[test]
fn no_decorators_no_mutation() {
    let source = "def func():\n    pass";
    let mutations = find(source);
    assert!(mutations.is_empty());
}

/// Nested function decorators are found.
#[test]
fn nested_function_decorator() {
    let source = "class Cls:\n    @staticmethod\n    def method():\n        pass";
    let mutations = find(source);
    assert_eq!(mutations.len(), 1);
}

/// A decorator goes from `@` to the end of its line.
#[test]
fn the_rest_of_the_line_is_removed() {
    let source = "@cache  # once\r\ndef func():\n    pass";
    let mutations = find(source);
    assert_eq!(mutations.len(), 1);
    assert_eq!(mutations[0].byte_offset, 0);
    assert_eq!(mutations[0].original_text, "@cache  # once\r\n");
}
