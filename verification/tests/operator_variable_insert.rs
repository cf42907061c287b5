//! The variable_insert operator.
use fest::mutation::builtin::name_sites::find_name_sites;
use fest::mutation::builtin::variable_insert::{insert_drawn, VariableInsert};
use fest::mutation::mutator::{Mutation, MutationContext, Mutator};
use fest::mutation::seed::derive_value;
use fest::parse::parse_module;

/// The mutations of a source with a seed.
fn find_with_seed(source: &str, seed: Option<u64>) -> Vec<Mutation> {
    let ast = parse_module(source).expect("valid Python source");
    let ctx = MutationContext { file_path: "test.py", seed, floats: &[] };
    VariableInsert.find_mutations(source, &ast, &ctx)
}

/// Without a seed, no mutations are produced.
#[test]
fn variable_insert_no_seed_no_mutations() {
    let mutations = find_with_seed("x = y + z", None);
    assert!(mutations.is_empty());
}

/// With a seed, Name nodes are wrapped with arithmetic ops.
#[test]
fn inserts_around_names() {
    let mutations = find_with_seed("x = y + z", Some(42));
    // `y` and `z` on the RHS.
    assert_eq!(mutations.len(), 2);
    for mutation in &mutations {
        assert!(mutation.replacement_text.starts_with('('));
        assert!(mutation.replacement_text.ends_with(')'));
    }
}

/// Same seed produces deterministic results.
#[test]
fn variable_insert_deterministic_with_seed() {
    let mutations_a = find_with_seed("x = y", Some(99));
    let mutations_b = find_with_seed("x = y", Some(99));
    assert_eq!(mutations_a, mutations_b);
}

/// Replacement contains the original name.
#[test]
fn replacement_contains_original() {
    let mutations = find_with_seed("x = y", Some(42));
    assert_eq!(mutations.len(), 1);
    assert!(mutations[0].replacement_text.contains("y"));
}

/// Mutator name matches expected identifier.
#[test]
fn variable_insert_mutator_name() {
    assert_eq!(VariableInsert.name(), "variable_insert");
}

/// Byte offset and length of variable insertion are correct.
#[test]
fn variable_insert_byte_offset_is_correct() {
    let source = "x = y";
    let mutations = find_with_seed(source, Some(42));
    assert_eq!(mutations.len(), 1);
    let expected_offset = source.find('y').expect("has y");
    assert_eq!(mutations[0].byte_offset, expected_offset);
    assert_eq!(mutations[0].byte_length, 1);
}

/// The operator and the operand follow from the drawn values.
#[test]
fn drawn_values_decide_the_insertion() {
    let ast = parse_module("x = y + z").expect("valid Python source");
    let sites = find_name_sites("x = y + z", &ast);
    let found = insert_drawn(&sites, &vec![(3, 4), (5, 2)]);
    let texts: Vec<&str> = found.iter().map(|m| m.replacement_text.as_str()).collect();
    assert_eq!(texts, ["(y + -1)", "(z * 2)"]);
    assert_eq!(found[1].byte_offset, 8);
    assert_eq!(found[1].original_text, "z");
}

/// What is drawn is hashed from the seed and the one after it, the file and
/// the offset.
#[test]
fn insertions_are_those_of_the_derived_values() {
    let ast = parse_module("x = y + z").expect("valid Python source");
    let sites = find_name_sites("x = y + z", &ast);
    let drawn = sites
        .iter()
        .map(|m| {
            (
                derive_value(42, "test.py", m.byte_offset, "variable_insert"),
                derive_value(43, "test.py", m.byte_offset, "variable_insert"),
            )
        })
        .collect();
    assert_eq!(find_with_seed("x = y + z", Some(42)), insert_drawn(&sites, &drawn));
}
