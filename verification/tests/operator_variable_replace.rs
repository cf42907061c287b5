//! The variable_replace operator.
use fest::mutation::builtin::name_sites::find_name_sites;
use fest::mutation::builtin::variable_replace::{replace_drawn, VariableReplace};
use fest::mutation::mutator::{Mutation, MutationContext, Mutator};
use fest::mutation::seed::derive_value;
use fest::parse::parse_module;

/// The mutations of a source with a seed.
fn find_with_seed(source: &str, seed: Option<u64>) -> Vec<Mutation> {
    let ast = parse_module(source).expect("valid Python source");
    let ctx = MutationContext { file_path: "test.py", seed, floats: &[] };
    VariableReplace.find_mutations(source, &ast, &ctx)
}

/// Without a seed, no mutations are produced.
#[test]
fn variable_replace_no_seed_no_mutations() {
    let mutations = find_with_seed("x = y + z", None);
    assert!(mutations.is_empty());
}

/// With a seed, Name nodes on RHS are replaced with integer constants.
#[test]
fn replaces_name_refs() {
    let mutations = find_with_seed("x = y + z", Some(42));
    // `y` and `z` on the RHS are Name nodes.
    assert_eq!(mutations.len(), 2);
    // Replacement should be a valid integer string.
    for mutation in &mutations {
        assert!(mutation.replacement_text.parse::<i64>().is_ok());
    }
}

/// Same seed produces deterministic replacements.
#[test]
fn variable_replace_deterministic_with_seed() {
    let mutations_a = find_with_seed("x = y", Some(99));
    let mutations_b = find_with_seed("x = y", Some(99));
    assert_eq!(mutations_a, mutations_b);
}

/// Different seeds produce different replacements.
#[test]
fn different_seeds_differ() {
    let mutations_a = find_with_seed("x = y", Some(1));
    let mutations_b = find_with_seed("x = y", Some(2));
    assert_ne!(
        mutations_a[0].replacement_text,
        mutations_b[0].replacement_text
    );
}

/// Replacement constants are in range [-100, 100].
#[test]
fn replacement_in_range() {
    let mutations = find_with_seed("a = b + c + d + e", Some(12345));
    for mutation in &mutations {
        let val: i64 = mutation
            .replacement_text
            .parse()
            .expect("should be integer");
        assert!((-100..=100).contains(&val));
    }
}

/// Mutator name matches expected identifier.
#[test]
fn variable_replace_mutator_name() {
    assert_eq!(VariableReplace.name(), "variable_replace");
}

/// Byte offset and length of variable replacement are correct.
#[test]
fn variable_replace_byte_offset_is_correct() {
    let source = "x = y";
    let mutations = find_with_seed(source, Some(42));
    assert_eq!(mutations.len(), 1);
    let expected_offset = source.find('y').expect("has y");
    assert_eq!(mutations[0].byte_offset, expected_offset);
    assert_eq!(mutations[0].byte_length, 1);
}

/// The constant follows from the drawn value.
#[test]
fn drawn_values_decide_the_constant() {
    let ast = parse_module("x = y + z").expect("valid Python source");
    let sites = find_name_sites("x = y + z", &ast);
    let found = replace_drawn(&sites, &vec![0, 402]);
    let texts: Vec<&str> = found.iter().map(|m| m.replacement_text.as_str()).collect();
    assert_eq!(texts, ["-100", "-100"]);
    assert_eq!(replace_drawn(&sites, &vec![100, 200])[1].replacement_text, "100");
}

/// What is drawn is hashed from the seed, the file and the offset.
#[test]
fn replacements_are_those_of_the_derived_values() {
    let ast = parse_module("x = y + z").expect("valid Python source");
    let sites = find_name_sites("x = y + z", &ast);
    let drawn = sites
        .iter()
        .map(|m| derive_value(42, "test.py", m.byte_offset, "variable_replace"))
        .collect();
    assert_eq!(find_with_seed("x = y + z", Some(42)), replace_drawn(&sites, &drawn));
}
