//! The constant operator.
use fest::mutation::builtin::constant::ConstantReplace;
use fest::mutation::mutator::{FloatText, Mutation, MutationContext, Mutator};
use fest::parse::parse_module;
use fest::expressions::float_literals;

/// The mutations of a source.
fn find(source: &str) -> Vec<Mutation> {
    let ast = parse_module(source).expect("valid Python source");
    let floats: Vec<FloatText> = float_literals(source)
        .into_iter()
        .map(|bits| FloatText { bits, text: format!("{}", f64::from_bits(bits) + 1.0) })
        .collect();
    let ctx = MutationContext { file_path: "test.py", seed: None, floats: &floats };
    ConstantReplace.find_mutations(source, &ast, &ctx)
}

/// `True` is swapped to `False`.
#[test]
fn swap_true_to_false() {
    let mutations = find("x = True");
    assert_eq!(mutations.len(), 1);
    assert_eq!(mutations[0].original_text, "True");
    assert_eq!(mutations[0].replacement_text, "False");
}

/// `False` is swapped to `True`.
#[test]
fn swap_false_to_true() {
    let mutations = find("x = False");
    assert_eq!(mutations.len(), 1);
    assert_eq!(mutations[0].original_text, "False");
    assert_eq!(mutations[0].replacement_text, "True");
}

/// `0` is swapped to `1`.
#[test]
fn swap_zero_to_one() {
    let mutations = find("x = 0");
    assert_eq!(mutations.len(), 1);
    assert_eq!(mutations[0].original_text, "0");
    assert_eq!(mutations[0].replacement_text, "1");
}

/// `1` is swapped to `0`.
#[test]
fn swap_one_to_zero() {
    let mutations = find("x = 1");
    assert_eq!(mutations.len(), 1);
    assert_eq!(mutations[0].original_text, "1");
    assert_eq!(mutations[0].replacement_text, "0");
}

/// Other integers are incremented.
#[test]
fn increment_integer() {
    let mutations = find("x = 42");
    assert_eq!(mutations.len(), 1);
    assert_eq!(mutations[0].original_text, "42");
    assert_eq!(mutations[0].replacement_text, "43");
}

/// Float `0.0` is swapped to `1.0`.
#[test]
fn swap_float_zero() {
    let mutations = find("x = 0.0");
    assert_eq!(mutations.len(), 1);
    assert_eq!(mutations[0].replacement_text, "1.0");
}

/// Empty string is replaced with `"mutant"`.
#[test]
fn empty_string_to_mutant() {
    let mutations = find("x = \"\"");
    assert_eq!(mutations.len(), 1);
    assert_eq!(mutations[0].replacement_text, "\"mutant\"");
}

/// Non-empty string is replaced with `""`.
#[test]
fn nonempty_string_to_empty() {
    let mutations = find("x = \"hello\"");
    assert_eq!(mutations.len(), 1);
    assert_eq!(mutations[0].replacement_text, "\"\"");
}

/// Mutations are found inside if blocks.
#[test]
fn constant_inside_if_block() {
    let source = "if True:\n    x = 42";
    let mutations = find(source);
    assert!(!mutations.is_empty());
}

/// Mutations are found inside try/except blocks.
#[test]
fn constant_inside_try_block() {
    let source = "try:\n    x = 42\nexcept:\n    y = 0";
    let mutations = find(source);
    assert_eq!(mutations.len(), 2);
}

/// Mutations are found inside expressions visited via visit_exprs (e.g. bool_op values).
#[test]
fn constant_inside_bool_op_values() {
    let source = "x = 1 or 2";
    let mutations = find(source);
    assert_eq!(mutations.len(), 2);
}

/// Mutations are found inside dict literals.
#[test]
fn inside_dict() {
    let source = "x = {1: 2}";
    let mutations = find(source);
    assert_eq!(mutations.len(), 2);
}

/// Byte offset for boolean literal is correct.
#[test]
fn boolean_byte_offset() {
    let source = "x = True";
    let mutations = find(source);
    assert_eq!(mutations.len(), 1);
    let expected_offset = source.find("True").expect("has True");
    assert_eq!(mutations[0].byte_offset, expected_offset);
    assert_eq!(mutations[0].byte_length, 4);
}

/// Byte offset for number literal is correct.
#[test]
fn number_byte_offset() {
    let source = "x = 42";
    let mutations = find(source);
    assert_eq!(mutations.len(), 1);
    let expected_offset = source.find("42").expect("has 42");
    assert_eq!(mutations[0].byte_offset, expected_offset);
    assert_eq!(mutations[0].byte_length, 2);
}

/// Byte offset for string literal is correct.
#[test]
fn string_byte_offset() {
    let source = "x = \"hello\"";
    let mutations = find(source);
    assert_eq!(mutations.len(), 1);
    let expected_offset = source.find('"').expect("has quote");
    assert_eq!(mutations[0].byte_offset, expected_offset);
    assert_eq!(mutations[0].byte_length, 7);
}

/// Float `1.0` is swapped to `0.0`.
#[test]
fn swap_float_one() {
    let mutations = find("x = 1.0");
    assert_eq!(mutations.len(), 1);
    assert_eq!(mutations[0].replacement_text, "0.0");
}

/// Non-special float is incremented.
#[test]
fn increment_float() {
    let mutations = find("x = 2.5");
    assert_eq!(mutations.len(), 1);
    assert_eq!(mutations[0].replacement_text, "3.5");
}

/// Float literals are listed wherever they stand, in the order in which they
/// are evaluated.
#[test]
fn floats_are_listed_in_evaluation_order() {
    let source = "\
@d(1.0)
def f[T: 2.0](a: 5.0 = 3.0, *b: 6.0, c: 7.0 = 4.0, **e: 8.0) -> 9.0:
    await 10.0
    yield 11.0
    yield from 12.0
class C[T: 13.0](14.0, k=15.0):
    pass
match 16.0:
    case {17.0: 18.0} if 19.0:
        x = 20.0
    case (C(21.0, k=22.0) | [23.0, *_]) as y:
        pass
type X[T: 25.0] = 24.0
with 26.0 as a[27.0]:
    raise 28.0 from 29.0
lambda a=30.0: 31.0
[35.0 for q[33.0] in 32.0 if 34.0]
{39.0: 40.0 for q[37.0] in 36.0 if 38.0}
'' f'{41.0:{42.0}}' f'{43.0}'
a[44.0:45.0:46.0]
";
    let found: Vec<f64> = float_literals(source).into_iter().map(f64::from_bits).collect();
    let expected: Vec<f64> = (1..=46).map(f64::from).collect();
    assert_eq!(found, expected);
}
