//! Values derived from a seed.
use fest::mutation::seed::derive_value;

/// Same inputs produce the same value.
#[test]
fn deterministic() {
    let val_a = derive_value(42, "src/app.py", 10, "variable_replace");
    let val_b = derive_value(42, "src/app.py", 10, "variable_replace");
    assert_eq!(val_a, val_b);
}

/// Different seeds produce different values.
#[test]
fn different_seeds() {
    let val_a = derive_value(1, "src/app.py", 10, "variable_replace");
    let val_b = derive_value(2, "src/app.py", 10, "variable_replace");
    assert_ne!(val_a, val_b);
}

/// Different offsets produce different values.
#[test]
fn different_offsets() {
    let val_a = derive_value(42, "src/app.py", 10, "variable_replace");
    let val_b = derive_value(42, "src/app.py", 20, "variable_replace");
    assert_ne!(val_a, val_b);
}

/// Different mutator names produce different values.
#[test]
fn different_mutator_names() {
    let val_a = derive_value(42, "src/app.py", 10, "variable_replace");
    let val_b = derive_value(42, "src/app.py", 10, "variable_insert");
    assert_ne!(val_a, val_b);
}

/// Different paths produce different values.
#[test]
fn different_paths() {
    let val_a = derive_value(42, "src/app.py", 10, "variable_replace");
    let val_b = derive_value(42, "src/lib.py", 10, "variable_replace");
    assert_ne!(val_a, val_b);
}
