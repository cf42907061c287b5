//! Mutants and their results.
use fest::duration::Duration;
use fest::mutation::mutant::{Mutant, MutantResult, MutantStatus};

/// Construct a `Mutant` and verify all fields.
#[test]
fn mutant_construction() {
    let mutant = Mutant {
        file_path: "src/app.py".to_owned(),
        line: 10,
        column: 5,
        byte_offset: 120,
        byte_length: 1,
        original_text: "+".to_owned(),
        mutated_text: "-".to_owned(),
        mutator_name: "arithmetic_op".to_owned(),
    };

    assert_eq!(mutant.file_path, "src/app.py".to_owned());
    assert_eq!(mutant.line, 10);
    assert_eq!(mutant.column, 5);
    assert_eq!(mutant.byte_offset, 120);
    assert_eq!(mutant.byte_length, 1);
    assert_eq!(mutant.original_text, "+");
    assert_eq!(mutant.mutated_text, "-");
    assert_eq!(mutant.mutator_name, "arithmetic_op");
}

/// Clone a `Mutant` and verify equality.
#[test]
fn mutant_clone_equals_original() {
    let mutant = Mutant {
        file_path: "lib/utils.py".to_owned(),
        line: 1,
        column: 1,
        byte_offset: 0,
        byte_length: 4,
        original_text: "True".to_owned(),
        mutated_text: "False".to_owned(),
        mutator_name: "boolean_op".to_owned(),
    };

    let cloned = mutant.clone();
    assert_eq!(mutant, cloned);
}

/// All `MutantStatus` variants can be constructed and compared.
#[test]
fn mutant_status_variants() {
    assert_eq!(MutantStatus::Killed, MutantStatus::Killed);
    assert_eq!(MutantStatus::Survived, MutantStatus::Survived);
    assert_eq!(MutantStatus::Timeout, MutantStatus::Timeout);
    assert_eq!(MutantStatus::NoCoverage, MutantStatus::NoCoverage);
    assert_eq!(
        MutantStatus::Error("oops".to_owned()),
        MutantStatus::Error("oops".to_owned()),
    );
    assert_ne!(MutantStatus::Killed, MutantStatus::Survived);
    assert_ne!(
        MutantStatus::Error("a".to_owned()),
        MutantStatus::Error("b".to_owned()),
    );
}

/// Construct a `MutantResult` and verify its fields.
#[test]
fn mutant_result_construction() {
    let mutant = Mutant {
        file_path: "src/calc.py".to_owned(),
        line: 42,
        column: 12,
        byte_offset: 500,
        byte_length: 2,
        original_text: "==".to_owned(),
        mutated_text: "!=".to_owned(),
        mutator_name: "comparison_op".to_owned(),
    };

    let result = MutantResult {
        mutant: mutant.clone(),
        status: MutantStatus::Killed,
        tests_run: vec!["test_add".to_owned(), "test_sub".to_owned()],
        duration: Duration::from_millis(150),
    };

    assert_eq!(result.mutant, mutant);
    assert_eq!(result.status, MutantStatus::Killed);
    assert_eq!(result.tests_run.len(), 2);
    assert_eq!(result.duration, Duration::from_millis(150));
}

/// `MutantResult` with an error status.
#[test]
fn mutant_result_error_status() {
    let result = MutantResult {
        mutant: Mutant {
            file_path: "err.py".to_owned(),
            line: 1,
            column: 1,
            byte_offset: 0,
            byte_length: 3,
            original_text: "and".to_owned(),
            mutated_text: "or".to_owned(),
            mutator_name: "boolean_op".to_owned(),
        },
        status: MutantStatus::Error("segfault".to_owned()),
        tests_run: Vec::new(),
        duration: Duration::from_secs(0),
    };

    assert_eq!(result.status, MutantStatus::Error("segfault".to_owned()));
    assert!(result.tests_run.is_empty());
}

/// `apply_to_source` replaces a single operator in the middle.
#[test]
fn apply_to_source_middle_replacement() {
    let source = "x = a + b";
    let mutant = Mutant {
        file_path: "test.py".to_owned(),
        line: 1,
        column: 7,
        byte_offset: 6,
        byte_length: 1,
        original_text: "+".to_owned(),
        mutated_text: "-".to_owned(),
        mutator_name: "arithmetic_op".to_owned(),
    };

    assert_eq!(mutant.apply_to_source(source), "x = a - b");
}

/// `apply_to_source` handles replacement at the start of the source.
#[test]
fn apply_to_source_at_start() {
    let source = "True and False";
    let mutant = Mutant {
        file_path: "test.py".to_owned(),
        line: 1,
        column: 1,
        byte_offset: 0,
        byte_length: 4,
        original_text: "True".to_owned(),
        mutated_text: "False".to_owned(),
        mutator_name: "constant_replace".to_owned(),
    };

    assert_eq!(mutant.apply_to_source(source), "False and False");
}

/// `apply_to_source` handles replacement at the end of the source.
#[test]
fn apply_to_source_at_end() {
    let source = "x = True";
    let mutant = Mutant {
        file_path: "test.py".to_owned(),
        line: 1,
        column: 5,
        byte_offset: 4,
        byte_length: 4,
        original_text: "True".to_owned(),
        mutated_text: "False".to_owned(),
        mutator_name: "constant_replace".to_owned(),
    };

    assert_eq!(mutant.apply_to_source(source), "x = False");
}

/// `apply_to_source` handles replacement with different-length text.
#[test]
fn apply_to_source_different_length() {
    let source = "x = a // b";
    let mutant = Mutant {
        file_path: "test.py".to_owned(),
        line: 1,
        column: 7,
        byte_offset: 6,
        byte_length: 2,
        original_text: "//".to_owned(),
        mutated_text: "*".to_owned(),
        mutator_name: "arithmetic_op".to_owned(),
    };

    assert_eq!(mutant.apply_to_source(source), "x = a * b");
}

/// `apply_to_source` preserves surrounding multiline code.
#[test]
fn apply_to_source_preserves_multiline() {
    let source = "def calc():\n    return a + b\n    # done\n";
    // The `+` is at byte offset 25 ("def calc():\n    return a " = 25 bytes)
    let mutant = Mutant {
        file_path: "test.py".to_owned(),
        line: 2,
        column: 14,
        byte_offset: 25,
        byte_length: 1,
        original_text: "+".to_owned(),
        mutated_text: "-".to_owned(),
        mutator_name: "arithmetic_op".to_owned(),
    };

    let result = mutant.apply_to_source(source);
    assert_eq!(result, "def calc():\n    return a - b\n    # done\n");
}

/// Putting the original text back undoes a mutation.
#[test]
fn a_mutation_is_undone_by_its_reverse() {
    let source = "x = a // b";
    let mutant = Mutant {
        file_path: "test.py".to_owned(),
        line: 1,
        column: 7,
        byte_offset: 6,
        byte_length: 2,
        original_text: "//".to_owned(),
        mutated_text: "*".to_owned(),
        mutator_name: "arithmetic_op".to_owned(),
    };
    let reverse = Mutant {
        byte_length: 1,
        original_text: "*".to_owned(),
        mutated_text: "//".to_owned(),
        ..mutant.clone()
    };
    let mutated = mutant.apply_to_source(source);
    assert_eq!(mutated, "x = a * b");
    assert_eq!(reverse.apply_to_source(&mutated), source);
}

/// Offsets count bytes, not characters.
#[test]
fn offsets_count_bytes() {
    let source = "s = 'é' + t";
    let mutant = Mutant {
        file_path: "test.py".to_owned(),
        line: 1,
        column: 9,
        byte_offset: source.find('+').expect("has plus"),
        byte_length: 1,
        original_text: "+".to_owned(),
        mutated_text: "-".to_owned(),
        mutator_name: "arithmetic_op".to_owned(),
    };
    assert_eq!(mutant.apply_to_source(source), "s = 'é' - t");
}
