//! Generation of mutants.
use fest::config::types::{MutatorConfig, MutatorOverrides, PerFileConfig};
use fest::mutation::builtin::arithmetic::ArithmeticOp;
use fest::mutation::builtin::comparison::ComparisonOp;
use fest::mutation::discover::{discover_files, Listing};
use fest::mutation::files::{
    find_per_file_config, generate_mutants_for_file, generate_mutants_for_files,
    GenerationOptions, SourceFile,
};
use fest::mutation::filter::matches_operator_filter;
use fest::mutation::position::{is_suppressed_by_pragma, line_column_from_offset};
use fest::mutation::registry::{build_registry, MutatorRegistry};
use fest::Error;

/// A file that has been read.
fn file(path: &str, source: &str) -> SourceFile {
    SourceFile { path: path.to_owned(), content: Ok(source.to_owned()), floats: Vec::new() }
}

/// Options without filters.
fn plain<'a>(mutators: &'a MutatorConfig) -> GenerationOptions<'a> {
    GenerationOptions {
        seed: None,
        filter_operators: &[],
        filter_paths: &[],
        per_file: &[],
        global_mutators: mutators,
    }
}

/// A registry with the arithmetic operator alone.
fn arithmetic() -> MutatorRegistry {
    let mut registry = MutatorRegistry::new();
    registry.register(Box::new(ArithmeticOp));
    registry
}

/// What a pattern matched on disk.
fn listing(pattern: &str, paths: &[&str]) -> Listing {
    Listing {
        pattern: pattern.to_owned(),
        entries: Ok(paths.iter().map(|p| Ok((*p).to_owned())).collect()),
    }
}

/// Line and column are both 1-based at the start of the source.
#[test]
fn line_column_at_start() {
    let (line, col) = line_column_from_offset("hello", 0);
    assert_eq!(line, 1);
    assert_eq!(col, 1);
}

/// Offset in the middle of the first line.
#[test]
fn line_column_first_line_middle() {
    let (line, col) = line_column_from_offset("x = a + b", 6);
    assert_eq!(line, 1);
    assert_eq!(col, 7);
}

/// Offset on the second line.
#[test]
fn line_column_second_line() {
    // "line1\nline2"
    // Byte 6 is 'l' in "line2"
    let (line, col) = line_column_from_offset("line1\nline2", 6);
    assert_eq!(line, 2);
    assert_eq!(col, 1);
}

/// Offset on the third line, not at column 1.
#[test]
fn line_column_third_line_offset() {
    // "a\nb\ncde"
    // Byte 5 is 'd'
    let (line, col) = line_column_from_offset("a\nb\ncde", 5);
    assert_eq!(line, 3);
    assert_eq!(col, 2);
}

/// Default `MutatorConfig` registers all 8 built-in mutators.
#[test]
fn build_registry_default_config_registers_all() {
    let config = MutatorConfig::default();
    let registry = build_registry(&config);
    assert_eq!(registry.len(), 14);
}

/// Disabling all flags produces an empty registry.
#[test]
fn build_registry_all_disabled_is_empty() {
    let config = MutatorConfig {
        arithmetic_op: false,
        comparison_op: false,
        boolean_op: false,
        return_value: false,
        negate_condition: false,
        remove_decorator: false,
        constant_replace: false,
        exception_swallow: false,
        break_continue: false,
        unary_op: false,
        zero_iteration_loop: false,
        augmented_assign: false,
        statement_deletion: false,
        bitwise_op: false,
        remove_super_call: false,
        variable_replace: false,
        variable_insert: false,
        custom: Vec::new(),
        python: Vec::new(),
        dylib: Vec::new(),
    };
    let registry = build_registry(&config);
    assert!(registry.is_empty());
}

/// Enabling only `arithmetic_op` registers exactly one mutator with
/// the correct name.
#[test]
fn build_registry_single_flag_arithmetic() {
    let config = MutatorConfig {
        arithmetic_op: true,
        comparison_op: false,
        boolean_op: false,
        return_value: false,
        negate_condition: false,
        remove_decorator: false,
        constant_replace: false,
        exception_swallow: false,
        break_continue: false,
        unary_op: false,
        zero_iteration_loop: false,
        augmented_assign: false,
        statement_deletion: false,
        bitwise_op: false,
        remove_super_call: false,
        variable_replace: false,
        variable_insert: false,
        custom: Vec::new(),
        python: Vec::new(),
        dylib: Vec::new(),
    };
    let registry = build_registry(&config);
    assert_eq!(registry.len(), 1);
    let names: Vec<&str> = registry.iter().iter().map(|m| m.name()).collect();
    assert_eq!(names, vec!["arithmetic_op"]);
}

/// Enabling only `comparison_op` registers exactly one mutator.
#[test]
fn build_registry_single_flag_comparison() {
    let config = MutatorConfig {
        arithmetic_op: false,
        comparison_op: true,
        boolean_op: false,
        return_value: false,
        negate_condition: false,
        remove_decorator: false,
        constant_replace: false,
        exception_swallow: false,
        break_continue: false,
        unary_op: false,
        zero_iteration_loop: false,
        augmented_assign: false,
        statement_deletion: false,
        bitwise_op: false,
        remove_super_call: false,
        variable_replace: false,
        variable_insert: false,
        custom: Vec::new(),
        python: Vec::new(),
        dylib: Vec::new(),
    };
    let registry = build_registry(&config);
    assert_eq!(registry.len(), 1);
    let names: Vec<&str> = registry.iter().iter().map(|m| m.name()).collect();
    assert_eq!(names, vec!["comparison_op"]);
}

/// Enabling a subset of flags registers only the matching mutators.
#[test]
fn build_registry_partial_flags() {
    let config = MutatorConfig {
        arithmetic_op: true,
        comparison_op: false,
        boolean_op: true,
        return_value: false,
        negate_condition: true,
        remove_decorator: false,
        constant_replace: false,
        exception_swallow: true,
        break_continue: false,
        unary_op: false,
        zero_iteration_loop: false,
        augmented_assign: false,
        statement_deletion: false,
        bitwise_op: false,
        remove_super_call: false,
        variable_replace: false,
        variable_insert: false,
        custom: Vec::new(),
        python: Vec::new(),
        dylib: Vec::new(),
    };
    let registry = build_registry(&config);
    assert_eq!(registry.len(), 4);

    let names: Vec<&str> = registry.iter().iter().map(|m| m.name()).collect();
    assert!(names.contains(&"arithmetic_op"));
    assert!(names.contains(&"boolean_op"));
    assert!(names.contains(&"negate_condition"));
    assert!(names.contains(&"exception_swallow"));
    assert!(!names.contains(&"comparison_op"));
    assert!(!names.contains(&"return_value"));
    assert!(!names.contains(&"remove_decorator"));
    assert!(!names.contains(&"constant_replace"));
}

/// Each flag maps to the correct mutator name.
#[test]
fn build_registry_flag_name_mapping() {
    let expected_names: [&str; 14] = [
        "arithmetic_op",
        "comparison_op",
        "boolean_op",
        "return_value",
        "negate_condition",
        "remove_decorator",
        "constant_replace",
        "exception_swallow",
        "break_continue",
        "unary_op",
        "zero_iteration_loop",
        "augmented_assign",
        "bitwise_op",
        "remove_super_call",
    ];

    let config = MutatorConfig::default();
    let registry = build_registry(&config);
    let names: Vec<&str> = registry.iter().iter().map(|m| m.name()).collect();

    for expected in expected_names {
        assert!(
            names.contains(&expected),
            "expected mutator '{expected}' not found in registry",
        );
    }
}

/// Global pragma suppresses all mutations on the line.
#[test]
fn pragma_suppresses_all_mutations() {
    let source = "x = a + b  # pragma: no mutate\n";
    assert!(is_suppressed_by_pragma(source, 6, "arithmetic_op"));
    assert!(is_suppressed_by_pragma(source, 6, "comparison_op"));
}

/// Per-operator pragma suppresses only the named operator.
#[test]
fn pragma_suppresses_specific_operator() {
    let source = "x = a + b  # pragma: no mutate(arithmetic_op)\n";
    assert!(is_suppressed_by_pragma(source, 6, "arithmetic_op"));
    assert!(!is_suppressed_by_pragma(source, 6, "comparison_op"));
}

/// Lines without pragma are not suppressed.
#[test]
fn pragma_absent_no_suppression() {
    let source = "x = a + b\n";
    assert!(!is_suppressed_by_pragma(source, 6, "arithmetic_op"));
}

/// Pragma on a different line does not suppress.
#[test]
fn pragma_on_different_line_no_suppression() {
    let source = "x = a + b\ny = 1  # pragma: no mutate\n";
    assert!(!is_suppressed_by_pragma(source, 6, "arithmetic_op"));
}

/// Empty filters match everything.
#[test]
fn operator_filter_empty_matches_all() {
    assert!(matches_operator_filter("arithmetic_op", &[]));
}

/// Include filter matches substring.
#[test]
fn operator_filter_include_match() {
    let filters = vec!["arithmetic".to_owned()];
    assert!(matches_operator_filter("arithmetic_op", &filters));
    assert!(!matches_operator_filter("comparison_op", &filters));
}

/// Exclude filter rejects substring match.
#[test]
fn operator_filter_exclude_match() {
    let filters = vec!["!arithmetic".to_owned()];
    assert!(!matches_operator_filter("arithmetic_op", &filters));
    assert!(matches_operator_filter("comparison_op", &filters));
}

/// Mixed include and exclude filters work together.
#[test]
fn operator_filter_mixed() {
    let filters = vec!["_op".to_owned(), "!arithmetic".to_owned()];
    // "arithmetic_op" matches include "_op" but is excluded by "!arithmetic".
    assert!(!matches_operator_filter("arithmetic_op", &filters));
    // "comparison_op" matches include "_op" and is not excluded.
    assert!(matches_operator_filter("comparison_op", &filters));
    // "return_value" does not match any include pattern.
    assert!(!matches_operator_filter("return_value", &filters));
}

/// Discover `.py` files from a simple glob pattern.
#[test]
fn discover_files_finds_py_files() {
    let found = [listing("src/**/*.py", &["/base/src/app.py"])];
    let files = discover_files(&found, &[], "/base").expect("should discover files");
    assert_eq!(files, vec!["/base/src/app.py"]);
}

/// Exclude patterns filter out matching files.
#[test]
fn discover_files_excludes_patterns() {
    let found =
        [listing("src/**/*.py", &["/base/src/generated/auto.py", "/base/src/main.py"])];
    let excludes = vec!["src/generated/**/*.py".to_owned()];
    let files = discover_files(&found, &excludes, "/base").expect("should discover files");
    assert_eq!(files, vec!["/base/src/main.py"]);
}

/// An empty source pattern list yields no files.
#[test]
fn discover_files_empty_patterns() {
    let files = discover_files(&[], &[], "/base").expect("should discover files");
    assert!(files.is_empty());
}

/// Invalid glob pattern returns an error.
#[test]
fn discover_files_invalid_pattern() {
    let found = [Listing {
        pattern: "[invalid".to_owned(),
        entries: Err("Pattern syntax error near position 0: invalid range pattern".to_owned()),
    }];
    let result = discover_files(&found, &[], "/base");
    assert!(result.is_err());
    assert!(discover_files(&[], &["[invalid".to_owned()], "/base").is_err());
}

/// Files come out sorted by component, each once.
#[test]
fn discovered_files_are_sorted_once() {
    let found = [
        listing("a", &["/b/x.py", "/b/a/y.py"]),
        listing("b", &["/b/a/y.py", "/b/a.py"]),
    ];
    let files = discover_files(&found, &[], "/b").expect("should discover files");
    assert_eq!(files, vec!["/b/a/y.py", "/b/a.py", "/b/x.py"]);
}

/// Generate mutants for a file with arithmetic operators.
#[test]
fn generate_mutants_for_arithmetic() {
    let config = MutatorConfig::default();
    let mutants =
        generate_mutants_for_file(&file("calc.py", "x = a + b\n"), &arithmetic(), &plain(&config))
            .expect("should generate mutants");
    assert_eq!(mutants.len(), 1);
    assert_eq!(mutants[0].original_text, "+");
    assert_eq!(mutants[0].mutated_text, "-");
    assert_eq!(mutants[0].file_path, "calc.py");
    assert_eq!(mutants[0].line, 1);
    assert_eq!(mutants[0].column, 7);
    assert_eq!(mutants[0].byte_offset, 6);
    assert_eq!(mutants[0].mutator_name, "arithmetic_op");
}

/// Mutants of several files are sorted by path.
#[test]
fn generate_mutants_end_to_end() {
    let config = MutatorConfig::default();
    let files = [file("src/b.py", "y = 3 - 4\n"), file("src/a.py", "x = 1 + 2\n")];
    let mutants = generate_mutants_for_files(&files, &arithmetic(), &plain(&config))
        .expect("should generate mutants");
    assert_eq!(mutants.len(), 2);
    assert_eq!(mutants[0].file_path, "src/a.py");
    assert_eq!(mutants[1].file_path, "src/b.py");
}

/// Files that fail to parse return an error.
#[test]
fn generate_mutants_parse_error() {
    let config = MutatorConfig::default();
    let result = generate_mutants_for_file(
        &file("bad.py", "def ((\n"),
        &MutatorRegistry::new(),
        &plain(&config),
    );
    assert!(result.is_err());
    assert!(matches!(result, Err(Error::Mutation(m)) if m.contains("bad.py")));
}

/// Files that cannot be read return an error.
#[test]
fn generate_mutants_read_error() {
    let config = MutatorConfig::default();
    let unread = SourceFile {
        path: "gone.py".to_owned(),
        content: Err("not found".to_owned()),
        floats: Vec::new(),
    };
    let result = generate_mutants_for_file(&unread, &MutatorRegistry::new(), &plain(&config));
    assert!(matches!(result, Err(Error::Mutation(m)) if m.contains("gone.py: not found")));
}

/// An empty registry produces no mutants.
#[test]
fn generate_mutants_empty_registry() {
    let config = MutatorConfig::default();
    let mutants = generate_mutants_for_file(
        &file("empty.py", "x = 1 + 2\n"),
        &MutatorRegistry::new(),
        &plain(&config),
    )
    .expect("should generate mutants");
    assert!(mutants.is_empty());
}

/// Mutants from multiple mutators are collected together.
#[test]
fn generate_mutants_multiple_mutators() {
    let config = MutatorConfig::default();
    let mut registry = arithmetic();
    registry.register(Box::new(ComparisonOp));
    let mutants = generate_mutants_for_file(
        &file("multi.py", "result = (a + b) == c\n"),
        &registry,
        &plain(&config),
    )
    .expect("should generate mutants");
    assert!(mutants.len() >= 2);
    let mutator_names: Vec<&str> = mutants.iter().map(|m| m.mutator_name.as_str()).collect();
    assert!(mutator_names.contains(&"arithmetic_op"));
    assert!(mutator_names.contains(&"comparison_op"));
}

/// Excluded files are skipped in end-to-end generation.
#[test]
fn generate_mutants_with_excludes() {
    let config = MutatorConfig::default();
    let found = [listing("src/**/*.py", &["/base/src/gen/skip.py", "/base/src/keep.py"])];
    let kept = discover_files(&found, &["src/gen/**/*.py".to_owned()], "/base")
        .expect("should discover files");
    let files: Vec<SourceFile> = kept.iter().map(|path| file(path, "x = 1 + 2\n")).collect();
    let mutants = generate_mutants_for_files(&files, &arithmetic(), &plain(&config))
        .expect("should generate mutants");
    assert_eq!(mutants.len(), 1);
    assert_eq!(mutants[0].file_path, "/base/src/keep.py");
}

/// Pragma integration: mutants on suppressed lines are excluded.
#[test]
fn pragma_integration_filters_mutants() {
    let config = MutatorConfig::default();
    let mutants = generate_mutants_for_file(
        &file("suppressed.py", "x = a + b  # pragma: no mutate\ny = c + d\n"),
        &arithmetic(),
        &plain(&config),
    )
    .expect("should generate mutants");
    assert_eq!(mutants.len(), 1);
    assert_eq!(mutants[0].line, 2);
}

/// Pragma suppression suppresses all mutations on a line.
#[test]
fn pragma_no_mutate_suppresses_all() {
    let config = MutatorConfig::default();
    let mutants = generate_mutants_for_file(
        &file("pragma.py", "x = 1 + 2  # pragma: no mutate\n"),
        &arithmetic(),
        &plain(&config),
    )
    .expect("should generate");
    assert!(mutants.is_empty());
}

/// Pragma suppression with operator name only suppresses that operator.
#[test]
fn pragma_no_mutate_specific_operator() {
    let config = MutatorConfig::default();
    let mutants = generate_mutants_for_file(
        &file("pragma_op.py", "x = 1 + 2  # pragma: no mutate(comparison_op)\n"),
        &arithmetic(),
        &plain(&config),
    )
    .expect("should generate");
    assert_eq!(mutants.len(), 1);
    assert_eq!(mutants[0].mutator_name, "arithmetic_op");
}

/// Operator filter integration: filtered operators are skipped.
#[test]
fn operator_filter_integration() {
    let config = MutatorConfig::default();
    let mut registry = arithmetic();
    registry.register(Box::new(ComparisonOp));
    let filters = vec!["arithmetic".to_owned()];
    let opts = GenerationOptions { filter_operators: &filters, ..plain(&config) };
    let mutants = generate_mutants_for_file(
        &file("filtered.py", "result = (a + b) == c\n"),
        &registry,
        &opts,
    )
    .expect("should generate mutants");
    for mutant in &mutants {
        assert_eq!(mutant.mutator_name, "arithmetic_op");
    }
    assert!(!mutants.is_empty());
}

/// Empty path filters keep all files.
#[test]
fn path_filter_empty_keeps_all() {
    let config = MutatorConfig::default();
    let files = [file("/d/src/a.py", "x = 1 + 2\n"), file("/d/src/b.py", "y = 3 + 4\n")];
    let mutants = generate_mutants_for_files(&files, &arithmetic(), &plain(&config))
        .expect("should generate mutants");
    assert_eq!(mutants.len(), 2);
}

/// Path filter restricts which files are mutated.
#[test]
fn path_filter_restricts_files() {
    let config = MutatorConfig::default();
    let files = [file("/d/src/a.py", "x = 1 + 2\n"), file("/d/src/b.py", "y = 3 + 4\n")];
    let filter_paths = vec!["**/a.py".to_owned()];
    let opts = GenerationOptions { filter_paths: &filter_paths, ..plain(&config) };
    let mutants =
        generate_mutants_for_files(&files, &arithmetic(), &opts).expect("should generate mutants");
    assert_eq!(mutants.len(), 1);
    assert_eq!(mutants[0].file_path, "/d/src/a.py");
}

/// An invalid path filter is an error.
#[test]
fn invalid_path_filter_is_an_error() {
    let config = MutatorConfig::default();
    let filter_paths = vec!["[oops".to_owned()];
    let opts = GenerationOptions { filter_paths: &filter_paths, ..plain(&config) };
    let result = generate_mutants_for_files(&[], &arithmetic(), &opts);
    assert!(matches!(result, Err(Error::Mutation(m)) if m.contains("[oops")));
}

/// An entry for files that match a pattern.
fn entry(pattern: &str, skip: bool, mutators: Option<MutatorOverrides>) -> PerFileConfig {
    PerFileConfig { pattern: pattern.to_owned(), mutators, timeout: None, skip }
}

/// Per-file config with `skip = true` excludes files from mutation.
#[test]
fn per_file_skip_excludes_file() {
    let config = MutatorConfig::default();
    let per_file = vec![entry("**/a.py", true, None)];
    let files = [file("/d/a.py", "x = 1 + 2\n"), file("/d/b.py", "y = 3 + 4\n")];
    let opts = GenerationOptions { per_file: &per_file, ..plain(&config) };
    let mutants =
        generate_mutants_for_files(&files, &arithmetic(), &opts).expect("should generate mutants");
    assert_eq!(mutants.len(), 1);
    assert_eq!(mutants[0].file_path, "/d/b.py");
}

/// Per-file config with mutator overrides merges with the global registry.
#[test]
fn per_file_custom_mutators() {
    let global_config = MutatorConfig {
        arithmetic_op: true,
        comparison_op: true,
        ..MutatorConfig::default()
    };
    let registry = build_registry(&global_config);
    let overrides = MutatorOverrides { arithmetic_op: Some(false), ..MutatorOverrides::default() };
    let per_file = vec![entry("**/target.py", false, Some(overrides))];
    let files = [file("/d/target.py", "x = (a + b) == c\n")];
    let opts = GenerationOptions { per_file: &per_file, ..plain(&global_config) };
    let mutants =
        generate_mutants_for_files(&files, &registry, &opts).expect("should generate mutants");
    let mutator_names: Vec<&str> = mutants.iter().map(|m| m.mutator_name.as_str()).collect();
    assert!(!mutator_names.contains(&"arithmetic_op"));
    assert!(mutator_names.contains(&"comparison_op"));
}

/// Of several entries that match, the last one counts.
#[test]
fn the_last_matching_entry_wins() {
    let per_file = vec![entry("**/a.py", true, None), entry("**/*.py", false, None)];
    let found = find_per_file_config("/d/a.py", &per_file).expect("an entry matches");
    assert_eq!(found.pattern, "**/*.py");
    assert!(find_per_file_config("/d/a.txt", &per_file).is_none());
}

/// Code under a main guard is not mutated.
#[test]
fn main_guards_are_left_alone() {
    let config = MutatorConfig::default();
    let mutants = generate_mutants_for_file(
        &file("m.py", "x = 1 + 2\nif __name__ == \"__main__\":\n    y = 3 + 4\n"),
        &arithmetic(),
        &plain(&config),
    )
    .expect("should generate mutants");
    assert_eq!(mutants.len(), 1);
    assert_eq!(mutants[0].line, 1);
}

/// An exclusion wins over a filter that picks.
#[test]
fn exclusion_wins() {
    let filters = vec!["op".to_owned(), "!arithmetic".to_owned()];
    assert!(!matches_operator_filter("arithmetic_op", &filters));
    assert!(matches_operator_filter("boolean_op", &filters));
}

/// The whole of a source is taken back by each mutant's own edit.
#[test]
fn mutants_name_the_text_they_replace() {
    let config = MutatorConfig::default();
    let source = "def f(a, b):\n    if a < b and not a:\n        return -a\n    return a + b\n";
    let registry = build_registry(&config);
    let mutants = generate_mutants_for_file(&file("f.py", source), &registry, &plain(&config))
        .expect("should generate mutants");
    assert!(mutants.len() > 5);
    for mutant in &mutants {
        let end = mutant.byte_offset + mutant.byte_length;
        assert_eq!(&source[mutant.byte_offset..end], mutant.original_text);
        let (line, column) = line_column_from_offset(source, mutant.byte_offset);
        assert_eq!((mutant.line, mutant.column), (line, column));
    }
}

/// The same seed gives the same mutants, another seed others, and no seed none
/// that are drawn.
#[test]
fn same_seed_gives_same_mutants() {
    let config =
        MutatorConfig { variable_replace: true, variable_insert: true, ..MutatorConfig::default() };
    let registry = build_registry(&config);
    let files = [file("b.py", "x = y + z\nw = x * y\n"), file("a.py", "p = q\n")];
    let run = |seed: Option<u64>| {
        let opts = GenerationOptions { seed, ..plain(&config) };
        generate_mutants_for_files(&files, &registry, &opts).expect("should generate")
    };
    assert_eq!(run(Some(7)), run(Some(7)));
    assert_ne!(run(Some(7)), run(Some(8)));
    let drawn = |m: &fest::mutation::mutant::Mutant| m.mutator_name.starts_with("variable_");
    assert_eq!(run(Some(7)).iter().filter(|m| drawn(m)).count(), 10);
    assert!(!run(None).iter().any(drawn));
}
