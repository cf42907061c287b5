//! Reports.
use fest::config::types::OutputFormat;
use fest::double::Double;
use fest::duration::Duration;
use fest::mutation::mutant::{Mutant, MutantResult, MutantStatus, SkipReason};
use fest::report::format_report;
use fest::report::html::{escape_html, format_html};
use fest::report::json::format_json;
use fest::report::text::format_text;
use fest::report::types::{reason_to_snake_case, MutationReport};

fn double(x: f64) -> Double {
    Double { bits: x.to_bits() }
}

/// A mutant with the given parameters.
fn make_mutant(file: &str, line: u32, mutator: &str, original: &str, mutated: &str) -> Mutant {
    Mutant {
        file_path: file.to_owned(),
        line,
        column: 1,
        byte_offset: 0,
        byte_length: original.len(),
        original_text: original.to_owned(),
        mutated_text: mutated.to_owned(),
        mutator_name: mutator.to_owned(),
    }
}

/// A result with the given status.
fn make_result(mutant: Mutant, status: MutantStatus) -> MutantResult {
    MutantResult {
        mutant,
        status,
        tests_run: vec!["test_example".to_owned()],
        duration: Duration::from_millis(50),
    }
}

/// Score is 0.0 when no mutants were tested.
#[test]
fn score_zero_when_none_tested() {
    let report = MutationReport::from_results(
        Vec::new(),
        5,
        0,
        Duration::from_secs(1),
        None,
    );
    assert!((f64::from_bits(report.mutation_score().bits) - 0.0).abs() < f64::EPSILON);
}

/// Score is 100.0 when all tested mutants are killed.
#[test]
fn score_all_killed() {
    let results = vec![
        make_result(
            make_mutant("a.py", 1, "arithmetic_op", "+", "-"),
            MutantStatus::Killed,
        ),
        make_result(
            make_mutant("a.py", 2, "arithmetic_op", "-", "+"),
            MutantStatus::Killed,
        ),
    ];
    let report = MutationReport::from_results(
        results,
        1,
        2,
        Duration::from_secs(1),
        None,
    );
    assert!((f64::from_bits(report.mutation_score().bits) - 100.0).abs() < f64::EPSILON);
}

/// Score is 0.0 when no mutants are killed.
#[test]
fn score_none_killed() {
    let results = vec![
        make_result(
            make_mutant("a.py", 1, "arithmetic_op", "+", "-"),
            MutantStatus::Survived,
        ),
        make_result(
            make_mutant("a.py", 2, "arithmetic_op", "-", "+"),
            MutantStatus::Survived,
        ),
    ];
    let report = MutationReport::from_results(
        results,
        1,
        2,
        Duration::from_secs(1),
        None,
    );
    assert!((f64::from_bits(report.mutation_score().bits) - 0.0).abs() < f64::EPSILON);
}

/// Score is 50.0 when half the mutants are killed.
#[test]
fn score_half_killed() {
    let results = vec![
        make_result(
            make_mutant("a.py", 1, "arithmetic_op", "+", "-"),
            MutantStatus::Killed,
        ),
        make_result(
            make_mutant("a.py", 2, "arithmetic_op", "-", "+"),
            MutantStatus::Survived,
        ),
    ];
    let report = MutationReport::from_results(
        results,
        1,
        2,
        Duration::from_secs(1),
        None,
    );
    assert!((f64::from_bits(report.mutation_score().bits) - 50.0).abs() < f64::EPSILON);
}

/// `NoCoverage` results are excluded from `mutants_tested`.
#[test]
fn no_coverage_excluded_from_tested_count() {
    let results = vec![
        make_result(
            make_mutant("a.py", 1, "arithmetic_op", "+", "-"),
            MutantStatus::Killed,
        ),
        make_result(
            make_mutant("a.py", 2, "arithmetic_op", "-", "+"),
            MutantStatus::NoCoverage,
        ),
    ];
    let report = MutationReport::from_results(
        results,
        1,
        2,
        Duration::from_secs(1),
        None,
    );
    assert_eq!(report.mutants_tested, 1);
    assert_eq!(report.no_coverage, 1);
    assert!((f64::from_bits(report.mutation_score().bits) - 100.0).abs() < f64::EPSILON);
}

// -- MutationReport::from_results tests ----------------------------------

/// `from_results` correctly counts all status categories.
#[test]
fn from_results_counts_all_statuses() {
    let results = vec![
        make_result(
            make_mutant("a.py", 1, "op", "+", "-"),
            MutantStatus::Killed,
        ),
        make_result(
            make_mutant("a.py", 2, "op", "-", "+"),
            MutantStatus::Survived,
        ),
        make_result(
            make_mutant("a.py", 3, "op", "*", "/"),
            MutantStatus::Timeout,
        ),
        make_result(
            make_mutant("a.py", 4, "op", "/", "*"),
            MutantStatus::NoCoverage,
        ),
        make_result(
            make_mutant("a.py", 5, "op", "==", "!="),
            MutantStatus::Error("oops".to_owned()),
        ),
    ];

    let report = MutationReport::from_results(
        results,
        3,
        10,
        Duration::from_secs(5),
        None,
    );

    assert_eq!(report.files_scanned, 3);
    assert_eq!(report.mutants_generated, 10);
    assert_eq!(report.killed, 1);
    assert_eq!(report.survived, 1);
    assert_eq!(report.timeouts, 1);
    assert_eq!(report.no_coverage, 1);
    assert_eq!(report.errors, 1);
    assert_eq!(report.mutants_tested, 4);
    assert_eq!(report.results.len(), 5);
    assert_eq!(report.duration, Duration::from_secs(5));
}

/// `from_results` with an empty vector produces zero counts.
#[test]
fn from_results_empty() {
    let report = MutationReport::from_results(
        Vec::new(),
        0,
        0,
        Duration::from_secs(0),
        None,
    );
    assert_eq!(report.killed, 0);
    assert_eq!(report.survived, 0);
    assert_eq!(report.timeouts, 0);
    assert_eq!(report.no_coverage, 0);
    assert_eq!(report.errors, 0);
    assert_eq!(report.mutants_tested, 0);
}

// -- Threshold tests -----------------------------------------------------

/// A threshold of 0.0 always passes.
#[test]
fn threshold_zero_always_passes() {
    let report = MutationReport::from_results(
        Vec::new(),
        0,
        0,
        Duration::from_secs(0),
        None,
    );
    assert!(report.passes_threshold(double(0.0)));
}

/// Threshold passes when score equals the threshold.
#[test]
fn threshold_passes_when_equal() {
    let results = vec![make_result(
        make_mutant("a.py", 1, "op", "+", "-"),
        MutantStatus::Killed,
    )];
    let report = MutationReport::from_results(
        results,
        1,
        1,
        Duration::from_secs(1),
        None,
    );
    // score is 100.0
    assert!(report.passes_threshold(double(100.0)));
}

/// Threshold fails when score is below the threshold.
#[test]
fn threshold_fails_when_below() {
    let results = vec![
        make_result(
            make_mutant("a.py", 1, "op", "+", "-"),
            MutantStatus::Killed,
        ),
        make_result(
            make_mutant("a.py", 2, "op", "-", "+"),
            MutantStatus::Survived,
        ),
    ];
    let report = MutationReport::from_results(
        results,
        1,
        2,
        Duration::from_secs(1),
        None,
    );
    // score is 50.0
    assert!(!report.passes_threshold(double(80.0)));
}

// -- Text reporter tests -------------------------------------------------

/// Text report contains the header.
#[test]
fn text_report_contains_header() {
    let report = MutationReport::from_results(
        Vec::new(),
        0,
        0,
        Duration::from_secs(0),
        None,
    );
    let output = format_text(&report, false).expect("should format text");
    assert!(output.contains("fest mutation testing report"));
    assert!(output.contains("----------------------------"));
}

/// Text report contains statistics.
#[test]
fn text_report_contains_statistics() {
    let results = vec![
        make_result(
            make_mutant("src/parser.py", 42, "ArithmeticOp", "+", "-"),
            MutantStatus::Killed,
        ),
        make_result(
            make_mutant(
                "src/parser.py",
                87,
                "NegateCondition",
                "if valid:",
                "if not valid:",
            ),
            MutantStatus::Survived,
        ),
    ];
    let report = MutationReport::from_results(
        results,
        12,
        347,
        Duration::from_secs(30),
        None,
    );
    let output = format_text(&report, false).expect("should format text");

    assert!(output.contains("Files scanned:"));
    assert!(output.contains("12"));
    assert!(output.contains("Mutants generated:"));
    assert!(output.contains("347"));
    assert!(output.contains("Killed:"));
    assert!(output.contains("Survived:"));
}

/// Text report lists survived mutants with file, line, mutator, and text.
#[test]
fn text_report_lists_survived() {
    let results = vec![make_result(
        make_mutant("src/parser.py", 42, "ArithmeticOp", "x + 1", "x - 1"),
        MutantStatus::Survived,
    )];
    let report = MutationReport::from_results(
        results,
        1,
        1,
        Duration::from_secs(1),
        None,
    );
    let output = format_text(&report, false).expect("should format text");

    assert!(output.contains("Survived mutants:"));
    assert!(output.contains("src/parser.py:42"));
    assert!(output.contains("ArithmeticOp"));
    assert!(output.contains("`x + 1` -> `x - 1`"));
}

/// Text report does not list survived section when there are none.
#[test]
fn text_report_no_survived_section_when_all_killed() {
    let results = vec![make_result(
        make_mutant("a.py", 1, "op", "+", "-"),
        MutantStatus::Killed,
    )];
    let report = MutationReport::from_results(
        results,
        1,
        1,
        Duration::from_secs(1),
        None,
    );
    let output = format_text(&report, false).expect("should format text");

    assert!(!output.contains("Survived mutants:"));
}

/// Text report shows no-coverage count when present.
#[test]
fn text_report_shows_no_coverage() {
    let results = vec![
        make_result(
            make_mutant("a.py", 1, "op", "+", "-"),
            MutantStatus::Killed,
        ),
        make_result(
            make_mutant("a.py", 2, "op", "-", "+"),
            MutantStatus::NoCoverage,
        ),
    ];
    let report = MutationReport::from_results(
        results,
        1,
        2,
        Duration::from_secs(1),
        None,
    );
    let output = format_text(&report, false).expect("should format text");

    assert!(output.contains("no coverage"));
}

// -- JSON reporter tests -------------------------------------------------

/// JSON report is valid JSON and contains expected fields.
#[test]
fn json_report_contains_fields() {
    let results = vec![
        make_result(
            make_mutant("a.py", 1, "arithmetic_op", "+", "-"),
            MutantStatus::Killed,
        ),
        make_result(
            make_mutant("a.py", 2, "comparison_op", "==", "!="),
            MutantStatus::Survived,
        ),
    ];
    let report = MutationReport::from_results(
        results,
        3,
        10,
        Duration::from_secs(5),
        None,
    );
    let json_str = format_json(&report).expect("should format JSON");

    // Verify it is valid JSON by parsing it
    let value: serde_json::Value =
        serde_json::from_str(&json_str).expect("should be valid JSON");

    assert_eq!(value["files_scanned"], 3);
    assert_eq!(value["mutants_generated"], 10);
    assert_eq!(value["killed"], 1);
    assert_eq!(value["survived"], 1);
    assert_eq!(value["mutants_tested"], 2);
}

/// JSON report contains individual results with mutant details.
#[test]
fn json_report_contains_mutant_details() {
    let results = vec![make_result(
        make_mutant("module.py", 10, "boolean_op", "and", "or"),
        MutantStatus::Killed,
    )];
    let report = MutationReport::from_results(
        results,
        1,
        1,
        Duration::from_secs(1),
        None,
    );
    let json_str = format_json(&report).expect("should format JSON");
    let value: serde_json::Value =
        serde_json::from_str(&json_str).expect("should be valid JSON");

    let results_array = value["results"]
        .as_array()
        .expect("results should be array");
    assert_eq!(results_array.len(), 1);

    let first = &results_array[0];
    assert_eq!(first["mutant"]["original_text"], "and");
    assert_eq!(first["mutant"]["mutated_text"], "or");
    assert_eq!(first["mutant"]["mutator_name"], "boolean_op");
    assert_eq!(first["mutant"]["line"], 10);
    assert_eq!(first["status"], "Killed");
}

/// JSON report for empty results.
#[test]
fn json_report_empty_results() {
    let report = MutationReport::from_results(
        Vec::new(),
        0,
        0,
        Duration::from_secs(0),
        None,
    );
    let json_str = format_json(&report).expect("should format JSON");
    let value: serde_json::Value =
        serde_json::from_str(&json_str).expect("should be valid JSON");

    assert_eq!(value["killed"], 0);
    assert_eq!(value["survived"], 0);
    let results_array = value["results"]
        .as_array()
        .expect("results should be array");
    assert!(results_array.is_empty());
}

// -- format_report dispatch tests ----------------------------------------

/// `format_report` dispatches to text formatter.
#[test]
fn format_report_text() {
    let report = MutationReport::from_results(
        Vec::new(),
        0,
        0,
        Duration::from_secs(0),
        None,
    );
    let output =
        format_report(&report, &OutputFormat::Text, false).expect("should format text");
    assert!(output.contains("fest mutation testing report"));
}

/// `format_report` dispatches to JSON formatter.
#[test]
fn format_report_json() {
    let report = MutationReport::from_results(
        Vec::new(),
        0,
        0,
        Duration::from_secs(0),
        None,
    );
    let output =
        format_report(&report, &OutputFormat::Json, false).expect("should format JSON");
    let _value: serde_json::Value =
        serde_json::from_str(&output).expect("should be valid JSON");
}

/// `format_report` dispatches to HTML formatter.
#[test]
fn format_report_html() {
    let report = MutationReport::from_results(
        Vec::new(),
        0,
        0,
        Duration::from_secs(0),
        None,
    );
    let output =
        format_report(&report, &OutputFormat::Html, false).expect("should format HTML");
    assert!(output.contains("<!DOCTYPE html>"));
    assert!(output.contains("fest mutation testing report"));
}

// -- HTML reporter tests -------------------------------------------------

/// HTML report contains the DOCTYPE declaration.
#[test]
fn html_report_contains_doctype() {
    let report = MutationReport::from_results(
        Vec::new(),
        0,
        0,
        Duration::from_secs(0),
        None,
    );
    let output = format_html(&report).expect("should format HTML");
    assert!(output.contains("<!DOCTYPE html>"));
}

/// HTML report contains the page title.
#[test]
fn html_report_contains_title() {
    let report = MutationReport::from_results(
        Vec::new(),
        0,
        0,
        Duration::from_secs(0),
        None,
    );
    let output = format_html(&report).expect("should format HTML");
    assert!(output.contains("<title>fest mutation testing report</title>"));
}

/// HTML report contains inline CSS styles.
#[test]
fn html_report_contains_inline_css() {
    let report = MutationReport::from_results(
        Vec::new(),
        0,
        0,
        Duration::from_secs(0),
        None,
    );
    let output = format_html(&report).expect("should format HTML");
    assert!(output.contains("<style>"));
    assert!(output.contains(".killed"));
    assert!(output.contains(".survived"));
    assert!(output.contains(".no-coverage"));
    assert!(output.contains("</style>"));
}

/// HTML report contains summary statistics.
#[test]
fn html_report_contains_summary() {
    let results = vec![
        make_result(
            make_mutant("a.py", 1, "op", "+", "-"),
            MutantStatus::Killed,
        ),
        make_result(
            make_mutant("a.py", 2, "op", "-", "+"),
            MutantStatus::Survived,
        ),
    ];
    let report = MutationReport::from_results(
        results,
        3,
        10,
        Duration::from_secs(5),
        None,
    );
    let output = format_html(&report).expect("should format HTML");

    assert!(output.contains("Files scanned"));
    assert!(output.contains("Mutants generated"));
    assert!(output.contains("Killed"));
    assert!(output.contains("Survived"));
    assert!(output.contains("Mutation score"));
}

/// HTML report contains the mutation score as a percentage.
#[test]
fn html_report_contains_score_percentage() {
    let results = vec![make_result(
        make_mutant("a.py", 1, "op", "+", "-"),
        MutantStatus::Killed,
    )];
    let report = MutationReport::from_results(
        results,
        1,
        1,
        Duration::from_secs(1),
        None,
    );
    let output = format_html(&report).expect("should format HTML");
    assert!(output.contains("100.0%"));
}

/// HTML report shows file path in file section.
#[test]
fn html_report_shows_file_path() {
    let results = vec![make_result(
        make_mutant("src/parser.py", 10, "ArithmeticOp", "+", "-"),
        MutantStatus::Killed,
    )];
    let report = MutationReport::from_results(
        results,
        1,
        1,
        Duration::from_secs(1),
        None,
    );
    let output = format_html(&report).expect("should format HTML");
    assert!(output.contains("src/parser.py"));
}

/// HTML report uses green class for killed mutants.
#[test]
fn html_report_killed_line_green() {
    let results = vec![make_result(
        make_mutant("a.py", 5, "op", "+", "-"),
        MutantStatus::Killed,
    )];
    let report = MutationReport::from_results(
        results,
        1,
        1,
        Duration::from_secs(1),
        None,
    );
    let output = format_html(&report).expect("should format HTML");
    assert!(output.contains("class=\"line killed\""));
}

/// HTML report uses red class for survived mutants.
#[test]
fn html_report_survived_line_red() {
    let results = vec![make_result(
        make_mutant("a.py", 5, "op", "+", "-"),
        MutantStatus::Survived,
    )];
    let report = MutationReport::from_results(
        results,
        1,
        1,
        Duration::from_secs(1),
        None,
    );
    let output = format_html(&report).expect("should format HTML");
    assert!(output.contains("class=\"line survived\""));
}

/// HTML report uses grey class for no-coverage mutants.
#[test]
fn html_report_no_coverage_line_grey() {
    let results = vec![make_result(
        make_mutant("a.py", 5, "op", "+", "-"),
        MutantStatus::NoCoverage,
    )];
    let report = MutationReport::from_results(
        results,
        1,
        1,
        Duration::from_secs(1),
        None,
    );
    let output = format_html(&report).expect("should format HTML");
    assert!(output.contains("class=\"line no-coverage\""));
}

/// A line with mixed killed and survived uses survived (red) class.
#[test]
fn html_report_mixed_survived_takes_priority() {
    let results = vec![
        make_result(
            make_mutant("a.py", 5, "op", "+", "-"),
            MutantStatus::Killed,
        ),
        make_result(
            make_mutant("a.py", 5, "op", "-", "+"),
            MutantStatus::Survived,
        ),
    ];
    let report = MutationReport::from_results(
        results,
        1,
        2,
        Duration::from_secs(1),
        None,
    );
    let output = format_html(&report).expect("should format HTML");
    assert!(output.contains("class=\"line survived\""));
}

/// A line with killed and no-coverage uses no-coverage (grey) class.
#[test]
fn html_report_mixed_killed_and_no_coverage_uses_grey() {
    let results = vec![
        make_result(
            make_mutant("a.py", 5, "op", "+", "-"),
            MutantStatus::Killed,
        ),
        make_result(
            make_mutant("a.py", 5, "op", "-", "+"),
            MutantStatus::NoCoverage,
        ),
    ];
    let report = MutationReport::from_results(
        results,
        1,
        2,
        Duration::from_secs(1),
        None,
    );
    let output = format_html(&report).expect("should format HTML");
    // Not all killed, so should be grey (no-coverage class).
    assert!(output.contains("class=\"line no-coverage\""));
}

/// HTML report shows mutation detail with mutator name and texts.
#[test]
fn html_report_shows_mutation_detail() {
    let results = vec![make_result(
        make_mutant("a.py", 1, "ArithmeticOp", "+", "-"),
        MutantStatus::Killed,
    )];
    let report = MutationReport::from_results(
        results,
        1,
        1,
        Duration::from_secs(1),
        None,
    );
    let output = format_html(&report).expect("should format HTML");
    assert!(output.contains("ArithmeticOp"));
    assert!(output.contains("[KILLED]"));
    assert!(output.contains("<code>+</code>"));
    assert!(output.contains("<code>-</code>"));
}

/// HTML report shows survived mutation detail label.
#[test]
fn html_report_shows_survived_label() {
    let results = vec![make_result(
        make_mutant("a.py", 1, "op", "+", "-"),
        MutantStatus::Survived,
    )];
    let report = MutationReport::from_results(
        results,
        1,
        1,
        Duration::from_secs(1),
        None,
    );
    let output = format_html(&report).expect("should format HTML");
    assert!(output.contains("[SURVIVED]"));
}

/// HTML report shows timeout mutation detail label.
#[test]
fn html_report_shows_timeout_label() {
    let results = vec![make_result(
        make_mutant("a.py", 1, "op", "+", "-"),
        MutantStatus::Timeout,
    )];
    let report = MutationReport::from_results(
        results,
        1,
        1,
        Duration::from_secs(1),
        None,
    );
    let output = format_html(&report).expect("should format HTML");
    assert!(output.contains("[TIMEOUT]"));
}

/// HTML report shows error mutation detail label.
#[test]
fn html_report_shows_error_label() {
    let results = vec![make_result(
        make_mutant("a.py", 1, "op", "+", "-"),
        MutantStatus::Error("segfault".to_owned()),
    )];
    let report = MutationReport::from_results(
        results,
        1,
        1,
        Duration::from_secs(1),
        None,
    );
    let output = format_html(&report).expect("should format HTML");
    assert!(output.contains("[ERROR]"));
}

/// HTML report escapes HTML special characters in source text.
#[test]
fn html_report_escapes_html_chars() {
    let results = vec![make_result(
        make_mutant("a.py", 1, "op", "a < b", "a > b"),
        MutantStatus::Killed,
    )];
    let report = MutationReport::from_results(
        results,
        1,
        1,
        Duration::from_secs(1),
        None,
    );
    let output = format_html(&report).expect("should format HTML");
    assert!(output.contains("a &lt; b"));
    assert!(output.contains("a &gt; b"));
}

/// HTML report escapes ampersands in source text.
#[test]
fn html_report_escapes_ampersand() {
    let results = vec![make_result(
        make_mutant("a.py", 1, "op", "a & b", "a | b"),
        MutantStatus::Killed,
    )];
    let report = MutationReport::from_results(
        results,
        1,
        1,
        Duration::from_secs(1),
        None,
    );
    let output = format_html(&report).expect("should format HTML");
    assert!(output.contains("a &amp; b"));
}

/// HTML report escapes double quotes in source text.
#[test]
fn html_report_escapes_double_quotes() {
    let results = vec![make_result(
        make_mutant("a.py", 1, "op", "x == \"hello\"", "x != \"hello\""),
        MutantStatus::Killed,
    )];
    let report = MutationReport::from_results(
        results,
        1,
        1,
        Duration::from_secs(1),
        None,
    );
    let output = format_html(&report).expect("should format HTML");
    assert!(output.contains("&quot;hello&quot;"));
}

/// HTML report escapes single quotes in source text.
#[test]
fn html_report_escapes_single_quotes() {
    let results = vec![make_result(
        make_mutant("a.py", 1, "op", "x == 'world'", "x != 'world'"),
        MutantStatus::Killed,
    )];
    let report = MutationReport::from_results(
        results,
        1,
        1,
        Duration::from_secs(1),
        None,
    );
    let output = format_html(&report).expect("should format HTML");
    assert!(output.contains("&#39;world&#39;"));
}

/// HTML report groups mutations by file.
#[test]
fn html_report_groups_by_file() {
    let results = vec![
        make_result(
            make_mutant("alpha.py", 1, "op", "+", "-"),
            MutantStatus::Killed,
        ),
        make_result(
            make_mutant("beta.py", 1, "op", "+", "-"),
            MutantStatus::Survived,
        ),
    ];
    let report = MutationReport::from_results(
        results,
        2,
        2,
        Duration::from_secs(1),
        None,
    );
    let output = format_html(&report).expect("should format HTML");
    assert!(output.contains("alpha.py"));
    assert!(output.contains("beta.py"));
}

/// HTML report for empty results produces valid HTML structure.
#[test]
fn html_report_empty_results() {
    let report = MutationReport::from_results(
        Vec::new(),
        0,
        0,
        Duration::from_secs(0),
        None,
    );
    let output = format_html(&report).expect("should format HTML");
    assert!(output.contains("<!DOCTYPE html>"));
    assert!(output.contains("</html>"));
    assert!(output.contains("0.0%"));
}

/// HTML report is self-contained (no external stylesheets).
#[test]
fn html_report_self_contained() {
    let report = MutationReport::from_results(
        Vec::new(),
        0,
        0,
        Duration::from_secs(0),
        None,
    );
    let output = format_html(&report).expect("should format HTML");
    // Should not contain external stylesheet links.
    assert!(!output.contains("<link rel=\"stylesheet\""));
    // Should contain inline styles.
    assert!(output.contains("<style>"));
}

/// HTML report contains closing tags in the right order.
#[test]
fn html_report_closing_tags() {
    let report = MutationReport::from_results(
        Vec::new(),
        0,
        0,
        Duration::from_secs(0),
        None,
    );
    let output = format_html(&report).expect("should format HTML");
    assert!(output.contains("</body>"));
    assert!(output.contains("</html>"));
    // Body should close before html.
    let body_close = output.find("</body>");
    let html_close = output.find("</html>");
    assert!(body_close < html_close);
}

/// HTML report shows multiple mutations on the same line.
#[test]
fn html_report_multiple_mutations_same_line() {
    let results = vec![
        make_result(
            make_mutant("a.py", 5, "ArithmeticOp", "+", "-"),
            MutantStatus::Killed,
        ),
        make_result(
            make_mutant("a.py", 5, "ArithmeticOp", "+", "*"),
            MutantStatus::Killed,
        ),
    ];
    let report = MutationReport::from_results(
        results,
        1,
        2,
        Duration::from_secs(1),
        None,
    );
    let output = format_html(&report).expect("should format HTML");
    // Should show both mutation details.
    assert!(output.contains("<code>-</code>"));
    assert!(output.contains("<code>*</code>"));
    // But only one line header for line 5 (showing the original source text).
    let line5_count = output.matches("<span class=\"line-num\">5</span>").count();
    assert_eq!(line5_count, 1);
}

/// HTML report handles all status types in summary correctly.
#[test]
fn html_report_all_statuses_in_summary() {
    let results = vec![
        make_result(
            make_mutant("a.py", 1, "op", "+", "-"),
            MutantStatus::Killed,
        ),
        make_result(
            make_mutant("a.py", 2, "op", "-", "+"),
            MutantStatus::Survived,
        ),
        make_result(
            make_mutant("a.py", 3, "op", "*", "/"),
            MutantStatus::Timeout,
        ),
        make_result(
            make_mutant("a.py", 4, "op", "/", "*"),
            MutantStatus::NoCoverage,
        ),
        make_result(
            make_mutant("a.py", 5, "op", "==", "!="),
            MutantStatus::Error("oops".to_owned()),
        ),
    ];
    let report = MutationReport::from_results(
        results,
        1,
        5,
        Duration::from_secs(2),
        None,
    );
    let output = format_html(&report).expect("should format HTML");
    assert!(output.contains("Timeout"));
    assert!(output.contains("Errors"));
    assert!(output.contains("No coverage"));
}

/// HTML report shows `[NO COVERAGE]` label in mutation detail.
#[test]
fn html_report_shows_no_coverage_label() {
    let results = vec![make_result(
        make_mutant("a.py", 1, "op", "+", "-"),
        MutantStatus::NoCoverage,
    )];
    let report = MutationReport::from_results(
        results,
        1,
        1,
        Duration::from_secs(1),
        None,
    );
    let output = format_html(&report).expect("should format HTML");
    assert!(output.contains("[NO COVERAGE]"));
}

/// Text report shows seed in header and statistics when set.
#[test]
fn text_report_shows_seed() {
    let report = MutationReport::from_results(
        Vec::new(),
        0,
        0,
        Duration::from_secs(0),
        Some(42),
    );
    let output = format_text(&report, false).expect("should format text");
    assert!(output.contains("(seed: 42)"));
    assert!(output.contains("Seed:               42"));
}

/// Text report omits seed line when seed is None.
#[test]
fn text_report_no_seed_line_when_none() {
    let report = MutationReport::from_results(
        Vec::new(),
        0,
        0,
        Duration::from_secs(0),
        None,
    );
    let output = format_text(&report, false).expect("should format text");
    assert!(!output.contains("Seed:"));
    assert!(!output.contains("seed:"));
}

/// HTML report shows seed in header and summary when set.
#[test]
fn html_report_shows_seed() {
    let report = MutationReport::from_results(
        Vec::new(),
        0,
        0,
        Duration::from_secs(0),
        Some(123),
    );
    let output = format_html(&report).expect("should format HTML");
    assert!(output.contains("(seed: 123)"));
    assert!(output.contains("<tr><td>Seed</td><td>123</td></tr>"));
}

/// HTML report omits seed row when seed is None.
#[test]
fn html_report_no_seed_when_none() {
    let report = MutationReport::from_results(
        Vec::new(),
        0,
        0,
        Duration::from_secs(0),
        None,
    );
    let output = format_html(&report).expect("should format HTML");
    assert!(!output.contains("Seed"));
}

/// HTML report has balanced `<div>` and `</div>` tags.
#[test]
fn html_report_div_tags_balanced() {
    let results = vec![
        make_result(
            make_mutant("a.py", 1, "op", "+", "-"),
            MutantStatus::Killed,
        ),
        make_result(
            make_mutant("a.py", 2, "op", "-", "+"),
            MutantStatus::Survived,
        ),
        make_result(
            make_mutant("b.py", 3, "op", "*", "/"),
            MutantStatus::NoCoverage,
        ),
    ];
    let report = MutationReport::from_results(
        results,
        2,
        3,
        Duration::from_secs(1),
        None,
    );
    let output = format_html(&report).expect("should format HTML");
    let open_divs = output.matches("<div").count();
    let close_divs = output.matches("</div>").count();
    assert_eq!(open_divs, close_divs);
}

/// A report with one result of each kind.
fn mixed_report() -> MutationReport {
    MutationReport::from_results(
        vec![
            make_result(make_mutant("b.py", 2, "op", "a < b", "a > b"), MutantStatus::Survived),
            make_result(make_mutant("a.py", 9, "op", "+", "-"), MutantStatus::Killed),
            make_result(make_mutant("a.py", 3, "op", "x", "y"), MutantStatus::Killed),
            make_result(make_mutant("a.py", 3, "op", "x", "z"), MutantStatus::Timeout),
            make_result(
                make_mutant("a.py", 1, "op", "u", "v"),
                MutantStatus::Skipped { reason: SkipReason::UnmappableTarget },
            ),
        ],
        2,
        5,
        Duration::from_secs(1),
        None,
    )
}

/// Skipped mutants are counted by reason and left out of the score.
#[test]
fn skipped_mutants_are_counted_by_reason() {
    let report = mixed_report();
    assert_eq!(report.skipped, 1);
    assert_eq!(report.mutants_tested, 4);
    assert_eq!(report.skip_reasons.get("unmappable_target"), Some(&1));
    assert_eq!(report.skip_reasons.get("condition_mutation"), None);
    assert_eq!(report.skip_reasons.get("other"), None);
    assert!(!report.skip_reasons.is_empty());
    assert_eq!(report.mutation_score().one_decimal(), "66.7");
    assert_eq!(reason_to_snake_case(&SkipReason::ConditionMutation), "condition_mutation");
    assert_eq!(reason_to_snake_case(&SkipReason::UnsupportedStatement), "unsupported_statement");
    assert_eq!(reason_to_snake_case(&SkipReason::MissingClassScope), "missing_class_scope");
}

/// The whole text report.
#[test]
fn text_report_is_exact() {
    let text = format_text(&mixed_report(), false).expect("should format text");
    assert_eq!(
        text,
        "fest mutation testing report\n----------------------------\nFiles scanned:      2\nMutants generated:  5\nMutants tested:     4\nKilled:             2  (66.7%)\nSurvived:           1  (25.0%)\nTimeout:            1\nErrors:             0\n\nSurvived mutants:\n  b.py:2    op    `a < b` -> `a > b`\n"
    );
    let colored = format_text(&mixed_report(), true).expect("should format text");
    assert!(colored.contains("Killed:             2  (\x1b[31m\x1b[1m66.7%\x1b[0m)"));
}

/// Files are sorted by path, lines by number, and the class of a line is that
/// of all its mutants.
#[test]
fn html_sections_are_exact() {
    let page = format_html(&mixed_report()).expect("should format html");
    let start = page.find("<div class=\"file-section\">").expect("has sections");
    assert_eq!(
        &page[start..],
        "<div class=\"file-section\">\n<h2>a.py</h2>\n<div class=\"line no-coverage\"><span class=\"line-num\">1</span><code>u</code></div>\n<div class=\"mutation-detail\"><span class=\"status-skipped\">[SKIPPED]</span> op: <code>u</code> &rarr; <code>v</code></div>\n<div class=\"line no-coverage\"><span class=\"line-num\">3</span><code>x</code></div>\n<div class=\"mutation-detail\"><span class=\"status-killed\">[KILLED]</span> op: <code>x</code> &rarr; <code>y</code></div>\n<div class=\"mutation-detail\"><span class=\"status-timeout\">[TIMEOUT]</span> op: <code>x</code> &rarr; <code>z</code></div>\n<div class=\"line killed\"><span class=\"line-num\">9</span><code>+</code></div>\n<div class=\"mutation-detail\"><span class=\"status-killed\">[KILLED]</span> op: <code>+</code> &rarr; <code>-</code></div>\n</div>\n<div class=\"file-section\">\n<h2>b.py</h2>\n<div class=\"line survived\"><span class=\"line-num\">2</span><code>a &lt; b</code></div>\n<div class=\"mutation-detail\"><span class=\"status-survived\">[SURVIVED]</span> op: <code>a &lt; b</code> &rarr; <code>a &gt; b</code></div>\n</div>\n</div>\n</body>\n</html>\n"
    );
}

/// All special characters are replaced.
#[test]
fn escaped_text_has_no_markup() {
    assert_eq!(escape_html("<a href=\"x\">&'"), "&lt;a href=&quot;x&quot;&gt;&amp;&#39;");
}

/// The JSON report is laid out in the order of the fields.
#[test]
fn json_report_is_exact() {
    let report = MutationReport::from_results(
        vec![make_result(
            make_mutant("a.py", 1, "op", "+", "-"),
            MutantStatus::Error("boom".to_owned()),
        )],
        1,
        1,
        Duration::from_millis(1500),
        Some(9),
    );
    let json = format_json(&report).expect("should format json");
    assert_eq!(
        json,
        "{\n  \"files_scanned\": 1,\n  \"mutants_generated\": 1,\n  \"mutants_tested\": 1,\n  \"no_coverage\": 0,\n  \"killed\": 0,\n  \"survived\": 0,\n  \"timeouts\": 0,\n  \"errors\": 1,\n  \"skipped\": 0,\n  \"skip_reasons\": {},\n  \"results\": [\n    {\n      \"mutant\": {\n        \"file_path\": \"a.py\",\n        \"line\": 1,\n        \"column\": 1,\n        \"byte_offset\": 0,\n        \"byte_length\": 1,\n        \"original_text\": \"+\",\n        \"mutated_text\": \"-\",\n        \"mutator_name\": \"op\"\n      },\n      \"status\": {\n        \"Error\": \"boom\"\n      },\n      \"tests_run\": [\n        \"test_example\"\n      ],\n      \"duration\": {\n        \"secs\": 0,\n        \"nanos\": 50000000\n      }\n    }\n  ],\n  \"duration\": {\n    \"secs\": 1,\n    \"nanos\": 500000000\n  },\n  \"seed\": 9\n}"
    );
    let skipped = format_json(&mixed_report()).expect("should format json");
    let value: serde_json::Value = serde_json::from_str(&skipped).expect("should be valid JSON");
    assert_eq!(value["skip_reasons"]["unmappable_target"], 1);
    assert_eq!(value["results"][4]["status"]["Skipped"]["reason"], "unmappable_target");
    assert!(value["seed"].is_null());
}

/// The survived percentage is the complement of the score.
#[test]
fn survived_percentage_is_the_complement_of_the_score() {
    let statuses = [
        MutantStatus::Killed,
        MutantStatus::Survived,
        MutantStatus::Timeout,
        MutantStatus::Timeout,
    ];
    let results = statuses
        .into_iter()
        .map(|status| make_result(make_mutant("a.py", 1, "m", "+", "-"), status))
        .collect();
    let report = MutationReport::from_results(results, 1, 4, Duration::from_secs(1), None);
    assert_eq!(report.mutants_tested, 4);
    let output = format_text(&report, false).expect("should format text");
    assert!(output.contains("Killed:             1  (50.0%)\n"));
    assert!(output.contains("Survived:           1  (50.0%)\n"));
}

/// Escaping goes over concatenation and keeps plain text.
#[test]
fn escaping_goes_over_concatenation() {
    let (a, b) = ("a<&amp;", "lt;'b");
    assert_eq!(escape_html(&format!("{a}{b}")), escape_html(a) + &escape_html(b));
    assert_eq!(escape_html("plain; text #39"), "plain; text #39");
    assert_eq!(escape_html("&lt;"), "&amp;lt;");
}
