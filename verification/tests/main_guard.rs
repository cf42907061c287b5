//! Main guards.
use fest::ast::Span;
use fest::mutation::main_guard::{is_inside_any, main_guard_ranges};
use fest::parse::parse_module;

/// The guard ranges of a source.
fn ranges(source: &str) -> Vec<Span> {
    main_guard_ranges(&parse_module(source).expect("valid Python"))
}

/// A plain guard covers the `if` line and its body, nothing before.
#[test]
fn plain_guard_spans_test_and_body() {
    let source = "x = 1\nif __name__ == \"__main__\":\n    main()\n";
    let found = ranges(source);
    assert_eq!(found.len(), 1);
    let guard_start = source.find("if ").expect("if present");
    assert_eq!(found[0].start, guard_start);
    assert_eq!(found[0].end, source.trim_end().len());
}

/// `elif`/`else` clauses are not part of the excluded range.
#[test]
fn else_clause_is_outside_range() {
    let source = "if __name__ == \"__main__\":\n    a()\nelse:\n    b()\n";
    let found = ranges(source);
    let else_pos = source.find("else").expect("else present");
    assert!(!is_inside_any(&found, else_pos));
    assert!(is_inside_any(
        &found,
        source.find("a()").expect("a() present")
    ));
}

/// Other comparisons and operators are not guards.
#[test]
fn non_guard_ifs_are_ignored() {
    assert!(ranges("if __name__ != \"__main__\":\n    pass\n").is_empty());
    assert!(ranges("if __name__ == \"__other__\":\n    pass\n").is_empty());
    assert!(ranges("if name == \"__main__\":\n    pass\n").is_empty());
    assert!(ranges("if __name__ == \"__main__\" == x:\n    pass\n").is_empty());
}

/// Only module-level statements count.
#[test]
fn nested_guard_is_ignored() {
    assert!(ranges("def f():\n    if __name__ == \"__main__\":\n        pass\n").is_empty());
}

/// Reversed operands are recognised.
#[test]
fn reversed_operands_are_a_guard() {
    assert_eq!(
        ranges("if \"__main__\" == __name__:\n    pass\n").len(),
        1
    );
}
