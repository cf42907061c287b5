//! Formatting of progress output.
use fest::double::Double;
use fest::duration::Duration;
use fest::mutation::mutant::{MutantStatus, SkipReason};
use fest::progress::event::{MutantDisplay, SummaryInfo};
use fest::progress::style::{
    format_banner, format_colored_mutant_line, format_duration, format_mutant_line,
    format_status_tag, format_summary_line, styled_score,
};

#[test]
fn format_duration_milliseconds() {
    let dur = Duration::from_millis(42);
    assert_eq!(format_duration(dur), "42ms");
}

#[test]
fn format_duration_seconds() {
    let dur = Duration::from_millis(4200);
    assert_eq!(format_duration(dur), "4.2s");
}

#[test]
fn format_duration_minutes() {
    let dur = Duration::from_secs(154);
    assert_eq!(format_duration(dur), "2m 34s");
}

#[test]
fn format_duration_exact_minute() {
    let dur = Duration::from_secs(60);
    assert_eq!(format_duration(dur), "1m 0s");
}

#[test]
fn format_duration_zero() {
    let dur = Duration::from_millis(0);
    assert_eq!(format_duration(dur), "0ms");
}

#[test]
fn format_duration_boundary_999ms() {
    let dur = Duration::from_millis(999);
    assert_eq!(format_duration(dur), "999ms");
}

#[test]
fn format_duration_boundary_1000ms() {
    let dur = Duration::from_millis(1000);
    assert_eq!(format_duration(dur), "1.0s");
}

#[test]
fn status_tag_mapping() {
    assert_eq!(format_status_tag(&MutantStatus::Killed), "KILLED");
    assert_eq!(format_status_tag(&MutantStatus::Survived), "SURVIVED");
    assert_eq!(format_status_tag(&MutantStatus::Timeout), "TIMEOUT");
    assert_eq!(format_status_tag(&MutantStatus::NoCoverage), "NO_COV");
    assert_eq!(
        format_status_tag(&MutantStatus::Error("oops".to_owned())),
        "ERROR"
    );
}

#[test]
fn format_mutant_line_killed() {
    let summary = MutantDisplay {
        status: MutantStatus::Killed,
        file_path: "src/app.py".to_owned(),
        line: 5,
        mutator_name: "arithmetic_op".to_owned(),
        original_text: "+".to_owned(),
        mutated_text: "-".to_owned(),
        duration: Duration::from_millis(125),
    };
    let line = format_mutant_line(41, 847, &summary);
    assert!(line.starts_with("[42/847]"));
    assert!(line.contains("KILLED"));
    assert!(line.contains("src/app.py:5"));
    assert!(line.contains("arithmetic_op"));
    assert!(line.contains("`+` -> `-`"));
    assert!(line.contains("(125ms)"));
}

#[test]
fn format_mutant_line_one_based_index() {
    let summary = MutantDisplay {
        status: MutantStatus::Survived,
        file_path: "src/app.py".to_owned(),
        line: 1,
        mutator_name: "op".to_owned(),
        original_text: "+".to_owned(),
        mutated_text: "-".to_owned(),
        duration: Duration::from_millis(10),
    };
    let line = format_mutant_line(0, 10, &summary);
    assert!(line.starts_with("[1/10]"));
}

#[test]
fn format_banner_plain() {
    let banner = format_banner(false);
    assert!(banner.starts_with("fest v"));
    assert!(banner.contains("mutation testing for Python"));
    // No ANSI escape codes.
    assert!(!banner.contains("\x1b["));
}

#[test]
fn format_banner_colored() {
    let banner = format_banner(true);
    assert!(banner.contains("fest"));
    assert!(banner.contains("mutation testing for Python"));
    // Should contain ANSI escape codes.
    assert!(banner.contains("\x1b["));
}

#[test]
fn format_summary_plain() {
    let info = SummaryInfo {
        score: Double { bits: 93.8_f64.to_bits() },
        killed: 750,
        survived: 50,
        timeouts: 0,
        errors: 0,
        no_coverage: 47,
        duration: Duration::from_secs(154),
    };
    let line = format_summary_line(&info, false);
    assert!(line.contains("93.8%"));
    assert!(line.contains("Killed: 750"));
    assert!(line.contains("Survived: 50"));
    assert!(!line.contains("\x1b["));
}

#[test]
fn format_summary_colored() {
    let info = SummaryInfo {
        score: Double { bits: 93.8_f64.to_bits() },
        killed: 750,
        survived: 50,
        timeouts: 0,
        errors: 0,
        no_coverage: 47,
        duration: Duration::from_secs(154),
    };
    let line = format_summary_line(&info, true);
    assert!(line.contains("93.8%"));
    assert!(line.contains("\x1b[")); // ANSI present
}

/// A summary of a mutant with the given status.
fn display(status: MutantStatus) -> MutantDisplay {
    MutantDisplay {
        status,
        file_path: "src/app.py".to_owned(),
        line: 5,
        mutator_name: "arithmetic_op".to_owned(),
        original_text: "+".to_owned(),
        mutated_text: "-".to_owned(),
        duration: Duration::from_millis(125),
    }
}

#[test]
fn mutant_line_is_exact() {
    assert_eq!(
        format_mutant_line(41, 847, &display(MutantStatus::Killed)),
        "[42/847] KILLED     src/app.py:5  arithmetic_op  `+` -> `-`  (125ms)"
    );
}

#[test]
fn colored_mutant_line_is_exact() {
    assert_eq!(
        format_colored_mutant_line(0, 3, &display(MutantStatus::Killed)),
        "  [1/3] \x1b[32m\x1b[1m✔\x1b[0m \x1b[32m\x1b[1mKILLED    \x1b[0m \x1b[36msrc/app.py:5\x1b[0m  \x1b[2marithmetic_op\x1b[0m  `+` -> `-`  \x1b[2m(125ms)\x1b[0m"
    );
}

#[test]
fn colored_lines_differ_by_status() {
    let survived = format_colored_mutant_line(0, 1, &display(MutantStatus::Survived));
    assert!(survived.contains("\x1b[31m\x1b[1m✘\x1b[0m"));
    let failed = format_colored_mutant_line(0, 1, &display(MutantStatus::Error("x".to_owned())));
    assert!(failed.contains("\x1b[31m\x1b[1mERROR     \x1b[0m"));
    let timeout = format_colored_mutant_line(0, 1, &display(MutantStatus::Timeout));
    assert!(timeout.contains("\x1b[33m\x1b[1m✘\x1b[0m"));
    let uncovered = format_colored_mutant_line(0, 1, &display(MutantStatus::NoCoverage));
    assert!(uncovered.contains("\x1b[2m∅\x1b[0m \x1b[2mNO_COV    \x1b[0m"));
    let skipped = MutantStatus::Skipped { reason: SkipReason::ConditionMutation };
    assert_eq!(format_status_tag(&skipped), "SKIPPED");
    assert!(format_colored_mutant_line(0, 1, &display(skipped)).contains("SKIPPED"));
}

#[test]
fn score_color_follows_thresholds() {
    let at = |score: f64| styled_score("s", Double { bits: score.to_bits() }, true);
    assert_eq!(at(90.0), "\x1b[32m\x1b[1ms\x1b[0m");
    assert_eq!(at(89.9), "\x1b[33m\x1b[1ms\x1b[0m");
    assert_eq!(at(70.0), "\x1b[33m\x1b[1ms\x1b[0m");
    assert_eq!(at(69.9), "\x1b[31m\x1b[1ms\x1b[0m");
    assert_eq!(at(-1.0), "\x1b[31m\x1b[1ms\x1b[0m");
    assert_eq!(styled_score("s", Double { bits: 95.0_f64.to_bits() }, false), "s");
}

#[test]
fn summary_line_is_exact() {
    let info = SummaryInfo {
        score: Double { bits: 93.75_f64.to_bits() },
        killed: 750,
        survived: 50,
        timeouts: 2,
        errors: 1,
        no_coverage: 47,
        duration: Duration::from_secs(154),
    };
    assert_eq!(
        format_summary_line(&info, false),
        "  Mutation Score: 93.8%  |  Killed: 750  Survived: 50  Timeout: 2  Errors: 1"
    );
}

#[test]
fn banner_is_exact() {
    assert_eq!(format_banner(false), "fest v0.1.0 — mutation testing for Python");
    assert_eq!(
        format_banner(true),
        "\x1b[36m\x1b[1mfest\x1b[0m \x1b[2mv0.1.0\x1b[0m — mutation testing for Python"
    );
}
