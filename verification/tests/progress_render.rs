//! Render modes and what is shown for events.
use fest::cli::ProgressStyle;
use fest::double::Double;
use fest::duration::Duration;
use fest::mutation::mutant::{Mutant, MutantResult, MutantStatus};
use fest::progress::event::{MutantDisplay, RenderEvent, SummaryInfo};
use fest::progress::render::{RenderAction, RenderState};
use fest::progress::reporter::{resolve_render_mode, RenderMode};

/// Verbose flag overrides any progress style.
#[test]
fn resolve_verbose_flag_overrides_progress() {
    assert_eq!(
        resolve_render_mode(true, ProgressStyle::Auto, false),
        RenderMode::Verbose
    );
    assert_eq!(
        resolve_render_mode(true, ProgressStyle::Quiet, false),
        RenderMode::Verbose
    );
}

/// Explicit progress styles map to the expected modes.
#[test]
fn resolve_explicit_modes() {
    assert_eq!(
        resolve_render_mode(false, ProgressStyle::Fancy, false),
        RenderMode::Fancy
    );
    assert_eq!(
        resolve_render_mode(false, ProgressStyle::Plain, false),
        RenderMode::Plain
    );
    assert_eq!(
        resolve_render_mode(false, ProgressStyle::Verbose, false),
        RenderMode::Verbose
    );
    assert_eq!(
        resolve_render_mode(false, ProgressStyle::Quiet, false),
        RenderMode::Quiet
    );
}

#[test]
fn auto_depends_on_the_terminal() {
    assert_eq!(resolve_render_mode(false, ProgressStyle::Auto, true), RenderMode::Fancy);
    assert_eq!(resolve_render_mode(false, ProgressStyle::Auto, false), RenderMode::Quiet);
}

/// A summary of a killed mutant.
fn display() -> MutantDisplay {
    MutantDisplay {
        status: MutantStatus::Killed,
        file_path: "a.py".to_owned(),
        line: 1,
        mutator_name: "op".to_owned(),
        original_text: "+".to_owned(),
        mutated_text: "-".to_owned(),
        duration: Duration::from_millis(3),
    }
}

/// One event of each kind.
fn all_events() -> Vec<RenderEvent> {
    vec![
        RenderEvent::PhaseStart { label: "Testing".to_owned() },
        RenderEvent::PhaseComplete {
            detail: "Done".to_owned(),
            count_detail: Some("2 files".to_owned()),
            elapsed: Duration::from_millis(10),
        },
        RenderEvent::MutantsStart { total: 1 },
        RenderEvent::MutantCompleted { index: 0, total: 1, summary: display() },
        RenderEvent::MutantsFinish { cancelled: false },
        RenderEvent::Warning { message: "careful".to_owned() },
        RenderEvent::FinalSummary(SummaryInfo {
            score: Double { bits: 100.0_f64.to_bits() },
            killed: 1,
            survived: 0,
            timeouts: 0,
            errors: 0,
            no_coverage: 0,
            duration: Duration::from_secs(1),
        }),
        RenderEvent::Shutdown,
    ]
}

/// What is done for the events in a mode.
fn run(mode: RenderMode, is_terminal: bool) -> Vec<RenderAction> {
    let mut state = RenderState::new(mode, is_terminal);
    let mut out = state.write_banner();
    for event in all_events() {
        out.extend(state.handle_event(&event));
    }
    out
}

fn line(text: &str) -> RenderAction {
    RenderAction::WriteLine(text.to_owned())
}

#[test]
fn quiet_shows_nothing() {
    assert!(run(RenderMode::Quiet, true).is_empty());
}

#[test]
fn plain_shows_uncolored_lines() {
    assert_eq!(
        run(RenderMode::Plain, true),
        vec![
            line("fest v0.1.0 — mutation testing for Python"),
            line(""),
            line("  Done (2 files)  10ms"),
            line("  warning: careful"),
            line(""),
            line("  Mutation Score: 100.0%  |  Killed: 1  Survived: 0  Timeout: 0  Errors: 0"),
        ]
    );
}

#[test]
fn fancy_shows_a_spinner_and_a_bar() {
    let actions = run(RenderMode::Fancy, true);
    assert_eq!(actions[2], RenderAction::StartSpinner("Testing".to_owned()));
    assert_eq!(actions[3], RenderAction::ClearSpinner);
    assert_eq!(
        actions[4],
        line("  \x1b[32m\x1b[1m✔\x1b[0m Done (2 files)  \x1b[2m10ms\x1b[0m")
    );
    assert_eq!(actions[5], RenderAction::StartBar(1));
    assert_eq!(actions[6], RenderAction::AdvanceBar);
    assert_eq!(actions[7], RenderAction::ClearBar);
    assert_eq!(actions[8], line("  \x1b[33m\x1b[1m⚠\x1b[0m careful"));
}

#[test]
fn fancy_without_a_terminal_shows_lines_only() {
    for action in run(RenderMode::Fancy, false) {
        assert!(matches!(action, RenderAction::WriteLine(_)));
    }
}

#[test]
fn verbose_shows_each_mutant() {
    let actions = run(RenderMode::Verbose, false);
    assert!(actions.iter().any(|a| matches!(a, RenderAction::WriteLine(l) if l.contains("[1/1]"))));
}

#[test]
fn verbose_shows_lines_only() {
    for action in run(RenderMode::Verbose, true) {
        assert!(matches!(action, RenderAction::WriteLine(_)));
    }
}

#[test]
fn a_cancelled_bar_is_abandoned() {
    let mut state = RenderState::new(RenderMode::Fancy, true);
    state.handle_event(&RenderEvent::MutantsStart { total: 4 });
    assert_eq!(
        state.handle_event(&RenderEvent::MutantsFinish { cancelled: true }),
        vec![RenderAction::AbandonBar("cancelled".to_owned())]
    );
    assert!(state.handle_event(&RenderEvent::MutantsFinish { cancelled: true }).is_empty());
}

#[test]
fn a_display_holds_what_is_shown_of_a_result() {
    let result = MutantResult {
        mutant: Mutant {
            file_path: "src/app.py".to_owned(),
            line: 7,
            column: 2,
            byte_offset: 40,
            byte_length: 1,
            original_text: "+".to_owned(),
            mutated_text: "-".to_owned(),
            mutator_name: "arithmetic_op".to_owned(),
        },
        status: MutantStatus::Survived,
        tests_run: vec!["t".to_owned()],
        duration: Duration::from_millis(20),
    };
    let display = MutantDisplay::of(&result);
    assert_eq!(display.status, MutantStatus::Survived);
    assert_eq!(display.file_path, "src/app.py");
    assert_eq!(display.line, 7);
    assert_eq!(display.mutator_name, "arithmetic_op");
    assert_eq!(display.original_text, "+");
    assert_eq!(display.mutated_text, "-");
    assert_eq!(display.duration, Duration::from_millis(20));
}
