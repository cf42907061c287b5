//! Phases of a run, the coverage cache and the session steps.
use fest::coverage::{coverage_format, is_coverage_cache_fresh, CoverageFormat};
use fest::duration::Duration;
use fest::pipeline::{session_steps, SessionStep};
use fest::progress::event::RenderEvent;
use fest::progress::phase::{Phase, PhaseDetail};

fn at(secs: u64, nanos: u32) -> Option<Duration> {
    Some(Duration { secs, nanos })
}

#[test]
fn phase_start_has_its_label() {
    let event = Phase::Coverage.start();
    assert!(matches!(event, RenderEvent::PhaseStart { label } if label == "Collecting coverage"));
}

#[test]
fn phase_completion_counts_in_its_unit() {
    let cases = [
        (Phase::Registry, "Mutator registry built", "17 mutators"),
        (Phase::Discovery, "Source files discovered", "17 files"),
        (Phase::Generation, "Mutants generated", "17 mutants"),
        (Phase::Workers, "Test workers ready", "17 workers"),
    ];
    for (phase, text, count) in cases {
        match phase.complete(PhaseDetail::Count(17), Duration::from_millis(5)) {
            RenderEvent::PhaseComplete { detail, count_detail, elapsed } => {
                assert_eq!(detail, text);
                assert_eq!(count_detail.as_deref(), Some(count));
                assert_eq!(elapsed, Duration::from_millis(5));
            }
            other => panic!("unexpected event {other:?}"),
        }
    }
}

#[test]
fn phase_completion_without_detail() {
    match Phase::Coverage.complete(PhaseDetail::Nothing, Duration::from_secs(1)) {
        RenderEvent::PhaseComplete { count_detail, .. } => assert_eq!(count_detail, None),
        other => panic!("unexpected event {other:?}"),
    }
    let file = PhaseDetail::File("fest.toml".to_owned());
    match Phase::Configuration.complete(file, Duration::from_secs(1)) {
        RenderEvent::PhaseComplete { count_detail, .. } => {
            assert_eq!(count_detail.as_deref(), Some("fest.toml"));
        }
        other => panic!("unexpected event {other:?}"),
    }
}

#[test]
fn cache_is_fresh_when_all_files_are_older() {
    assert!(is_coverage_cache_fresh(at(10, 0), &vec![at(9, 999), at(3, 0)]));
    assert!(is_coverage_cache_fresh(at(10, 0), &vec![]));
}

#[test]
fn cache_is_stale_when_a_file_is_not_older() {
    assert!(!is_coverage_cache_fresh(at(10, 0), &vec![at(3, 0), at(10, 0)]));
    assert!(!is_coverage_cache_fresh(at(10, 5), &vec![at(10, 6)]));
    assert!(!is_coverage_cache_fresh(at(10, 0), &vec![None]));
    assert!(!is_coverage_cache_fresh(None, &vec![]));
}

#[test]
fn json_files_are_reports_and_others_databases() {
    assert_eq!(coverage_format("report.json"), CoverageFormat::Json);
    assert_eq!(coverage_format(".coverage.json"), CoverageFormat::Json);
    assert_eq!(coverage_format(".coverage"), CoverageFormat::Database);
    assert_eq!(coverage_format(".json"), CoverageFormat::Database);
}

#[test]
fn session_is_reset_before_it_is_brought_up_to_date() {
    assert_eq!(session_steps(false, false), vec![SessionStep::StoreMetadata]);
    assert_eq!(
        session_steps(true, true),
        vec![
            SessionStep::DeleteMutants,
            SessionStep::ResetChangedFiles,
            SessionStep::StoreMetadata
        ]
    );
}
