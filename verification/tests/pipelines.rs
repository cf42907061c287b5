//! The decisions of a run.
use fest::config::types::{FestConfig, OutputFormat};
use fest::coverage::CoverageMap;
use fest::double::Double;
use fest::duration::Duration;
use fest::mutation::mutant::{Mutant, MutantResult, MutantStatus};
use fest::pipeline::{
    build_source_cache, check_final_status, collect_results, find_changed_source_files, format_output,
    is_report_colored, needed_sources, plan_mutant, resolve_project_dir, session_files, summarize,
    MutantPlan, SourceCache,
};
use fest::progress::reporter::RenderMode;
use fest::report::types::MutationReport;
use fest::Error;

/// A mutant in `src/app.py`.
fn test_mutant() -> Mutant {
    Mutant {
        file_path: "src/app.py".to_owned(),
        line: 1,
        column: 1,
        byte_offset: 0,
        byte_length: 1,
        original_text: "+".to_owned(),
        mutated_text: "-".to_owned(),
        mutator_name: "arithmetic_op".to_owned(),
    }
}

/// `resolve_project_dir` returns the parent of a config path.
#[test]
fn resolve_project_dir_from_config_path() {
    let dir = resolve_project_dir(Some("/home/user/project/fest.toml"), Ok("/cwd"))
        .expect("should resolve");
    assert_eq!(dir, "/home/user/project");
}

/// `resolve_project_dir` falls back to the current working directory.
#[test]
fn resolve_project_dir_cwd_fallback() {
    assert_eq!(resolve_project_dir(None, Ok("/cwd")).expect("should resolve"), "/cwd");
    let result = resolve_project_dir(None, Err("gone"));
    assert!(matches!(result, Err(Error::Config(m))
        if m == "failed to determine current directory: gone"));
}

/// `resolve_project_dir` handles a config path with no parent
/// (bare filename) by returning `"."`.
#[test]
fn resolve_project_dir_bare_filename() {
    assert_eq!(resolve_project_dir(Some("fest.toml"), Ok("/cwd")).expect("should resolve"), ".");
}

/// Parents of unusual paths.
#[test]
fn parents_of_unusual_paths() {
    let parent = |path: &str| resolve_project_dir(Some(path), Ok("/cwd")).expect("should resolve");
    assert_eq!(parent("/fest.toml"), "/");
    assert_eq!(parent("/"), ".");
    assert_eq!(parent(""), ".");
    assert_eq!(parent("./fest.toml"), ".");
    assert_eq!(parent("a//b/./fest.toml"), "a//b");
    assert_eq!(parent("a/b/"), "a");
    assert_eq!(parent("../fest.toml"), "..");
}

/// `build_source_cache` reads covered files into the cache.
#[test]
fn build_source_cache_reads_covered_files() {
    let mutant = Mutant { file_path: "/d/cached.py".to_owned(), ..test_mutant() };
    let mut coverage = CoverageMap::new();
    coverage.insert("/d/cached.py", 1, vec!["test_app.py::test_it".to_owned()]);

    let files = needed_sources(&[mutant.clone(), mutant], &coverage);
    assert_eq!(files, vec!["/d/cached.py"]);
    let cache =
        build_source_cache(&files, &vec![Ok("x = 1 + 2\n".to_owned())]).expect("should build");
    assert_eq!(cache.get("/d/cached.py").map(String::as_str), Some("x = 1 + 2\n"));
    assert_eq!(cache.get("/d/./cached.py").map(String::as_str), Some("x = 1 + 2\n"));
    assert_eq!(cache.get("/d/other.py"), None);
    assert!(!cache.is_empty());
}

/// `build_source_cache` skips files with no coverage.
#[test]
fn build_source_cache_skips_uncovered() {
    let files = needed_sources(&[test_mutant()], &CoverageMap::new());
    assert!(files.is_empty());
    let cache = build_source_cache(&files, &Vec::new()).expect("should build");
    assert!(cache.is_empty());
}

/// `build_source_cache` returns an error for a non-existent file.
#[test]
fn build_source_cache_missing_file_errors() {
    let path = "/nonexistent/path/missing.py";
    let mutant = Mutant { file_path: path.to_owned(), ..test_mutant() };
    let mut coverage = CoverageMap::new();
    coverage.insert(path, 1, vec!["test.py::test_x".to_owned()]);
    let files = needed_sources(&[mutant], &coverage);
    let result = build_source_cache(&files, &vec![Err("No such file".to_owned())]);
    assert!(matches!(result, Err(Error::Mutation(m))
        if m == "failed to read source file /nonexistent/path/missing.py: No such file"));
}

/// Runs mutants that need no tests.
fn run_mutants(
    mutants: &[Mutant],
    coverage: &CoverageMap,
    cancelled: bool,
) -> Result<(Vec<MutantResult>, bool), Error> {
    let cache = SourceCache::new();
    let mut outcomes = Vec::new();
    for mutant in mutants {
        outcomes.push(match plan_mutant(cancelled, mutant, coverage, &cache) {
            Ok(MutantPlan::Cancel) => Ok(None),
            Ok(MutantPlan::Skip(result)) => Ok(Some(result)),
            Ok(MutantPlan::Run { .. }) => panic!("no tests to run"),
            Err(error) => Err(error),
        });
    }
    collect_results(outcomes)
}

/// Mutants are marked as `NoCoverage` when the coverage map is empty.
#[test]
fn run_mutants_no_coverage_when_map_empty() {
    let (results, cancelled) =
        run_mutants(&[test_mutant()], &CoverageMap::new(), false).expect("should succeed");
    assert!(!cancelled);
    assert_eq!(results.len(), 1);
    assert_eq!(results[0].status, MutantStatus::NoCoverage);
    assert!(results[0].tests_run.is_empty());
    assert_eq!(results[0].duration, Duration::from_secs(0));
    assert_eq!(results[0].mutant, test_mutant());
}

/// Mutants are marked as `NoCoverage` when their line is not covered.
#[test]
fn run_mutants_no_coverage_when_line_not_covered() {
    let mutant = Mutant { line: 10, byte_offset: 50, ..test_mutant() };
    let mut coverage = CoverageMap::new();
    coverage.insert("src/app.py", 5, vec!["test_app.py::test_something".to_owned()]);
    let (results, cancelled) = run_mutants(&[mutant], &coverage, false).expect("should succeed");
    assert!(!cancelled);
    assert_eq!(results.len(), 1);
    assert_eq!(results[0].status, MutantStatus::NoCoverage);
}

/// Mutants are marked as `NoCoverage` when the covering test list is empty.
#[test]
fn run_mutants_no_coverage_when_test_list_empty() {
    let mut coverage = CoverageMap::new();
    coverage.insert("src/app.py", 1, Vec::new());
    let (results, cancelled) =
        run_mutants(&[test_mutant()], &coverage, false).expect("should succeed");
    assert!(!cancelled);
    assert_eq!(results.len(), 1);
    assert_eq!(results[0].status, MutantStatus::NoCoverage);
}

/// No mutants give no results.
#[test]
fn run_mutants_empty_slice() {
    let (results, cancelled) =
        run_mutants(&[], &CoverageMap::new(), false).expect("should succeed");
    assert!(!cancelled);
    assert!(results.is_empty());
}

/// A cancelled run returns partial results.
#[test]
fn run_mutants_cancelled_returns_partial() {
    let mutants: Vec<Mutant> =
        (0..5_u32).map(|idx| Mutant { line: idx + 1, ..test_mutant() }).collect();
    let (results, cancelled) =
        run_mutants(&mutants, &CoverageMap::new(), true).expect("should succeed");
    assert!(cancelled);
    assert!(results.is_empty());
}

/// Results keep the order of the mutants.
#[test]
fn run_mutants_parallel_preserves_order() {
    let mutants: Vec<Mutant> = (0..20_u32)
        .map(|idx| Mutant {
            file_path: format!("src/mod_{idx}.py"),
            line: idx + 1,
            ..test_mutant()
        })
        .collect();
    let (results, cancelled) =
        run_mutants(&mutants, &CoverageMap::new(), false).expect("should succeed");
    assert!(!cancelled);
    assert_eq!(results.len(), 20);
    for (idx, result) in results.iter().enumerate() {
        assert_eq!(result.mutant.line as usize, idx + 1);
        assert_eq!(result.status, MutantStatus::NoCoverage);
    }
}

/// A covered mutant is run on its source, with its tests.
#[test]
fn covered_mutants_are_run() {
    let mut coverage = CoverageMap::new();
    coverage.insert("src/app.py", 1, vec!["t.py::a".to_owned(), "t.py::b".to_owned()]);
    let files = needed_sources(&[test_mutant()], &coverage);
    let cache = build_source_cache(&files, &vec![Ok("+1".to_owned())]).expect("should build");
    let mutant = test_mutant();
    match plan_mutant(false, &mutant, &coverage, &cache) {
        Ok(MutantPlan::Run { source, tests }) => {
            assert_eq!(source, "+1");
            assert_eq!(tests, &vec!["t.py::a".to_owned(), "t.py::b".to_owned()]);
        }
        other => panic!("expected a run, got {other:?}"),
    }
    let missing = plan_mutant(false, &mutant, &coverage, &SourceCache::new()).map(|_| ());
    assert!(matches!(missing, Err(Error::Mutation(m))
        if m == "source cache missing for covered file src/app.py"));
}

/// The first error ends the collection of results.
#[test]
fn the_first_error_is_returned() {
    let outcomes = vec![
        Ok(None),
        Err(Error::Runner("first".to_owned())),
        Err(Error::Runner("second".to_owned())),
    ];
    assert!(matches!(collect_results(outcomes), Err(Error::Runner(m)) if m == "first"));
}

/// A report with killed and survived mutants.
fn report(killed: usize, survived: usize) -> MutationReport {
    let mut results = Vec::new();
    for status in std::iter::repeat(MutantStatus::Killed)
        .take(killed)
        .chain(std::iter::repeat(MutantStatus::Survived).take(survived))
    {
        results.push(MutantResult {
            mutant: test_mutant(),
            status,
            tests_run: Vec::new(),
            duration: Duration::from_secs(0),
        });
    }
    MutationReport::from_results(results, 1, killed + survived, Duration::from_secs(2), None)
}

/// A configuration with a threshold.
fn with_threshold(threshold: f64) -> FestConfig {
    let mut config = FestConfig::default();
    config.fail_under = Some(Double { bits: threshold.to_bits() });
    config
}

/// A run fails when it was cancelled or its score is too low.
#[test]
fn final_status_follows_cancellation_and_threshold() {
    let config = FestConfig::default();
    assert!(check_final_status(false, &report(0, 3), &config).is_ok());
    assert!(matches!(
        check_final_status(true, &report(3, 0), &config),
        Err(Error::Cancelled(m))
            if m == "run interrupted by signal; partial results reported above"
    ));
    assert!(check_final_status(false, &report(4, 1), &with_threshold(80.0)).is_ok());
    assert!(matches!(
        check_final_status(false, &report(2, 1), &with_threshold(80.0)),
        Err(Error::Threshold(m))
            if m == "mutation score 66.7% is below the required threshold of 80.0%"
    ));
    assert!(check_final_status(false, &report(0, 1), &with_threshold(-1.0)).is_ok());
    assert!(matches!(
        check_final_status(false, &report(1, 0), &with_threshold(f64::NAN)),
        Err(Error::Threshold(m))
            if m == "mutation score 100.0% is below the required threshold of NaN%"
    ));
    assert!(matches!(
        check_final_status(false, &report(1, 0), &with_threshold(1e30)),
        Err(Error::Threshold(m)) if m == format!(
            "mutation score 100.0% is below the required threshold of {:.1}%", 1e30_f64)
    ));
}

/// The scoreboard holds the counters of the report.
#[test]
fn summaries_hold_the_counters() {
    let info = summarize(&report(3, 1), Duration::from_secs(9));
    assert_eq!(f64::from_bits(info.score.bits), 75.0);
    assert_eq!((info.killed, info.survived), (3, 1));
    assert_eq!((info.timeouts, info.errors, info.no_coverage), (0, 0, 0));
    assert_eq!(info.duration, Duration::from_secs(9));
}

/// Colors need a colored mode and a terminal.
#[test]
fn report_colors_need_a_terminal() {
    assert!(is_report_colored(RenderMode::Fancy, true));
    assert!(is_report_colored(RenderMode::Verbose, true));
    assert!(!is_report_colored(RenderMode::Plain, true));
    assert!(!is_report_colored(RenderMode::Quiet, true));
    assert!(!is_report_colored(RenderMode::Fancy, false));
}

/// The files of a session are sorted, each once, and those that are newer
/// than the last run have changed.
#[test]
fn changed_files_of_a_session() {
    let in_file = |path: &str| Mutant { file_path: path.to_owned(), ..test_mutant() };
    let pending = vec![in_file("b.py"), in_file("a.py"), in_file("b.py")];
    let completed = vec![MutantResult {
        mutant: in_file("a/c.py"),
        status: MutantStatus::Killed,
        tests_run: Vec::new(),
        duration: Duration::from_secs(0),
    }];
    let files = session_files(&pending, &completed);
    assert_eq!(files, vec!["a/c.py", "a.py", "b.py"]);
    let modified = vec![
        Some(Duration { secs: 100, nanos: 0 }),
        Some(Duration { secs: 100, nanos: 1 }),
        None,
    ];
    assert_eq!(find_changed_source_files(Some("100"), &files, &modified), vec!["a.py"]);
    assert_eq!(
        find_changed_source_files(Some("not a time"), &files, &modified),
        vec!["a/c.py", "a.py"]
    );
    assert!(find_changed_source_files(None, &files, &modified).is_empty());
}

/// Fancy output does not list survived mutants; other modes do.
#[test]
fn fancy_text_has_no_listing() {
    let report = report(1, 1);
    let format = OutputFormat::Text;
    let fancy = format_output(&report, &format, RenderMode::Fancy, false).expect("text");
    assert!(fancy.contains("Survived:           1  (50.0%)"));
    assert!(!fancy.contains("Survived mutants:"));
    let plain = format_output(&report, &format, RenderMode::Plain, true).expect("text");
    assert!(plain.starts_with(&fancy));
    assert!(plain.contains("Survived mutants:"));
    let page = format_output(&report, &OutputFormat::Html, RenderMode::Fancy, true).expect("page");
    assert!(page.starts_with("<!DOCTYPE html>"));
}
