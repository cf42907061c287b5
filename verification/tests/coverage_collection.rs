//! Collection of coverage data and the map that holds it.
use fest::config::types::FestConfig;
use fest::coverage::{
    begin_collection, collect_coverage, command_arguments, json_path, resolve_coverage,
    CollectStep, CommandOutcome, CoverageCommand, CoverageMap, CoverageSource,
    COVERAGE_JSON_FILENAME,
};
use fest::Error;

/// A command that has ended.
fn ended(success: bool, stderr: &str) -> CommandOutcome {
    CommandOutcome::Ended { success, stderr: stderr.to_owned() }
}

/// A command that could not be started.
fn not_spawned(problem: &str) -> CommandOutcome {
    CommandOutcome::NotSpawned(problem.to_owned())
}

/// The message of a coverage error.
fn message(result: Result<CollectStep, Error>) -> String {
    match result {
        Err(Error::Coverage(m)) => m,
        other => panic!("expected a coverage error, got {other:?}"),
    }
}

/// Without `pytest-cov` the collection ends.
#[test]
fn check_pytest_cov_error_message() {
    assert_eq!(begin_collection(), CollectStep::Run(CoverageCommand::CheckPlugin));
    assert_eq!(
        command_arguments(CoverageCommand::CheckPlugin, "/proj"),
        vec!["-c", "import pytest_cov"]
    );
    assert_eq!(
        message(collect_coverage(CoverageCommand::CheckPlugin, &ended(false, "no module"))),
        "pytest-cov is not available (install it with `pip install pytest-cov`): no module"
    );
    assert_eq!(
        message(collect_coverage(CoverageCommand::CheckPlugin, &not_spawned("not found"))),
        "failed to spawn Python to check pytest-cov: not found"
    );
    assert_eq!(
        collect_coverage(CoverageCommand::CheckPlugin, &ended(true, "")),
        Ok(CollectStep::Run(CoverageCommand::RunTests))
    );
}

/// Failing tests do not end the collection.
#[test]
fn run_pytest_cov_in_empty_dir() {
    assert_eq!(
        command_arguments(CoverageCommand::RunTests, "/proj"),
        vec!["-m", "pytest", "--cov", "--cov-context=test", "--no-header", "-q"]
    );
    for success in [true, false] {
        assert_eq!(
            collect_coverage(CoverageCommand::RunTests, &ended(success, "x")),
            Ok(CollectStep::Run(CoverageCommand::ExportJson))
        );
    }
    assert_eq!(
        message(collect_coverage(CoverageCommand::RunTests, &not_spawned("e"))),
        "failed to spawn pytest: e"
    );
}

/// Without a database the export fails.
#[test]
fn export_coverage_json_no_coverage_file() {
    assert_eq!(
        command_arguments(CoverageCommand::ExportJson, "/proj"),
        vec!["-m", "coverage", "json", "--show-contexts", "-o", "/proj/.coverage.json"]
    );
    assert_eq!(
        message(collect_coverage(CoverageCommand::ExportJson, &ended(false, "no data"))),
        "coverage json export failed: no data"
    );
    assert_eq!(
        message(collect_coverage(CoverageCommand::ExportJson, &not_spawned("e"))),
        "failed to spawn `coverage json`: e"
    );
    assert_eq!(
        collect_coverage(CoverageCommand::ExportJson, &ended(true, "")),
        Ok(CollectStep::ReadJson)
    );
    assert_eq!(json_path("/proj"), "/proj/.coverage.json");
}

/// `COVERAGE_JSON_FILENAME` has the expected value.
#[test]
fn coverage_json_filename_constant() {
    assert_eq!(COVERAGE_JSON_FILENAME, ".coverage.json");
}

/// `CoverageMap` supports expected lookup operations.
#[test]
fn coverage_map_lookup() {
    let mut map = CoverageMap::new();
    map.insert("src/app.py", 42, vec!["test_app.py::test_hello".to_owned()]);

    assert!(map.contains_key("src/app.py", 42));
    assert_eq!(map.get("src/app.py", 42).expect("should contain key").len(), 1);
    assert!(!map.contains_key("src/other.py", 1));
}

/// `CoverageMap` handles multiple entries for different lines in the
/// same file.
#[test]
fn coverage_map_same_file_multiple_lines() {
    let mut map = CoverageMap::new();
    map.insert("module.py", 1, vec!["test_a.py::test_one".to_owned()]);
    map.insert(
        "module.py",
        2,
        vec!["test_a.py::test_one".to_owned(), "test_b.py::test_two".to_owned()],
    );

    assert_eq!(map.len(), 2);
    assert_eq!(map.get("module.py", 2).expect("line 2 present").len(), 2);
}

/// Empty `CoverageMap` behaves correctly.
#[test]
fn coverage_map_empty() {
    let map = CoverageMap::new();
    assert!(map.is_empty());
    assert_eq!(map.len(), 0);
}

/// Paths with the same components are one key.
#[test]
fn paths_are_compared_by_component() {
    let mut map = CoverageMap::new();
    map.insert("src//app.py", 1, vec!["t".to_owned()]);
    assert!(map.contains_key("src/app.py", 1));
    map.insert("src/./app.py", 1, Vec::new());
    assert_eq!(map.len(), 1);
    assert_eq!(map.get("src/app.py", 1), Some(&Vec::new()));
}

/// A given file comes before the cache, and the cache before a collection.
#[test]
fn coverage_sources_in_order() {
    let mut config = FestConfig::default();
    assert_eq!(resolve_coverage(&config, true), CoverageSource::Cache);
    assert_eq!(resolve_coverage(&config, false), CoverageSource::Collect);
    config.coverage_cache = false;
    assert_eq!(resolve_coverage(&config, true), CoverageSource::Collect);
    config.coverage_from = Some("c.json".to_owned());
    assert_eq!(resolve_coverage(&config, true), CoverageSource::File("c.json".to_owned()));
}
