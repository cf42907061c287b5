//! Coverage analysis: determining which tests exercise which source lines.
//!
//! The workflow is:
//! 1. Verify that `pytest-cov` is available in the target Python environment.
//! 2. Run `pytest --cov --cov-context=test` to produce a `.coverage` database.
//! 3. Export the database to JSON via `coverage json --show-contexts`.
//! 4. Parse the JSON into a [`CoverageMap`] from lines of files to the tests
//!    that exercised them.
pub mod json_parser;
pub mod laws;
pub mod map;
pub mod sqlite_reader;

pub use map::CoverageMap;

use crate::config::types::FestConfig;
use crate::duration::Duration;
use crate::error::Error;
use crate::paths;
use crate::text::texts;
use vstd::prelude::*;

verus! {

/// Name of the JSON file produced by `coverage json`.
pub const COVERAGE_JSON_FILENAME: &'static str = ".coverage.json";

/// A command of the collection, run with Python in the project directory.
#[derive(Debug, Clone, Copy, PartialEq, Eq, Structural)]
pub enum CoverageCommand {
    /// Check that `pytest-cov` is installed.
    CheckPlugin,
    /// Run the tests with coverage.
    RunTests,
    /// Export the `.coverage` database to JSON.
    ExportJson,
}

/// What came of a command.
#[derive(Debug)]
pub enum CommandOutcome {
    /// The process could not be started.
    NotSpawned(String),
    /// The process has ended.
    Ended {
        /// Whether it exited with success.
        success: bool,
        /// What it wrote to stderr.
        stderr: String,
    },
}

/// What the collection does next.
#[derive(Debug, PartialEq, Eq, Structural)]
pub enum CollectStep {
    /// Run a command.
    Run(CoverageCommand),
    /// Read and parse the JSON file.
    ReadJson,
}

/// The path of the JSON file of a project.
pub open spec fn json_path_of(project_dir: Seq<char>) -> Seq<char> {
    paths::joined(project_dir, COVERAGE_JSON_FILENAME@)
}

/// The path of the JSON file of a project.
pub fn json_path(project_dir: &str) -> (r: String)
    ensures
        r@ == json_path_of(project_dir@),
{
    paths::join(project_dir, COVERAGE_JSON_FILENAME)
}

/// The arguments of a command.
pub open spec fn arguments_of(command: CoverageCommand, project_dir: Seq<char>) -> Seq<Seq<char>> {
    match command {
        CoverageCommand::CheckPlugin => seq!["-c"@, "import pytest_cov"@],
        CoverageCommand::RunTests => seq![
            "-m"@,
            "pytest"@,
            "--cov"@,
            "--cov-context=test"@,
            "--no-header"@,
            "-q"@,
        ],
        CoverageCommand::ExportJson => seq![
            "-m"@,
            "coverage"@,
            "json"@,
            "--show-contexts"@,
            "-o"@,
            json_path_of(project_dir),
        ],
    }
}

/// The arguments of a command.
pub fn command_arguments(command: CoverageCommand, project_dir: &str) -> (r: Vec<String>)
    ensures
        texts(r@) == arguments_of(command, project_dir@),
{
    let mut out: Vec<String> = Vec::new();
    match command {
        CoverageCommand::CheckPlugin => {
            out.push("-c".to_owned());
            out.push("import pytest_cov".to_owned());
        },
        CoverageCommand::RunTests => {
            out.push("-m".to_owned());
            out.push("pytest".to_owned());
            out.push("--cov".to_owned());
            out.push("--cov-context=test".to_owned());
            out.push("--no-header".to_owned());
            out.push("-q".to_owned());
        },
        CoverageCommand::ExportJson => {
            out.push("-m".to_owned());
            out.push("coverage".to_owned());
            out.push("json".to_owned());
            out.push("--show-contexts".to_owned());
            out.push("-o".to_owned());
            out.push(json_path(project_dir));
        },
    }
    assert(texts(out@) =~= arguments_of(command, project_dir@));
    out
}

/// The message for a command that ends the collection, if it does. That tests
/// fail does not: coverage data is produced all the same.
pub open spec fn collection_problem(
    command: CoverageCommand,
    outcome: CommandOutcome,
) -> Option<Seq<char>> {
    match (command, outcome) {
        (CoverageCommand::CheckPlugin, CommandOutcome::NotSpawned(problem)) => Some(
            "failed to spawn Python to check pytest-cov: "@ + problem@,
        ),
        (CoverageCommand::CheckPlugin, CommandOutcome::Ended { success, stderr }) => if success {
            None
        } else {
            Some(
                "pytest-cov is not available (install it with `pip install pytest-cov`): "@
                    + stderr@,
            )
        },
        (CoverageCommand::RunTests, CommandOutcome::NotSpawned(problem)) => Some(
            "failed to spawn pytest: "@ + problem@,
        ),
        (CoverageCommand::RunTests, CommandOutcome::Ended { .. }) => None,
        (CoverageCommand::ExportJson, CommandOutcome::NotSpawned(problem)) => Some(
            "failed to spawn `coverage json`: "@ + problem@,
        ),
        (CoverageCommand::ExportJson, CommandOutcome::Ended { success, stderr }) => if success {
            None
        } else {
            Some("coverage json export failed: "@ + stderr@)
        },
    }
}

/// The step after a command.
pub open spec fn step_after(command: CoverageCommand) -> CollectStep {
    match command {
        CoverageCommand::CheckPlugin => CollectStep::Run(CoverageCommand::RunTests),
        CoverageCommand::RunTests => CollectStep::Run(CoverageCommand::ExportJson),
        CoverageCommand::ExportJson => CollectStep::ReadJson,
    }
}

/// An error with a message of two parts.
fn coverage_error(what: &str, problem: &str) -> (r: Error)
    ensures
        r matches Error::Coverage(m) && m@ == what@ + problem@,
{
    let mut message: String = what.to_owned();
    message.append(problem);
    Error::Coverage(message)
}

/// Begin to collect per-line test coverage for a Python project.
pub fn begin_collection() -> (r: CollectStep)
    ensures
        r == CollectStep::Run(CoverageCommand::CheckPlugin),
{
    CollectStep::Run(CoverageCommand::CheckPlugin)
}

/// Collect per-line test coverage for a Python project: the step after a
/// command.
///
/// 1. Checks that `pytest-cov` is installed.
/// 2. Runs pytest with coverage and test-context tracking.
/// 3. Exports the resulting `.coverage` database to JSON.
/// 4. The JSON is then read and parsed.
///
/// Returns [`Error::Coverage`] if `pytest-cov` is not available or the
/// coverage export fails.
pub fn collect_coverage(command: CoverageCommand, outcome: &CommandOutcome) -> (r: Result<
    CollectStep,
    Error,
>)
    ensures
        match collection_problem(command, *outcome) {
            Some(problem) => r matches Err(Error::Coverage(m)) && m@ == problem,
            None => r matches Ok(step) && step == step_after(command),
        },
{
    match command {
        CoverageCommand::CheckPlugin => match outcome {
            CommandOutcome::NotSpawned(problem) => Err(
                coverage_error("failed to spawn Python to check pytest-cov: ", problem.as_str()),
            ),
            CommandOutcome::Ended { success, stderr } => if *success {
                Ok(CollectStep::Run(CoverageCommand::RunTests))
            } else {
                Err(
                    coverage_error(
                        "pytest-cov is not available (install it with `pip install pytest-cov`): ",
                        stderr.as_str(),
                    ),
                )
            },
        },
        CoverageCommand::RunTests => match outcome {
            CommandOutcome::NotSpawned(problem) => Err(
                coverage_error("failed to spawn pytest: ", problem.as_str()),
            ),
            CommandOutcome::Ended { .. } => Ok(CollectStep::Run(CoverageCommand::ExportJson)),
        },
        CoverageCommand::ExportJson => match outcome {
            CommandOutcome::NotSpawned(problem) => Err(
                coverage_error("failed to spawn `coverage json`: ", problem.as_str()),
            ),
            CommandOutcome::Ended { success, stderr } => if *success {
                Ok(CollectStep::ReadJson)
            } else {
                Err(coverage_error("coverage json export failed: ", stderr.as_str()))
            },
        },
    }
}

/// Where coverage data is taken from.
#[derive(Debug, PartialEq, Eq)]
pub enum CoverageSource {
    /// A file that the user provides.
    File(String),
    /// The `.coverage.json` of an earlier run.
    Cache,
    /// A run of the tests.
    Collect,
}

/// Decide where coverage data is taken from.
///
/// When `coverage_from` is set, the user-provided file. When
/// `coverage_cache` is enabled and the cache is fresh, the cached
/// `.coverage.json`. Otherwise, a full collection via pytest.
pub fn resolve_coverage(config: &FestConfig, cache_is_fresh: bool) -> (r: CoverageSource)
    ensures
        match config.coverage_from {
            Some(path) => r matches CoverageSource::File(file) && file@ == path@,
            None => if config.coverage_cache && cache_is_fresh {
                r is Cache
            } else {
                r is Collect
            },
        },
{
    if let Some(path) = &config.coverage_from {
        return CoverageSource::File(path.clone());
    }
    if config.coverage_cache && cache_is_fresh {
        return CoverageSource::Cache;
    }
    CoverageSource::Collect
}

/// Whether one time since the epoch is before another.
pub open spec fn is_earlier(a: Duration, b: Duration) -> bool {
    a.secs < b.secs || a.secs == b.secs && a.nanos < b.nanos
}

/// Whether a Python file is older than the cache. A file whose time is not
/// known counts as changed.
pub open spec fn is_older(modified: Option<Duration>, cache: Duration) -> bool {
    match modified {
        Some(time) => is_earlier(time, cache),
        None => false,
    }
}

/// Whether the cached coverage data is still fresh: the cache exists, and all
/// Python files are older than it. Times are modification times since the
/// epoch.
pub fn is_coverage_cache_fresh(cache: Option<Duration>, files: &Vec<Option<Duration>>) -> (r: bool)
    ensures
        r == match cache {
            Some(time) => forall|i: int|
                0 <= i < files@.len() ==> is_older(#[trigger] files@[i], time),
            None => false,
        },
{
    match cache {
        None => false,
        Some(time) => {
            let mut i: usize = 0;
            while i < files.len()
                invariant
                    i <= files@.len(),
                    cache == Some(time),
                    forall|j: int| 0 <= j < i ==> is_older(#[trigger] files@[j], time),
                decreases files.len() - i,
            {
                let older: bool = match &files[i] {
                    Some(modified) => modified.secs < time.secs || modified.secs == time.secs
                        && modified.nanos < time.nanos,
                    None => false,
                };
                if !older {
                    assert(!is_older(files@[i as int], time));
                    return false;
                }
                i = i + 1;
            }
            true
        },
    }
}

/// How a file with coverage data is read.
#[derive(Debug, Clone, Copy, PartialEq, Eq, Structural)]
pub enum CoverageFormat {
    /// A JSON report.
    Json,
    /// A `.coverage` database.
    Database,
}

/// Decide how a file with coverage data is read: `.json` files are reports,
/// all others databases.
pub fn coverage_format(file_name: &str) -> (r: CoverageFormat)
    ensures
        r == if paths::extension(file_name@) == Some("json"@) {
            CoverageFormat::Json
        } else {
            CoverageFormat::Database
        },
{
    if paths::has_extension(file_name, "json") {
        CoverageFormat::Json
    } else {
        CoverageFormat::Database
    }
}

/// Coverage is collected in three steps: the plugin is looked for, the tests are
/// run, and the data is exported. Then it is read.
pub proof fn law_collection_goes_step_by_step()
    ensures
        step_after(CoverageCommand::CheckPlugin) == CollectStep::Run(CoverageCommand::RunTests),
        step_after(CoverageCommand::RunTests) == CollectStep::Run(CoverageCommand::ExportJson),
        step_after(CoverageCommand::ExportJson) is ReadJson,
{
}

/// A command that could not be started stops the collection. Tests that fail do
/// not, while a failing check or export does, with what it wrote.
pub proof fn law_failing_tests_do_not_stop_the_collection(
    command: CoverageCommand,
    problem: String,
    success: bool,
    stderr: String,
)
    ensures
        collection_problem(command, CommandOutcome::NotSpawned(problem)) is Some,
        collection_problem(command, CommandOutcome::Ended { success, stderr }) is Some <==> !success
            && !(command is RunTests),
        collection_problem(CoverageCommand::CheckPlugin, CommandOutcome::NotSpawned(problem))
            == Some("failed to spawn Python to check pytest-cov: "@ + problem@),
        collection_problem(CoverageCommand::RunTests, CommandOutcome::NotSpawned(problem)) == Some(
            "failed to spawn pytest: "@ + problem@,
        ),
        collection_problem(CoverageCommand::ExportJson, CommandOutcome::NotSpawned(problem))
            == Some("failed to spawn `coverage json`: "@ + problem@),
        !success ==> collection_problem(
            CoverageCommand::CheckPlugin,
            CommandOutcome::Ended { success, stderr },
        ) == Some(
            "pytest-cov is not available (install it with `pip install pytest-cov`): "@ + stderr@,
        ),
        !success ==> collection_problem(
            CoverageCommand::ExportJson,
            CommandOutcome::Ended { success, stderr },
        ) == Some("coverage json export failed: "@ + stderr@),
{
}

/// The arguments of the commands. The export writes to the file that is read.
pub proof fn law_commands_have_their_arguments(project_dir: Seq<char>)
    ensures
        arguments_of(CoverageCommand::CheckPlugin, project_dir) == seq![
            "-c"@, "import pytest_cov"@,
        ],
        arguments_of(CoverageCommand::RunTests, project_dir) == seq![
            "-m"@, "pytest"@, "--cov"@, "--cov-context=test"@, "--no-header"@, "-q"@,
        ],
        arguments_of(CoverageCommand::ExportJson, project_dir) == seq![
            "-m"@, "coverage"@, "json"@, "--show-contexts"@, "-o"@, json_path_of(project_dir),
        ],
        json_path_of(project_dir) == paths::joined(project_dir, ".coverage.json"@),
{
}

/// A file is older than the cache if it was modified before it, to the
/// nanosecond. One without a time is not.
pub proof fn law_older_means_earlier(time: Duration, cache: Duration)
    requires
        time.nanos < 1_000_000_000,
        cache.nanos < 1_000_000_000,
    ensures
        is_older(Some(time), cache) <==> time.secs * 1_000_000_000 + time.nanos < cache.secs
            * 1_000_000_000 + cache.nanos,
        !is_older(None, cache),
{
}

} // verus!
