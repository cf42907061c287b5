//! Command-line arguments and how they override the configuration.
use crate::config::types::{FestConfig, OutputFormat, RunnerBackend};
use crate::double::Double;
use crate::init::InitArgs;
use crate::text::copy_texts;
use vstd::prelude::*;

verus! {

/// Progress output style for the command line.
///
/// Controls how pipeline progress is displayed on stderr.
#[derive(Debug, Clone, Copy, PartialEq, Eq, Structural)]
pub enum ProgressStyle {
    /// Automatically select fancy on a terminal, quiet otherwise.
    Auto,
    /// Rich output: phase animations, progress bar, colored summary.
    Fancy,
    /// Uncolored plain-text output with timing (no overwrite, no bar).
    Plain,
    /// Colored per-mutant lines and phase checkmarks (no progress bar).
    Verbose,
    /// Suppress all stderr progress output.
    Quiet,
}

impl Default for ProgressStyle {
    fn default() -> (r: Self)
        ensures
            r is Auto,
    {
        ProgressStyle::Auto
    }
}

/// Parsed command line.
#[derive(Debug)]
pub struct Args {
    /// Subcommand to execute.
    pub command: Option<Command>,
}

/// Available subcommands.
#[derive(Debug)]
pub enum Command {
    /// Run mutation testing (default when no subcommand is given).
    Run(RunArgs),
    /// Generate a starter configuration.
    Init(InitArgs),
}

/// Arguments for the `run` subcommand.
#[derive(Debug)]
pub struct RunArgs {
    /// Enable verbose per-mutant progress output.
    pub verbose: bool,
    /// Glob patterns matching Python source files to mutate.
    pub source: Option<Vec<String>>,
    /// Glob patterns for files to exclude from mutation.
    pub exclude: Option<Vec<String>>,
    /// Number of parallel test workers.
    pub workers: Option<usize>,
    /// Fraction of available CPUs to use when `workers` is not set.
    pub workers_cpu_ratio: Option<Double>,
    /// Timeout in seconds for each individual test run.
    pub timeout: Option<u64>,
    /// Minimum mutation score (0-100) to consider the run successful.
    pub fail_under: Option<Double>,
    /// Output format for the mutation report.
    pub output: Option<OutputFormat>,
    /// Path to the configuration file.
    pub config: Option<String>,
    /// Disable mtime-based coverage caching.
    pub no_coverage_cache: bool,
    /// Path to a pre-existing `.coverage` or `.coverage.json` file.
    pub coverage_from: Option<String>,
    /// Disable forcing the fast C-based coverage tracer.
    pub no_fast_coverage: bool,
    /// Execution backend.
    pub backend: Option<RunnerBackend>,
    /// Progress output style.
    pub progress: ProgressStyle,
    /// Deterministic mutation seed.
    pub seed: Option<u64>,
    /// Filters that keep or leave out operators by name.
    pub filter_operators: Option<Vec<String>>,
    /// Glob patterns that restrict mutation to matching files.
    pub filter_paths: Option<Vec<String>>,
    /// Session database for stop and resume.
    pub session: Option<String>,
    /// Reset the session before running.
    pub reset: bool,
    /// Only test files again that have changed.
    pub incremental: bool,
}

impl RunArgs {
    /// Whether no flag was given.
    pub open spec fn is_plain(self) -> bool {
        &&& !self.verbose
        &&& self.source is None
        &&& self.exclude is None
        &&& self.workers is None
        &&& self.workers_cpu_ratio is None
        &&& self.timeout is None
        &&& self.fail_under is None
        &&& self.output is None
        &&& self.config is None
        &&& !self.no_coverage_cache
        &&& self.coverage_from is None
        &&& !self.no_fast_coverage
        &&& self.backend is None
        &&& self.progress is Auto
        &&& self.seed is None
        &&& self.filter_operators is None
        &&& self.filter_paths is None
        &&& self.session is None
        &&& !self.reset
        &&& !self.incremental
    }
}

impl Default for RunArgs {
    fn default() -> (r: Self)
        ensures
            r.is_plain(),
    {
        RunArgs {
            verbose: false,
            source: None,
            exclude: None,
            workers: None,
            workers_cpu_ratio: None,
            timeout: None,
            fail_under: None,
            output: None,
            config: None,
            no_coverage_cache: false,
            coverage_from: None,
            no_fast_coverage: false,
            backend: None,
            progress: ProgressStyle::Auto,
            seed: None,
            filter_operators: None,
            filter_paths: None,
            session: None,
            reset: false,
            incremental: false,
        }
    }
}

/// Extract [`RunArgs`] from a parsed command line.
///
/// When no subcommand is given the default is `run`, so this always
/// produces a valid [`RunArgs`].
pub fn run_args(args: Args) -> (r: RunArgs)
    ensures
        match args.command {
            Some(Command::Run(given)) => r == given,
            _ => r.is_plain(),
        },
{
    match args.command {
        Some(Command::Run(given)) => given,
        _ => RunArgs::default(),
    }
}

/// A list given on the command line, else the configured one.
pub open spec fn list_or(given: Option<Vec<String>>, configured: Seq<String>) -> Seq<String> {
    match given {
        Some(list) => list@,
        None => configured,
    }
}

/// A value given on the command line, else the configured one.
pub open spec fn value_or<T>(given: Option<T>, configured: T) -> T {
    match given {
        Some(value) => value,
        None => configured,
    }
}

/// An optional value given on the command line, else the configured one.
pub open spec fn option_or<T>(given: Option<T>, configured: Option<T>) -> Option<T> {
    match given {
        Some(value) => Some(value),
        None => configured,
    }
}

/// A list given on the command line, else the configured one.
fn pick_list(given: &Option<Vec<String>>, configured: Vec<String>) -> (r: Vec<String>)
    ensures
        r@ == list_or(*given, configured@),
{
    match given {
        Some(list) => copy_texts(list),
        None => configured,
    }
}

/// A path given on the command line, else the configured one.
fn pick_path(given: &Option<String>, configured: Option<String>) -> (r: Option<String>)
    ensures
        r == option_or(*given, configured),
{
    match given {
        Some(path) => Some(path.clone()),
        None => configured,
    }
}

/// Merge command-line overrides into a [`FestConfig`].
///
/// For each field where the user provided a flag, the config-file value
/// is replaced. Fields that were not passed on the command line retain the
/// value from the configuration file.
pub fn merge_config(args: &RunArgs, config: FestConfig) -> (r: FestConfig)
    ensures
        r.source@ == list_or(args.source, config.source@),
        r.exclude@ == list_or(args.exclude, config.exclude@),
        r.workers == option_or(args.workers, config.workers),
        r.workers_cpu_ratio == value_or(args.workers_cpu_ratio, config.workers_cpu_ratio),
        r.timeout == value_or(args.timeout, config.timeout),
        r.fail_under == option_or(args.fail_under, config.fail_under),
        r.output == value_or(args.output, config.output),
        r.coverage_cache == (config.coverage_cache && !args.no_coverage_cache),
        r.coverage_from == option_or(args.coverage_from, config.coverage_from),
        r.fast_coverage == (config.fast_coverage && !args.no_fast_coverage),
        r.backend == value_or(args.backend, config.backend),
        r.seed == option_or(args.seed, config.seed),
        r.filter_operators@ == list_or(args.filter_operators, config.filter_operators@),
        r.filter_paths@ == list_or(args.filter_paths, config.filter_paths@),
        r.session == option_or(args.session, config.session),
        r.test_runner == config.test_runner,
        r.mutators == config.mutators,
        r.per_file == config.per_file,
{
    FestConfig {
        source: pick_list(&args.source, config.source),
        exclude: pick_list(&args.exclude, config.exclude),
        test_runner: config.test_runner,
        workers: match args.workers {
            Some(workers) => Some(workers),
            None => config.workers,
        },
        workers_cpu_ratio: match args.workers_cpu_ratio {
            Some(ratio) => ratio,
            None => config.workers_cpu_ratio,
        },
        timeout: match args.timeout {
            Some(timeout) => timeout,
            None => config.timeout,
        },
        fail_under: match args.fail_under {
            Some(fail_under) => Some(fail_under),
            None => config.fail_under,
        },
        output: match args.output {
            Some(output) => output,
            None => config.output,
        },
        backend: match args.backend {
            Some(backend) => backend,
            None => config.backend,
        },
        mutators: config.mutators,
        coverage_cache: config.coverage_cache && !args.no_coverage_cache,
        coverage_from: pick_path(&args.coverage_from, config.coverage_from),
        fast_coverage: config.fast_coverage && !args.no_fast_coverage,
        seed: match args.seed {
            Some(seed) => Some(seed),
            None => config.seed,
        },
        filter_operators: pick_list(&args.filter_operators, config.filter_operators),
        filter_paths: pick_list(&args.filter_paths, config.filter_paths),
        session: pick_path(&args.session, config.session),
        per_file: config.per_file,
    }
}

/// What is given on the command line is taken, and what is not stays as it is
/// configured.
pub proof fn law_given_values_are_taken(
    list: Vec<String>,
    configured: Seq<String>,
    value: u64,
    other: u64,
    before: Option<u64>,
)
    ensures
        list_or(Some(list), configured) == list@,
        list_or(None, configured) == configured,
        value_or(Some(value), other) == value,
        value_or(None, other) == other,
        option_or(Some(value), before) == Some(value),
        option_or(None, before) == before,
{
}

} // verus!
