//! Command-line arguments and the configuration.
use fest::cli::{merge_config, run_args, Args, Command, ProgressStyle, RunArgs};
use fest::config::types::{FestConfig, OutputFormat, RunnerBackend};
use fest::double::Double;
use fest::init::{InitArgs, InitFormat};

fn double(x: f64) -> Double {
    Double { bits: x.to_bits() }
}

/// Arguments without flags.
fn default_args() -> RunArgs {
    RunArgs::default()
}

/// When no CLI overrides are given, config is returned unchanged.
#[test]
fn merge_no_overrides_returns_config_unchanged() {
    let config = FestConfig::default();
    let merged = merge_config(&default_args(), FestConfig::default());
    assert_eq!(merged.source, config.source);
    assert_eq!(merged.exclude, config.exclude);
    assert_eq!(merged.test_runner, config.test_runner);
    assert_eq!(merged.workers, config.workers);
    assert_eq!(merged.workers_cpu_ratio, config.workers_cpu_ratio);
    assert_eq!(merged.timeout, config.timeout);
    assert_eq!(merged.fail_under, config.fail_under);
    assert_eq!(merged.output, config.output);
    assert_eq!(merged.backend, config.backend);
    assert_eq!(merged.mutators, config.mutators);
    assert_eq!(merged.coverage_cache, config.coverage_cache);
    assert_eq!(merged.coverage_from, config.coverage_from);
    assert_eq!(merged.fast_coverage, config.fast_coverage);
    assert_eq!(merged.seed, config.seed);
    assert_eq!(merged.filter_operators, config.filter_operators);
    assert_eq!(merged.filter_paths, config.filter_paths);
    assert_eq!(merged.session, config.session);
    assert_eq!(merged.per_file, config.per_file);
}

/// CLI `--source` replaces the config source list.
#[test]
fn merge_source_override() {
    let args = RunArgs {
        source: Some(vec!["tests/**/*.py".to_owned()]),
        ..default_args()
    };
    let merged = merge_config(&args, FestConfig::default());
    assert_eq!(merged.source, vec!["tests/**/*.py"]);
}

/// CLI `--exclude` replaces the config exclude list.
#[test]
fn merge_exclude_override() {
    let args = RunArgs {
        exclude: Some(vec!["vendor/**".to_owned()]),
        ..default_args()
    };
    let merged = merge_config(&args, FestConfig::default());
    assert_eq!(merged.exclude, vec!["vendor/**"]);
}

/// CLI `--workers` overrides the config workers field.
#[test]
fn merge_workers_override() {
    let args = RunArgs {
        workers: Some(16),
        ..default_args()
    };
    let merged = merge_config(&args, FestConfig::default());
    assert_eq!(merged.workers, Some(16));
}

/// CLI `--workers-cpu-ratio` overrides the config ratio.
#[test]
fn merge_workers_cpu_ratio_override() {
    let args = RunArgs {
        workers_cpu_ratio: Some(double(0.5)),
        ..default_args()
    };
    let merged = merge_config(&args, FestConfig::default());
    assert!(merged.workers_cpu_ratio == double(0.5));
}

/// CLI `--timeout` overrides the config timeout.
#[test]
fn merge_timeout_override() {
    let args = RunArgs {
        timeout: Some(120),
        ..default_args()
    };
    let merged = merge_config(&args, FestConfig::default());
    assert_eq!(merged.timeout, 120);
}

/// CLI `--fail-under` overrides the config fail_under.
#[test]
fn merge_fail_under_override() {
    let args = RunArgs {
        fail_under: Some(double(90.0)),
        ..default_args()
    };
    let merged = merge_config(&args, FestConfig::default());
    assert!(merged.fail_under == Some(double(90.0)));
}

/// CLI `--output` overrides the config output format.
#[test]
fn merge_output_override() {
    let args = RunArgs {
        output: Some(OutputFormat::Json),
        ..default_args()
    };
    let merged = merge_config(&args, FestConfig::default());
    assert_eq!(merged.output, OutputFormat::Json);
}

/// Multiple CLI overrides are all applied simultaneously.
#[test]
fn merge_multiple_overrides() {
    let args = RunArgs {
        source: Some(vec!["lib/**/*.py".to_owned()]),
        exclude: Some(vec!["lib/generated/**".to_owned()]),
        workers: Some(4),
        timeout: Some(30),
        fail_under: Some(double(85.0)),
        output: Some(OutputFormat::Html),
        ..default_args()
    };
    let merged = merge_config(&args, FestConfig::default());
    assert_eq!(merged.source, vec!["lib/**/*.py"]);
    assert_eq!(merged.exclude, vec!["lib/generated/**"]);
    assert_eq!(merged.workers, Some(4));
    assert_eq!(merged.timeout, 30);
    assert!(merged.fail_under == Some(double(85.0)));
    assert_eq!(merged.output, OutputFormat::Html);
    // Unset fields keep their config-file values
    assert!(merged.workers_cpu_ratio == double(0.75));
}

/// CLI `--backend` overrides the config backend.
#[test]
fn merge_backend_override() {
    let config = FestConfig::default();
    assert_eq!(config.backend, RunnerBackend::Plugin);

    let args = RunArgs {
        backend: Some(RunnerBackend::Plugin),
        ..default_args()
    };
    let merged = merge_config(&args, config);
    assert_eq!(merged.backend, RunnerBackend::Plugin);
}

/// CLI overrides take priority over non-default config values.
#[test]
fn merge_overrides_non_default_config() {
    let mut config = FestConfig::default();
    config.timeout = 60;
    config.workers = Some(2);
    config.output = OutputFormat::Json;

    let args = RunArgs {
        workers: Some(8),
        timeout: Some(120),
        output: Some(OutputFormat::Text),
        ..default_args()
    };
    let merged = merge_config(&args, config);
    assert_eq!(merged.workers, Some(8));
    assert_eq!(merged.timeout, 120);
    assert_eq!(merged.output, OutputFormat::Text);
}

/// CLI `--no-coverage-cache` sets `coverage_cache = false`.
#[test]
fn merge_no_coverage_cache() {
    let config = FestConfig::default();
    assert!(config.coverage_cache);

    let args = RunArgs {
        no_coverage_cache: true,
        ..default_args()
    };
    let merged = merge_config(&args, config);
    assert!(!merged.coverage_cache);
}

/// CLI `--coverage-from` populates `coverage_from` in config.
#[test]
fn merge_coverage_from() {
    let config = FestConfig::default();
    assert!(config.coverage_from.is_none());

    let args = RunArgs {
        coverage_from: Some("my/.coverage.json".to_owned()),
        ..default_args()
    };
    let merged = merge_config(&args, config);
    assert_eq!(
        merged.coverage_from,
        Some("my/.coverage.json".to_owned())
    );
}

/// The remaining flags override their fields.
#[test]
fn merge_seed_filters_and_session() {
    let args = RunArgs {
        seed: Some(7),
        filter_operators: Some(vec!["!boolean_op".to_owned()]),
        filter_paths: Some(vec!["src/a/**".to_owned()]),
        session: Some("s.db".to_owned()),
        no_fast_coverage: true,
        ..default_args()
    };
    let merged = merge_config(&args, FestConfig::default());
    assert_eq!(merged.seed, Some(7));
    assert_eq!(merged.filter_operators, vec!["!boolean_op"]);
    assert_eq!(merged.filter_paths, vec!["src/a/**"]);
    assert_eq!(merged.session, Some("s.db".to_owned()));
    assert!(!merged.fast_coverage);
}

/// Without a subcommand the arguments of `run` are the defaults.
#[test]
fn run_is_the_default_command() {
    let args = run_args(Args { command: None });
    assert!(args.source.is_none());
    assert_eq!(args.progress, ProgressStyle::Auto);
    let given = RunArgs { timeout: Some(3), ..default_args() };
    assert_eq!(run_args(Args { command: Some(Command::Run(given)) }).timeout, Some(3));
    let init = InitArgs { format: InitFormat::default(), force: true };
    assert!(run_args(Args { command: Some(Command::Init(init)) }).timeout.is_none());
}
