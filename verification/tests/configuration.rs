//! Configuration and its sources.
use fest::config::types::{FestConfig, MutatorConfig, MutatorOverrides, OutputFormat, RunnerBackend};
use fest::config::{find_config, load, ConfigFile, ConfigSource};
use fest::double::Double;
use fest::Error;

fn double(x: f64) -> Double {
    Double { bits: x.to_bits() }
}

/// Default config values are populated when fields are omitted.
#[test]
fn default_values() {
    let cfg = FestConfig::default();

    assert_eq!(cfg.source, vec!["src/**/*.py"]);
    assert!(cfg.exclude.is_empty());
    assert_eq!(cfg.test_runner, "pytest");
    assert_eq!(cfg.workers, None);
    assert!((f64::from_bits(cfg.workers_cpu_ratio.bits) - 0.75).abs() < f64::EPSILON);
    assert_eq!(cfg.timeout, 10);
    assert_eq!(cfg.fail_under, None);
    assert_eq!(cfg.output, OutputFormat::Text);
    assert_eq!(cfg.backend, RunnerBackend::Plugin);

    assert!(cfg.mutators.arithmetic_op);
    assert!(cfg.mutators.comparison_op);
    assert!(cfg.mutators.boolean_op);
    assert!(cfg.mutators.return_value);
    assert!(cfg.mutators.negate_condition);
    assert!(cfg.mutators.remove_decorator);
    assert!(cfg.mutators.constant_replace);
    assert!(cfg.mutators.exception_swallow);
    assert!(cfg.mutators.custom.is_empty());
    assert!(cfg.mutators.python.is_empty());
    assert!(cfg.mutators.dylib.is_empty());
}

/// `resolved_workers` returns the explicit value when set.
#[test]
fn resolved_workers_explicit() {
    let mut cfg = FestConfig::default();
    cfg.workers = Some(8);
    assert_eq!(cfg.resolved_workers(4), 8);
}

/// `resolved_workers` clamps explicit zero to 1.
#[test]
fn resolved_workers_explicit_zero_clamps_to_one() {
    let mut cfg = FestConfig::default();
    cfg.workers = Some(0);
    assert_eq!(cfg.resolved_workers(4), 1);
}

/// `resolved_workers` computes from CPU ratio when workers is None.
#[test]
fn resolved_workers_from_ratio() {
    let cfg = FestConfig::default();
    assert!(cfg.resolved_workers(1) >= 1);
    assert_eq!(cfg.resolved_workers(8), 6);
    assert_eq!(cfg.resolved_workers(3), 2);
    assert_eq!(cfg.resolved_workers(1), 1);
}

/// `resolved_workers` with a very small ratio still yields at least 1.
#[test]
fn resolved_workers_tiny_ratio() {
    let mut cfg = FestConfig::default();
    cfg.workers_cpu_ratio = double(0.001);
    assert!(cfg.resolved_workers(16) >= 1);
}

/// Shares of processors are those of double arithmetic.
#[test]
fn shares_follow_double_arithmetic() {
    for ratio in [0.1, 0.3, 0.5, 0.7, 1.0 / 3.0, 0.999, 1.0, 1.5, 2.25, 1e-300, 1e300] {
        for cpus in [1_usize, 2, 3, 7, 10, 64, 1000, 12345] {
            let mut cfg = FestConfig::default();
            cfg.workers_cpu_ratio = double(ratio);
            let expected = ((ratio * (cpus as f64)) as usize).max(1);
            assert_eq!(cfg.resolved_workers(cpus), expected, "{ratio} of {cpus}");
        }
    }
    for ratio in [f64::NAN, f64::NEG_INFINITY, -0.5, -0.0] {
        let mut cfg = FestConfig::default();
        cfg.workers_cpu_ratio = double(ratio);
        assert_eq!(cfg.resolved_workers(8), 1);
    }
}

/// Loading from a directory with no config files returns defaults.
#[test]
fn load_no_config_returns_defaults() {
    let source = find_config("/d", false, false);
    assert_eq!(source, ConfigSource::Defaults);
    let cfg = load(&source, ConfigFile::Absent).expect("should return defaults");
    assert_eq!(cfg, FestConfig::default());
}

/// A `pyproject.toml` without `[tool.fest]` returns defaults.
#[test]
fn load_pyproject_without_tool_fest_returns_defaults() {
    let source = find_config("/d", false, true);
    assert_eq!(source, ConfigSource::Pyproject("/d/pyproject.toml".to_owned()));
    let cfg = load(&source, ConfigFile::Absent).expect("should return default config");
    assert_eq!(cfg, FestConfig::default());
}

/// An invalid `pyproject.toml` produces `Error::Config`.
#[test]
fn invalid_pyproject_returns_error() {
    let source = find_config("/d", false, true);
    let result = load(&source, ConfigFile::Invalid("bad".to_owned()));
    assert!(
        matches!(result, Err(Error::Config(m)) if m == "failed to parse /d/pyproject.toml: bad")
    );
}

/// `fest.toml` takes priority over `pyproject.toml`.
#[test]
fn fest_toml_takes_priority() {
    let source = find_config("/d", true, true);
    assert_eq!(source, ConfigSource::FestToml("/d/fest.toml".to_owned()));
    let mut parsed = FestConfig::default();
    parsed.timeout = 99;
    let cfg = load(&source, ConfigFile::Valid(parsed)).expect("should load config");
    assert_eq!(cfg.timeout, 99);
}

/// Invalid TOML in fest.toml produces `Error::Config`.
#[test]
fn invalid_fest_toml_returns_error() {
    let source = find_config("/d", true, false);
    let result = load(&source, ConfigFile::Invalid("bad".to_owned()));
    assert!(matches!(result, Err(Error::Config(m)) if m == "failed to parse /d/fest.toml: bad"));
}

/// A file that cannot be read produces `Error::Config`.
#[test]
fn unreadable_config_returns_error() {
    for source in [find_config("/d", true, false), find_config("/d", false, true)] {
        let result = load(&source, ConfigFile::Unreadable("denied".to_owned()));
        assert!(matches!(result, Err(Error::Config(m)) if m.starts_with("failed to read /d/")
            && m.ends_with(": denied")));
    }
}

/// Overrides change the flags that they name and no others.
#[test]
fn overrides_change_named_flags_only() {
    let base = MutatorConfig::default();
    let overrides = MutatorOverrides {
        arithmetic_op: Some(false),
        statement_deletion: Some(true),
        ..MutatorOverrides::default()
    };
    let merged = base.with_overrides(&overrides);
    assert!(!merged.arithmetic_op);
    assert!(merged.statement_deletion);
    assert!(merged.comparison_op);
    assert_eq!(merged.with_overrides(&overrides), merged);
    assert_eq!(base.with_overrides(&MutatorOverrides::default()), base);
}

/// Errors name what failed.
#[test]
fn errors_are_shown_with_what_failed() {
    let all = [
        (Error::Config("m".to_owned()), "config error: m"),
        (Error::Mutation("m".to_owned()), "mutation error: m"),
        (Error::Coverage("m".to_owned()), "coverage error: m"),
        (Error::Runner("m".to_owned()), "runner error: m"),
        (Error::Report("m".to_owned()), "report error: m"),
        (Error::Io("m".to_owned()), "I/O error: m"),
        (Error::Session("m".to_owned()), "session error: m"),
        (Error::Cancelled("m".to_owned()), "cancelled: m"),
        (Error::Threshold("m".to_owned()), "threshold error: m"),
    ];
    for (error, text) in all {
        assert_eq!(error.message(), text);
    }
}
