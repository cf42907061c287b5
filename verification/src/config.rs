//! Configuration loading for a mutation-testing run.
//!
//! Configuration comes from `fest.toml` or from the `[tool.fest]` section of
//! `pyproject.toml`.
pub mod types;

pub use types::{
    CustomMutator, DylibMutator, FestConfig, MutatorConfig, MutatorOverrides, OutputFormat,
    PerFileConfig, PythonMutator, RunnerBackend,
};

use crate::error::Error;
use crate::paths;
use vstd::prelude::*;

verus! {

/// Name of the dedicated fest configuration file.
pub const FEST_TOML: &'static str = "fest.toml";

/// Name of the Python project configuration file.
pub const PYPROJECT_TOML: &'static str = "pyproject.toml";

/// Where the configuration is taken from.
#[derive(Debug, PartialEq, Eq)]
pub enum ConfigSource {
    /// The `[fest]` table of the file at a path.
    FestToml(String),
    /// The `[tool.fest]` section of the file at a path.
    Pyproject(String),
    /// No file: the defaults.
    Defaults,
}

/// What came of reading a configuration file.
#[derive(Debug)]
pub enum ConfigFile {
    /// The file cannot be read.
    Unreadable(String),
    /// The file is not valid.
    Invalid(String),
    /// The file is valid, but has no fest configuration.
    Absent,
    /// The configuration in the file.
    Valid(FestConfig),
}

/// Decide where the configuration of a project directory is taken from.
///
/// The lookup order is:
/// 1. `fest.toml` in `dir`
/// 2. `pyproject.toml` in `dir`
/// 3. the defaults, if neither is a file
pub fn find_config(dir: &str, fest_is_file: bool, pyproject_is_file: bool) -> (r: ConfigSource)
    ensures
        if fest_is_file {
            r matches ConfigSource::FestToml(path) && path@ == paths::joined(dir@, FEST_TOML@)
        } else if pyproject_is_file {
            r matches ConfigSource::Pyproject(path) && path@ == paths::joined(dir@, PYPROJECT_TOML@)
        } else {
            r is Defaults
        },
{
    if fest_is_file {
        return ConfigSource::FestToml(paths::join(dir, FEST_TOML));
    }
    if pyproject_is_file {
        return ConfigSource::Pyproject(paths::join(dir, PYPROJECT_TOML));
    }
    ConfigSource::Defaults
}

/// A message on a file.
fn on_file(what: &str, path: &str, problem: &str) -> (r: String)
    ensures
        r@ == what@ + path@ + ": "@ + problem@,
{
    let mut out: String = what.to_owned();
    out.append(path);
    out.append(": ");
    out.append(problem);
    out
}

/// Load the fest configuration from where it is taken from.
///
/// Returns [`Error::Config`] if a file exists but cannot be read or contains
/// invalid TOML or an invalid fest configuration. Where there is no fest
/// configuration, the defaults are taken.
pub fn load(source: &ConfigSource, file: ConfigFile) -> (r: Result<FestConfig, Error>)
    ensures
        match *source {
            ConfigSource::FestToml(path) | ConfigSource::Pyproject(path) => match file {
                ConfigFile::Unreadable(problem) => r matches Err(Error::Config(m)) && m@
                    == "failed to read "@ + path@ + ": "@ + problem@,
                ConfigFile::Invalid(problem) => r matches Err(Error::Config(m)) && m@
                    == "failed to parse "@ + path@ + ": "@ + problem@,
                ConfigFile::Absent => r matches Ok(c) && c.is_default(),
                ConfigFile::Valid(config) => r matches Ok(c) && c == config,
            },
            ConfigSource::Defaults => r matches Ok(c) && c.is_default(),
        },
{
    match source {
        ConfigSource::FestToml(path) | ConfigSource::Pyproject(path) => match file {
            ConfigFile::Unreadable(problem) => Err(
                Error::Config(on_file("failed to read ", path.as_str(), problem.as_str())),
            ),
            ConfigFile::Invalid(problem) => Err(
                Error::Config(on_file("failed to parse ", path.as_str(), problem.as_str())),
            ),
            ConfigFile::Absent => Ok(FestConfig::default()),
            ConfigFile::Valid(config) => Ok(config),
        },
        ConfigSource::Defaults => Ok(FestConfig::default()),
    }
}

} // verus!
