//! Test runner: executing the test suite against each mutant.
//!
//! [`AnyRunner`] decides which backend runs a mutant. The plugin backend has
//! the subprocess backend as its fallback: on the first runner error it
//! switches over for all remaining mutants.
use crate::config::types::RunnerBackend;
use crate::error::Error;
use crate::mutation::mutant::MutantResult;
use vstd::prelude::*;

verus! {

/// Subprocess-based runner: spawns a `pytest` process for each mutant.
#[derive(Debug)]
pub struct SubprocessRunner {
    /// Timeout in seconds for each test run.
    pub timeout: u64,
    /// Directory in which the tests are run.
    pub project_dir: String,
}

/// Pytest-plugin-based runner: patches modules inside a running `pytest`.
#[derive(Debug)]
pub struct PytestPluginRunner {
    /// Timeout in seconds for each test run.
    pub timeout: u64,
}

/// Which backend is to run a mutant.
#[derive(Debug, Clone, Copy, PartialEq, Eq, Structural)]
pub enum Backend {
    Subprocess,
    Plugin,
}

/// Dispatch over the mutant execution backends.
#[derive(Debug)]
pub enum AnyRunner {
    /// Subprocess-based runner (no fallback).
    Subprocess(SubprocessRunner),
    /// Pytest-plugin-based runner with automatic subprocess fallback.
    Plugin {
        /// Primary plugin runner.
        plugin: PytestPluginRunner,
        /// Fallback subprocess runner, used when the plugin fails.
        subprocess: SubprocessRunner,
        /// Set after the first plugin infrastructure failure.
        plugin_failed: bool,
    },
}

/// What is to be done for a mutant.
#[derive(Debug)]
pub enum RunStep {
    /// Run its tests with a backend.
    Run(Backend),
    /// Nothing more: this is the result.
    Done(Result<MutantResult, Error>),
}

/// A call of a runner, with what came of the backend that it used.
pub enum Call {
    /// The backend was started.
    Started(Result<(), Error>),
    /// A mutant was run with a backend.
    Ran(Backend, Result<MutantResult, Error>),
    /// The backend was stopped.
    Stopped,
}

impl Call {
    /// Whether the plugin failed in the call: it could not be started, or met
    /// a runner error on a mutant.
    pub open spec fn is_plugin_failure(self) -> bool {
        match self {
            Call::Started(started) => started is Err,
            Call::Ran(used, outcome) => used is Plugin && (outcome matches Err(Error::Runner(_))),
            Call::Stopped => false,
        }
    }
}

impl AnyRunner {
    /// The runner that a configuration selects.
    pub open spec fn built(
        backend: RunnerBackend,
        timeout: u64,
        project_dir: String,
    ) -> AnyRunner {
        match backend {
            RunnerBackend::Subprocess => AnyRunner::Subprocess(
                SubprocessRunner { timeout, project_dir },
            ),
            RunnerBackend::Plugin => AnyRunner::Plugin {
                plugin: PytestPluginRunner { timeout },
                subprocess: SubprocessRunner { timeout, project_dir },
                plugin_failed: false,
            },
        }
    }

    /// The runner after a call.
    pub open spec fn after(self, call: Call) -> AnyRunner {
        if call.is_plugin_failure() {
            self.without_plugin()
        } else {
            self
        }
    }

    /// The runner after a sequence of calls.
    pub open spec fn after_all(self, calls: Seq<Call>) -> AnyRunner
        decreases calls.len(),
    {
        if calls.len() == 0 {
            self
        } else {
            self.after_all(calls.drop_last()).after(calls.last())
        }
    }

    /// Whether the plugin backend has failed.
    pub open spec fn failed(self) -> bool {
        match self {
            AnyRunner::Subprocess(_) => false,
            AnyRunner::Plugin { plugin_failed, .. } => plugin_failed,
        }
    }

    /// The backend that runs the next mutant.
    pub open spec fn active(self) -> Backend {
        match self {
            AnyRunner::Subprocess(_) => Backend::Subprocess,
            AnyRunner::Plugin { plugin_failed, .. } => if plugin_failed {
                Backend::Subprocess
            } else {
                Backend::Plugin
            },
        }
    }

    /// The runner once its plugin has failed.
    pub open spec fn without_plugin(self) -> AnyRunner {
        match self {
            AnyRunner::Subprocess(_) => self,
            AnyRunner::Plugin { plugin, subprocess, .. } => AnyRunner::Plugin {
                plugin,
                subprocess,
                plugin_failed: true,
            },
        }
    }

    /// Take what came of starting the backend.
    ///
    /// A failure of the plugin is absorbed: the mutants are then run by
    /// subprocess. A failure of the subprocess backend is handed on.
    pub fn start(&mut self, started: Result<(), Error>) -> (r: Result<(), Error>)
        ensures
            match *old(self) {
                AnyRunner::Subprocess(_) => r == started,
                AnyRunner::Plugin { .. } => r is Ok,
            },
            *final(self) == old(self).after(Call::Started(started)),
    {
        match self {
            AnyRunner::Subprocess(_) => started,
            AnyRunner::Plugin { plugin_failed, .. } => {
                if started.is_err() {
                    *plugin_failed = true;
                }
                Ok(())
            },
        }
    }

    /// Begin a mutant: the backend that is to run its tests.
    pub fn backend(&self) -> (r: Backend)
        ensures
            r == self.active(),
    {
        match self {
            AnyRunner::Subprocess(_) => Backend::Subprocess,
            AnyRunner::Plugin { plugin_failed, .. } => {
                if *plugin_failed {
                    Backend::Subprocess
                } else {
                    Backend::Plugin
                }
            },
        }
    }

    /// Take what came of running a mutant with a backend.
    ///
    /// When the plugin backend encounters an infrastructure error
    /// ([`Error::Runner`]), the mutant is run again by subprocess, as are all
    /// subsequent mutants. Everything else is the result.
    pub fn run_mutant(&mut self, used: Backend, outcome: Result<MutantResult, Error>) -> (r: RunStep)
        ensures
            r == if Call::Ran(used, outcome).is_plugin_failure() {
                RunStep::Run(Backend::Subprocess)
            } else {
                RunStep::Done(outcome)
            },
            *final(self) == old(self).after(Call::Ran(used, outcome)),
    {
        if let Backend::Plugin = used {
            if let Err(Error::Runner(_)) = &outcome {
                if let AnyRunner::Plugin { plugin_failed, .. } = self {
                    *plugin_failed = true;
                }
                return RunStep::Run(Backend::Subprocess);
            }
        }
        RunStep::Done(outcome)
    }

    /// Check whether the plugin backend has failed and fallen back to
    /// subprocess.
    ///
    /// Returns `false` for the subprocess variant.
    pub fn did_plugin_fail(&self) -> (r: bool)
        ensures
            r == self.failed(),
    {
        match self {
            AnyRunner::Subprocess(_) => false,
            AnyRunner::Plugin { plugin_failed, .. } => *plugin_failed,
        }
    }
}

/// Build the runner backend selected by the configuration.
///
/// The plugin variant always has a subprocess fallback runner alongside the
/// plugin runner.
pub fn build_runner(backend: &RunnerBackend, timeout: u64, project_dir: String) -> (r: AnyRunner)
    ensures
        r == AnyRunner::built(*backend, timeout, project_dir),
{
    match *backend {
        RunnerBackend::Subprocess => AnyRunner::Subprocess(
            SubprocessRunner { timeout, project_dir },
        ),
        RunnerBackend::Plugin => AnyRunner::Plugin {
            plugin: PytestPluginRunner { timeout },
            subprocess: SubprocessRunner { timeout, project_dir },
            plugin_failed: false,
        },
    }
}

/// Once the plugin has failed, all mutants are run by subprocess, and the
/// failure is not forgotten.
pub proof fn law_fallback_is_final(runner: AnyRunner)
    ensures
        runner.without_plugin().active() is Subprocess,
        runner.without_plugin().without_plugin() == runner.without_plugin(),
        runner.failed() ==> runner.without_plugin() == runner && runner.active() is Subprocess,
        runner is Plugin ==> runner.without_plugin().failed(),
{
}

/// A runner keeps its variant and its backends, and has failed exactly when it
/// has a plugin that had failed before or fails in one of the calls.
proof fn lemma_failure_is_kept(runner: AnyRunner, calls: Seq<Call>)
    ensures
        runner.after_all(calls) is Plugin == runner is Plugin,
        runner.after_all(calls).failed() == (runner.failed() || runner is Plugin && exists|i: int|
            0 <= i < calls.len() && (#[trigger] calls[i]).is_plugin_failure()),
    decreases calls.len(),
{
    if calls.len() > 0 {
        let init = calls.drop_last();
        lemma_failure_is_kept(runner, init);
        if exists|i: int| 0 <= i < init.len() && (#[trigger] init[i]).is_plugin_failure() {
            let i = choose|i: int|
                0 <= i < init.len() && (#[trigger] init[i]).is_plugin_failure();
            assert(calls[i].is_plugin_failure());
        }
        if exists|i: int| 0 <= i < calls.len() && (#[trigger] calls[i]).is_plugin_failure() {
            let i = choose|i: int|
                0 <= i < calls.len() && (#[trigger] calls[i]).is_plugin_failure();
            if i < init.len() {
                assert(init[i].is_plugin_failure());
            }
        }
        if calls.last().is_plugin_failure() {
            assert(calls[calls.len() - 1].is_plugin_failure());
        }
    }
}

/// Whatever calls a runner has taken since it was built, in any order: one for
/// the subprocess backend never reports a failure of the plugin, and one for
/// the plugin backend reports it exactly when the plugin failed in one of the
/// calls. A failure once reported stays reported.
pub proof fn law_plugin_failure_is_remembered(
    backend: RunnerBackend,
    timeout: u64,
    project_dir: String,
    calls: Seq<Call>,
    more: Seq<Call>,
)
    ensures
        ({
            let before = AnyRunner::built(backend, timeout, project_dir).after_all(calls);
            let after = AnyRunner::built(backend, timeout, project_dir).after_all(calls + more);
            &&& backend is Subprocess ==> !before.failed()
            &&& backend is Plugin ==> (before.failed() <==> exists|i: int|
                0 <= i < calls.len() && (#[trigger] calls[i]).is_plugin_failure())
            &&& before.failed() ==> after.failed()
        }),
{
    let runner = AnyRunner::built(backend, timeout, project_dir);
    lemma_failure_is_kept(runner, calls);
    lemma_failure_is_kept(runner, calls + more);
    if runner.after_all(calls).failed() {
        let i = choose|i: int| 0 <= i < calls.len() && (#[trigger] calls[i]).is_plugin_failure();
        assert((calls + more)[i].is_plugin_failure());
    }
}

/// Build a `PYTHONPATH` string that prepends `dir` to any existing value.
pub fn build_python_path(dir: &str, existing: Option<&str>, separator: char) -> (r: String)
    ensures
        match existing {
            Some(path) if path@.len() > 0 => r@ == dir@ + seq![separator] + path@,
            _ => r@ == dir@,
        },
{
    let mut out: String = dir.to_owned();
    if let Some(path) = existing {
        if path.unicode_len() > 0 {
            out.push(separator);
            out.append(path);
            assert(out@ =~= dir@ + seq![separator] + path@);
        }
    }
    out
}

/// A runner has the timeout and the project directory that it was built with,
/// and starts with the backend that was asked for.
pub proof fn law_runners_are_built_as_asked(timeout: u64, project_dir: String)
    ensures
        ({
            let plain = AnyRunner::built(RunnerBackend::Subprocess, timeout, project_dir);
            let hosted = AnyRunner::built(RunnerBackend::Plugin, timeout, project_dir);
            &&& plain.active() is Subprocess
            &&& hosted.active() is Plugin
            &&& !plain.failed() && !hosted.failed()
            &&& plain matches AnyRunner::Subprocess(own)
            &&& own.timeout == timeout && own.project_dir == project_dir
            &&& hosted matches AnyRunner::Plugin { plugin, subprocess, .. }
            &&& plugin.timeout == timeout
            &&& subprocess.timeout == timeout && subprocess.project_dir == project_dir
        }),
{
}

} // verus!
