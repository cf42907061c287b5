//! Runner backends, the plugin and the interpreter.
use fest::config::types::RunnerBackend;
use fest::duration::Duration;
use fest::mutation::mutant::{Mutant, MutantResult, MutantStatus};
use fest::plugin::FEST_PLUGIN_SOURCE;
use fest::python::{
    local_venv, python_exe_name, resolve_python_inner, venv_bin_dir, venv_python, FoundPythons,
};
use fest::runner::{build_python_path, build_runner, AnyRunner, Backend, RunStep};
use fest::Error;

/// `build_runner` returns `AnyRunner::Subprocess` for the subprocess backend.
#[test]
fn build_runner_subprocess() {
    let runner = build_runner(&RunnerBackend::Subprocess, 10, "/project".to_owned());
    assert!(matches!(runner, AnyRunner::Subprocess(_)));
}

/// `build_runner` returns `AnyRunner::Plugin` for the plugin backend.
#[test]
fn build_runner_plugin() {
    let runner = build_runner(&RunnerBackend::Plugin, 10, "/project".to_owned());
    assert!(matches!(runner, AnyRunner::Plugin { .. }));
}

/// Plugin variant includes a fresh `plugin_failed` flag.
#[test]
fn build_runner_plugin_not_failed() {
    let runner = build_runner(&RunnerBackend::Plugin, 10, "/project".to_owned());
    if let AnyRunner::Plugin { plugin_failed, .. } = &runner {
        assert!(!plugin_failed);
    } else {
        panic!("expected AnyRunner::Plugin");
    }
}

/// Starting the subprocess backend hands its outcome on.
#[test]
fn any_runner_start_subprocess() {
    let mut runner = build_runner(&RunnerBackend::Subprocess, 10, "/project".to_owned());
    assert!(runner.start(Ok(())).is_ok());
    assert!(runner.start(Err(Error::Runner("x".to_owned()))).is_err());
    assert!(!runner.did_plugin_fail());
}

/// Starting the plugin backend absorbs errors and notes the failure.
#[test]
fn any_runner_start_plugin_absorbs_error() {
    let mut runner = build_runner(&RunnerBackend::Plugin, 0, "/project".to_owned());
    assert!(runner.start(Ok(())).is_ok());
    assert!(!runner.did_plugin_fail());
    let result = runner.start(Err(Error::Runner("no worker".to_owned())));
    assert!(result.is_ok());
    assert!(runner.did_plugin_fail());
    assert_eq!(runner.backend(), Backend::Subprocess);
}

/// A result of a mutant.
fn killed() -> MutantResult {
    MutantResult {
        mutant: Mutant {
            file_path: "a.py".to_owned(),
            line: 1,
            column: 1,
            byte_offset: 0,
            byte_length: 1,
            original_text: "+".to_owned(),
            mutated_text: "-".to_owned(),
            mutator_name: "op".to_owned(),
        },
        status: MutantStatus::Killed,
        tests_run: Vec::new(),
        duration: Duration::from_secs(0),
    }
}

/// A runner error of the plugin switches to subprocess for good.
#[test]
fn plugin_errors_fall_back_to_subprocess() {
    let mut runner = build_runner(&RunnerBackend::Plugin, 10, "/project".to_owned());
    assert_eq!(runner.backend(), Backend::Plugin);
    let done = runner.run_mutant(Backend::Plugin, Ok(killed()));
    assert!(matches!(done, RunStep::Done(Ok(_))));
    let other = runner.run_mutant(Backend::Plugin, Err(Error::Mutation("m".to_owned())));
    assert!(matches!(other, RunStep::Done(Err(Error::Mutation(_)))));
    assert!(!runner.did_plugin_fail());
    let again = runner.run_mutant(Backend::Plugin, Err(Error::Runner("gone".to_owned())));
    assert!(matches!(again, RunStep::Run(Backend::Subprocess)));
    assert!(runner.did_plugin_fail());
    assert_eq!(runner.backend(), Backend::Subprocess);
    let last = runner.run_mutant(Backend::Subprocess, Err(Error::Runner("bad".to_owned())));
    assert!(matches!(last, RunStep::Done(Err(Error::Runner(_)))));
}

/// A directory is put before the existing search path.
#[test]
fn python_path_is_prepended() {
    assert_eq!(build_python_path("/tmp/m", Some("/lib"), ':'), "/tmp/m:/lib");
    assert_eq!(build_python_path("/tmp/m", Some(""), ':'), "/tmp/m");
    assert_eq!(build_python_path("/tmp/m", None, ';'), "/tmp/m");
}

/// The embedded plugin source is non-empty.
#[test]
fn plugin_source_is_non_empty() {
    assert!(!FEST_PLUGIN_SOURCE.is_empty());
}

/// The embedded plugin source contains the expected pytest hook.
#[test]
fn plugin_source_contains_pytest_addoption() {
    assert!(FEST_PLUGIN_SOURCE.contains("def pytest_addoption"));
}

/// The embedded plugin source contains the session start hook.
#[test]
fn plugin_source_contains_session_start_hook() {
    assert!(FEST_PLUGIN_SOURCE.contains("def pytest_sessionstart"));
}

/// The embedded plugin source contains the fest-socket option.
#[test]
fn plugin_source_contains_socket_option() {
    assert!(FEST_PLUGIN_SOURCE.contains("--fest-socket"));
}

/// The embedded plugin source contains the ready message.
#[test]
fn plugin_source_contains_ready_message() {
    assert!(FEST_PLUGIN_SOURCE.contains(r#""type": "ready""#));
}

/// The embedded plugin source contains shutdown handling.
#[test]
fn plugin_source_contains_shutdown_handling() {
    assert!(FEST_PLUGIN_SOURCE.contains("shutdown"));
}

/// What is found of the interpreters.
fn found(active: bool, local: bool, absolute: Option<&str>) -> FoundPythons {
    FoundPythons { active, local, absolute: absolute.map(str::to_owned) }
}

/// When no venv is present, falls back to "python".
#[test]
fn fallback_to_bare_python() {
    let result = resolve_python_inner("/dir", None, false, &found(false, false, None));
    assert_eq!(result, python_exe_name(false));
    assert_eq!(result, "python");
    let windows = resolve_python_inner("/dir", None, true, &found(false, false, None));
    assert_eq!(windows, "python.exe");
}

/// Detects a local .venv directory.
#[test]
fn detects_local_venv() {
    let python = venv_python(&local_venv("/dir", false), false);
    assert_eq!(python, "/dir/.venv/bin/python");
    let result = resolve_python_inner("/dir", None, false, &found(false, true, Some(&python)));
    assert_eq!(result, python);
    let unknown = resolve_python_inner("/dir", None, false, &found(false, true, None));
    assert_eq!(unknown, python);
}

/// A relative project dir must still yield an absolute interpreter path.
#[test]
fn local_venv_resolves_to_absolute_path_for_relative_project_dir() {
    let absolute = "/home/u/proj/.venv/bin/python";
    let result = resolve_python_inner("proj", None, false, &found(false, true, Some(absolute)));
    assert_eq!(result, absolute);
}

/// VIRTUAL_ENV takes precedence over local .venv.
#[test]
fn virtual_env_takes_precedence() {
    let result = resolve_python_inner(
        "/dir",
        Some("/dir/my_venv"),
        false,
        &found(true, true, Some("/dir/.venv/bin/python")),
    );
    assert_eq!(result, "/dir/my_venv/bin/python");
    assert_eq!(venv_bin_dir("C:\\my_venv", true), "C:\\my_venv\\Scripts");
    assert_eq!(venv_python("C:", true), "C:Scripts\\python.exe");
    let missing = resolve_python_inner("/dir", Some("/gone"), false, &found(false, false, None));
    assert_eq!(missing, "python");
}

/// A failure of the plugin is remembered over further calls; the subprocess
/// backend never reports one.
#[test]
fn plugin_failure_is_remembered() {
    let mut runner = build_runner(&RunnerBackend::Plugin, 10, "/p".to_owned());
    assert!(runner.start(Ok(())).is_ok());
    runner.run_mutant(Backend::Plugin, Err(Error::Mutation("m".to_owned())));
    assert!(!runner.did_plugin_fail());
    runner.run_mutant(Backend::Plugin, Err(Error::Runner("r".to_owned())));
    assert!(runner.did_plugin_fail());
    assert!(runner.start(Ok(())).is_ok());
    runner.run_mutant(Backend::Subprocess, Err(Error::Runner("r".to_owned())));
    assert!(runner.did_plugin_fail());

    let mut plain = build_runner(&RunnerBackend::Subprocess, 10, "/p".to_owned());
    assert!(plain.start(Err(Error::Runner("r".to_owned()))).is_err());
    plain.run_mutant(Backend::Subprocess, Err(Error::Runner("r".to_owned())));
    assert!(!plain.did_plugin_fail());
}
