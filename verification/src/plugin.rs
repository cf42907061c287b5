//! Embedded pytest plugin.
//!
//! The plugin communicates over a Unix domain socket with JSON objects, one
//! per line, so that modules are patched in a running process instead of
//! spawning a fresh pytest process per mutant.
use vstd::prelude::*;

verus! {

/// Source of the pytest plugin.
///
/// The plugin:
///
/// 1. Accepts a `--fest-socket` option.
/// 2. Connects to a Unix domain socket on session start.
/// 3. Receives mutants as JSON, patches the target module, runs the relevant
///    tests, and sends results back.
///
/// It is written to a temporary directory at run time and registered with
/// pytest via `-p _fest_plugin`.
pub const FEST_PLUGIN_SOURCE: &'static str = "\"\"\"Pytest plugin that runs tests against mutants inside one process.

The plugin connects to a Unix domain socket and speaks JSON, one object per
line. It announces itself, then receives mutants, patches the module that each
mutant is in, runs the requested tests and sends back what happened.
\"\"\"
import json
import os
import socket
import sys
import traceback


class _State:
    def __init__(self):
        self.stream = None
        self.failed = False


_STATE = _State()


def pytest_addoption(parser):
    parser.addoption(\"--fest-socket\", default=None, help=\"socket to take mutants from\")


def pytest_sessionstart(session):
    path = session.config.getoption(\"--fest-socket\")
    if path is None:
        return
    connection = socket.socket(socket.AF_UNIX, socket.SOCK_STREAM)
    connection.connect(path)
    _STATE.stream = connection.makefile(\"rw\", encoding=\"utf-8\", newline=\"\\n\")


def pytest_runtest_logreport(report):
    if report.failed:
        _STATE.failed = True


def _send(message):
    _STATE.stream.write(json.dumps(message) + \"\\n\")
    _STATE.stream.flush()


def _module_of(path):
    wanted = os.path.realpath(path)
    for module in list(sys.modules.values()):
        origin = getattr(module, \"__file__\", None)
        if origin is not None and os.path.realpath(origin) == wanted:
            return module
    return None


def _run(session, message):
    module = _module_of(message[\"file\"])
    if module is None:
        return {\"type\": \"result\", \"status\": \"error\", \"message\": \"module is not loaded\"}
    wanted = set(message[\"tests\"])
    items = [item for item in session.items if item.nodeid in wanted]
    saved = dict(module.__dict__)
    _STATE.failed = False
    run = []
    try:
        exec(compile(message[\"source\"], message[\"file\"], \"exec\"), module.__dict__)
        for index, item in enumerate(items):
            following = items[index + 1] if index + 1 < len(items) else None
            item.config.hook.pytest_runtest_protocol(item=item, nextitem=following)
            run.append(item.nodeid)
            if _STATE.failed:
                break
    except BaseException:
        return {\"type\": \"result\", \"status\": \"killed\", \"message\": traceback.format_exc(), \"tests\": run}
    finally:
        module.__dict__.clear()
        module.__dict__.update(saved)
    status = \"killed\" if _STATE.failed else \"survived\"
    return {\"type\": \"result\", \"status\": status, \"message\": \"\", \"tests\": run}


def pytest_runtestloop(session):
    if _STATE.stream is None:
        return None
    _send({\"type\": \"ready\"})
    for line in _STATE.stream:
        message = json.loads(line)
        if message[\"type\"] == \"shutdown\":
            break
        _send(_run(session, message))
    return True
";

} // verus!
