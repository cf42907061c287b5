//! Python interpreter discovery.
//!
//! Resolves the path to the Python binary by checking, in order:
//! 1. The `VIRTUAL_ENV` environment variable (set by `source .venv/bin/activate`).
//! 2. A `.venv/` directory in the project root.
//! 3. Falls back to `"python"` (relies on `PATH`).
use vstd::prelude::*;

verus! {

/// The binary subdirectory inside a virtualenv: `Scripts` on Windows, else
/// `bin`.
pub open spec fn bin_name(windows: bool) -> Seq<char> {
    if windows {
        "Scripts"@
    } else {
        "bin"@
    }
}

/// The name of the Python executable.
pub open spec fn exe_name(windows: bool) -> Seq<char> {
    if windows {
        "python.exe"@
    } else {
        "python"@
    }
}

/// Whether a character ends a directory's path on a platform.
pub open spec fn is_separator(c: char, windows: bool) -> bool {
    c == '/' || (windows && c == '\\')
}

/// Whether a path is a bare drive, such as `C:`.
pub open spec fn is_drive(path: Seq<char>) -> bool {
    path.len() == 2 && path[1] == ':' && ('a' <= path[0] <= 'z' || 'A' <= path[0] <= 'Z')
}

/// The path of a name in a directory, with the separator of the platform. A
/// name on a bare drive of Windows follows it at once.
pub open spec fn entry_in(dir: Seq<char>, name: Seq<char>, windows: bool) -> Seq<char> {
    if dir.len() == 0 || is_separator(dir.last(), windows) || (windows && is_drive(dir)) {
        dir + name
    } else if windows {
        dir.push('\\') + name
    } else {
        dir.push('/') + name
    }
}

/// The path of a name in a directory.
fn join_entry(dir: &str, name: &str, windows: bool) -> (r: String)
    ensures
        r@ == entry_in(dir@, name@, windows),
{
    let total: usize = dir.unicode_len();
    let mut out: String = dir.to_owned();
    if total > 0 {
        let last: char = dir.get_char(total - 1);
        let ends: bool = last == '/' || (windows && last == '\\');
        let drive: bool = windows && total == 2 && last == ':' && is_letter(dir.get_char(0));
        if !ends && !drive {
            out.push(if windows {
                '\\'
            } else {
                '/'
            });
        }
    }
    out.append(name);
    out
}

/// Whether a character is an ASCII letter.
fn is_letter(c: char) -> (r: bool)
    ensures
        r == ('a' <= c <= 'z' || 'A' <= c <= 'Z'),
{
    ('a' <= c && c <= 'z') || ('A' <= c && c <= 'Z')
}

/// The path of the interpreter inside a virtualenv.
pub open spec fn interpreter_in(venv: Seq<char>, windows: bool) -> Seq<char> {
    entry_in(entry_in(venv, bin_name(windows), windows), exe_name(windows), windows)
}

/// Return the binary subdirectory inside a virtualenv.
pub fn venv_bin_dir(venv: &str, windows: bool) -> (r: String)
    ensures
        r@ == entry_in(venv@, bin_name(windows), windows),
{
    if windows {
        join_entry(venv, "Scripts", windows)
    } else {
        join_entry(venv, "bin", windows)
    }
}

/// Return the Python executable name for a platform.
pub fn python_exe_name(windows: bool) -> (r: &'static str)
    ensures
        r@ == exe_name(windows),
{
    if windows {
        "python.exe"
    } else {
        "python"
    }
}

/// The path of the interpreter inside a virtualenv.
pub fn venv_python(venv: &str, windows: bool) -> (r: String)
    ensures
        r@ == interpreter_in(venv@, windows),
{
    join_entry(venv_bin_dir(venv, windows).as_str(), python_exe_name(windows), windows)
}

/// The local virtualenv of a project.
pub fn local_venv(project_dir: &str, windows: bool) -> (r: String)
    ensures
        r@ == entry_in(project_dir@, ".venv"@, windows),
{
    join_entry(project_dir, ".venv", windows)
}

/// What is found of the interpreters that come into question.
#[derive(Debug)]
pub struct FoundPythons {
    /// Whether the interpreter of the active virtualenv exists.
    pub active: bool,
    /// Whether the local virtualenv is a directory and its interpreter exists.
    pub local: bool,
    /// The absolute path of the local interpreter, where it is known.
    pub absolute: Option<String>,
}

/// Resolve the Python interpreter for the given project directory.
///
/// Takes the interpreter of the active virtualenv where it exists, else that
/// of the local `.venv`, by its absolute path where it is known, and else the
/// bare command, found via `PATH`.
pub fn resolve_python_inner(
    project_dir: &str,
    virtual_env: Option<&str>,
    windows: bool,
    found: &FoundPythons,
) -> (r: String)
    ensures
        match virtual_env {
            Some(venv) if found.active => r@ == interpreter_in(venv@, windows),
            _ => if found.local {
                match found.absolute {
                    Some(path) => r@ == path@,
                    None => r@ == interpreter_in(
                        entry_in(project_dir@, ".venv"@, windows),
                        windows,
                    ),
                }
            } else {
                r@ == exe_name(windows)
            },
        },
{
    if let Some(venv) = virtual_env {
        if found.active {
            return venv_python(venv, windows);
        }
    }
    if found.local {
        return match &found.absolute {
            Some(path) => path.clone(),
            None => venv_python(local_venv(project_dir, windows).as_str(), windows),
        };
    }
    python_exe_name(windows).to_owned()
}

/// An entry of a directory is put behind it with one separator between them: a
/// backslash on Windows and a slash elsewhere, and none where the directory
/// ends with one already, is empty, or is a bare drive.
pub proof fn law_entries_are_put_behind_their_directory(dir: Seq<char>, name: Seq<char>)
    ensures
        entry_in(dir.push('/'), name, false) == dir.push('/') + name,
        dir.len() > 0 && dir.last() != '/' ==> entry_in(dir, name, false) == dir.push('/') + name,
        entry_in(dir.push('/'), name, true) == dir.push('/') + name,
        entry_in(dir.push('\\'), name, true) == dir.push('\\') + name,
        dir.len() > 0 && dir.last() != '/' && dir.last() != '\\' && dir.last() != ':' ==> entry_in(
            dir,
            name,
            true,
        ) == dir.push('\\') + name,
        entry_in("C:"@, name, true) == "C:"@ + name,
        entry_in("C:"@, name, false) == "C:/"@ + name,
        entry_in(Seq::empty(), name, false) == name,
        entry_in(Seq::empty(), name, true) == name,
{
    reveal_strlit("C:");
    reveal_strlit("C:/");
    assert("C:"@.push('/') =~= "C:/"@);
    assert("C:"@.last() == ':');
    assert(Seq::<char>::empty() + name =~= name);
}

/// The interpreter of an environment lies in `bin`, or in `Scripts` on Windows.
pub proof fn law_interpreters_lie_in_their_environment(venv: Seq<char>)
    requires
        venv.len() > 0,
        venv.last() != '/',
        venv.last() != '\\',
        venv.last() != ':',
    ensures
        interpreter_in(venv, false) == venv + "/bin/python"@,
        interpreter_in(venv, true) == venv + "\\Scripts\\python.exe"@,
{
    reveal_strlit("bin");
    reveal_strlit("Scripts");
    reveal_strlit("python");
    reveal_strlit("python.exe");
    reveal_strlit("/bin/python");
    reveal_strlit("\\Scripts\\python.exe");
    let unix = venv.push('/') + "bin"@;
    assert(unix.last() == 'n');
    assert(unix.push('/') + "python"@ =~= venv + "/bin/python"@);
    let other = venv.push('\\') + "Scripts"@;
    assert(other.last() == 's');
    assert(other.push('\\') + "python.exe"@ =~= venv + "\\Scripts\\python.exe"@);
}

} // verus!
