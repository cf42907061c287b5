//! The `[tool.fest]` section of a `pyproject.toml`.
use fest::init::{run, InitArgs, InitFormat, ProjectFacts};
use fest::pyproject::{remove_section, replace_section, text_has_fest_section};
use fest::Error;

/// A project with a `pyproject.toml`.
fn project(pyproject: &str) -> ProjectFacts {
    ProjectFacts {
        entries: Vec::new(),
        src_entries: None,
        has_manage: false,
        has_docs: false,
        has_examples: false,
        has_scripts: false,
        has_pyproject: true,
        has_fest_toml: false,
        pyproject: Some(pyproject.to_owned()),
    }
}

const FORCED: InitArgs = InitArgs { format: InitFormat::Pyproject, force: true };

/// The section is replaced, and all else stays as it is written.
#[test]
fn forced_init_replaces_the_section() {
    let text = "[project]\nname = \"a\"\n\n[tool.fest] # old\nexclude = [\n  \"x\",\n]\n\n\
                [tool.fest.mutators]\nunary_op = false\n\n# Style.\n[tool.black]\nline-length = 9\n";
    let plan = run(&FORCED, &project(text)).expect("forced init should succeed");
    assert_eq!(plan.file_name, "pyproject.toml");
    assert!(!plan.append);
    let kept = "[project]\nname = \"a\"\n\n\n# Style.\n[tool.black]\nline-length = 9";
    assert!(plan.content.starts_with(&format!("{kept}\n\n[tool.fest]\n")));
    assert_eq!(plan.content.matches("[tool.fest").count(), 1);
    assert!(text_has_fest_section(&plan.content));
}

/// Replacing twice is replacing once.
#[test]
fn forced_init_again_changes_nothing() {
    let first = run(&FORCED, &project("[tool.fest]\ntimeout = 3\n")).expect("should succeed");
    let second = run(&FORCED, &project(&first.content)).expect("should succeed");
    assert_eq!(first.content, second.content);
}

/// A file without a section has it appended.
#[test]
fn forced_init_appends_a_first_section() {
    let plan = run(&FORCED, &project("[project]\nname = \"a\"\n")).expect("should succeed");
    assert!(plan.append);
    assert!(plan.content.starts_with("\n[tool.fest]\n"));
}

/// The section goes in all its spellings.
#[test]
fn every_spelling_of_the_section_goes() {
    assert_eq!(remove_section("[tool . \"fest\"]\na = 1\n"), "");
    assert_eq!(remove_section("[tool]\nfest = { a = 1 }\nx = 2\n"), "[tool]\nx = 2");
    assert_eq!(remove_section("tool.fest.a = 1\nx = 2\n"), "x = 2");
    assert_eq!(remove_section("[[tool.fest.per-file]]\nskip = true\n[a]\r\n"), "[a]\r");
    assert_eq!(remove_section("[a]\nb = 1 # [tool.fest]\n"), "[a]\nb = 1 # [tool.fest]");
}

/// A section that cannot be told from the rest line by line is left alone.
#[test]
fn section_in_a_string_is_not_torn_out() {
    let text = "[a]\nb = '''\n[tool.fest]\n'''\n[tool.fest]\nc = 1\n";
    assert!(replace_section(text, "[tool.fest]\n").is_none());
    let inline = "tool = { fest = { a = 1 }, black = { b = 2 } }\n";
    assert!(replace_section(inline, "[tool.fest]\n").is_none());
    match run(&FORCED, &project(inline)) {
        Err(Error::Config(message)) => {
            assert_eq!(message, "[tool.fest] in pyproject.toml cannot be replaced");
        }
        other => panic!("expected an error, got {other:?}"),
    }
}

/// What a forced `init` writes is TOML with one section.
#[test]
fn forced_section_can_be_read() {
    let plan = run(&FORCED, &project("[tool.fest]\ntimeout = 77\n")).expect("should succeed");
    assert!(plan.content.starts_with("[tool.fest]\n"));
    assert!(!plan.content.contains("timeout = 77"));
    let table = plan.content.parse::<toml::Table>().expect("should be TOML");
    assert!(table["tool"].get("fest").is_some());
}
