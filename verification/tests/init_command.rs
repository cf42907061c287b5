//! Project scaffolding.
use fest::init::{
    check_existing_config, detect_exclude_patterns, detect_source_patterns, fest_toml_content,
    find_packages_in, generate_config, is_non_source_dir, pyproject_section, run, DirEntry,
    InitArgs, InitFormat, ProjectFacts, ProjectLayout,
};
use fest::Error;

/// A package directory.
fn package(name: &str) -> DirEntry {
    DirEntry { name: name.to_owned(), is_dir: true, has_init: true }
}

/// An empty project directory.
fn empty() -> ProjectFacts {
    ProjectFacts {
        entries: Vec::new(),
        src_entries: None,
        has_manage: false,
        has_docs: false,
        has_examples: false,
        has_scripts: false,
        has_pyproject: false,
        has_fest_toml: false,
        pyproject: None,
    }
}

#[test]
fn detect_src_layout() {
    let facts = ProjectFacts { src_entries: Some(vec![package("mypackage")]), ..empty() };
    assert_eq!(detect_source_patterns(&facts), vec!["src/mypackage/**/*.py"]);
}

#[test]
fn detect_src_layout_multiple_packages() {
    let facts =
        ProjectFacts { src_entries: Some(vec![package("beta"), package("alpha")]), ..empty() };
    assert_eq!(detect_source_patterns(&facts), vec!["src/alpha/**/*.py", "src/beta/**/*.py"]);
}

#[test]
fn detect_src_layout_without_packages() {
    let facts = ProjectFacts { src_entries: Some(Vec::new()), ..empty() };
    assert_eq!(detect_source_patterns(&facts), vec!["src/**/*.py"]);
}

#[test]
fn detect_flat_layout() {
    let facts = ProjectFacts { entries: vec![package("mylib")], ..empty() };
    assert_eq!(detect_source_patterns(&facts), vec!["mylib/**/*.py"]);
}

#[test]
fn detect_flat_layout_excludes_tests_dir() {
    let facts = ProjectFacts { entries: vec![package("mylib"), package("tests")], ..empty() };
    assert_eq!(detect_source_patterns(&facts), vec!["mylib/**/*.py"]);
}

#[test]
fn detect_fallback_when_empty() {
    assert_eq!(detect_source_patterns(&empty()), vec!["src/**/*.py"]);
}

#[test]
fn detect_excludes_django_migrations() {
    let facts = ProjectFacts { has_manage: true, ..empty() };
    let excludes = detect_exclude_patterns(&facts);
    assert!(excludes.iter().any(|pat| pat.contains("migrations")));
}

#[test]
fn detect_excludes_always_has_test_patterns() {
    let excludes = detect_exclude_patterns(&empty());
    assert!(excludes.contains(&"**/test_*.py".to_owned()));
    assert!(excludes.contains(&"**/conftest.py".to_owned()));
}

#[test]
fn common_directories_are_excluded() {
    let facts = ProjectFacts { has_docs: true, has_examples: true, has_scripts: true, ..empty() };
    assert_eq!(
        detect_exclude_patterns(&facts),
        vec![
            "**/test_*.py",
            "**/conftest.py",
            "docs/**/*.py",
            "examples/**/*.py",
            "scripts/**/*.py"
        ]
    );
}

/// A layout with the given patterns.
fn layout(source: &[&str], exclude: &[&str]) -> ProjectLayout {
    ProjectLayout {
        source_patterns: source.iter().map(|s| (*s).to_owned()).collect(),
        exclude_patterns: exclude.iter().map(|s| (*s).to_owned()).collect(),
        has_pyproject: false,
        has_fest_toml: false,
    }
}

#[test]
fn generate_config_includes_source_and_timeout() {
    let config = generate_config(&layout(&["src/myapp/**/*.py"], &["**/test_*.py"]));
    assert!(config.contains("source = [\"src/myapp/**/*.py\"]"));
    assert!(config.contains("exclude = [\"**/test_*.py\"]"));
    assert!(config.contains("timeout = 30"));
    assert!(config.contains("session = \".fest-session.db\""));
}

#[test]
fn generated_config_is_exact() {
    assert_eq!(
        generate_config(&layout(&["a/**/*.py", "b/**/*.py"], &[])),
        "source = [\"a/**/*.py\", \"b/**/*.py\"]\ntimeout = 30\nsession = \".fest-session.db\""
    );
}

#[test]
fn write_fest_toml_creates_file() {
    let content = fest_toml_content("source = [\"src/**/*.py\"]\ntimeout = 30");
    assert!(content.starts_with("[fest]\n"));
    assert!(content.contains("source = [\"src/**/*.py\"]"));
    assert_eq!(content, "[fest]\nsource = [\"src/**/*.py\"]\ntimeout = 30\n");
}

#[test]
fn write_pyproject_appends_section() {
    let mut content = "[project]\nname = \"myapp\"\n".to_owned();
    content.push_str(&pyproject_section("source = [\"src/**/*.py\"]", true));
    assert!(content.contains("[project]"));
    assert!(content.contains("[tool.fest]"));
    assert!(content.contains("source = [\"src/**/*.py\"]"));
    assert_eq!(pyproject_section("x = 1", true), "\n[tool.fest]\nx = 1\n");
    assert_eq!(pyproject_section("x = 1", false), "[tool.fest]\nx = 1\n");
}

#[test]
fn check_existing_fest_toml_errors() {
    let layout = ProjectLayout {
        source_patterns: vec![],
        exclude_patterns: vec![],
        has_pyproject: false,
        has_fest_toml: true,
    };
    let result = check_existing_config(InitFormat::FestToml, &layout, &None);
    assert!(result.is_err());
}

#[test]
fn is_non_source_dir_filters_correctly() {
    assert!(is_non_source_dir("tests"));
    assert!(is_non_source_dir("venv"));
    assert!(is_non_source_dir("docs"));
    assert!(!is_non_source_dir("mypackage"));
    assert!(!is_non_source_dir("flask"));
}

#[test]
fn find_packages_in_empty_dir() {
    assert!(find_packages_in(&Vec::new()).is_empty());
}

#[test]
fn find_packages_skips_hidden_dirs() {
    assert!(find_packages_in(&vec![package(".hidden")]).is_empty());
    let plain = DirEntry { name: "a".to_owned(), is_dir: true, has_init: false };
    let file = DirEntry { name: "b.py".to_owned(), is_dir: false, has_init: false };
    assert!(find_packages_in(&vec![plain, file]).is_empty());
}

#[test]
fn init_end_to_end_fest_toml() {
    let facts = ProjectFacts { src_entries: Some(vec![package("myapp")]), ..empty() };
    let args = InitArgs { format: InitFormat::FestToml, force: false };
    let plan = run(&args, &facts).expect("init should succeed");
    assert_eq!(plan.file_name, "fest.toml");
    assert!(!plan.append);
    assert!(plan.content.contains("[fest]"));
    assert!(plan.content.contains("src/myapp/**/*.py"));
}

#[test]
fn init_end_to_end_pyproject() {
    let facts = ProjectFacts {
        src_entries: Some(vec![package("myapp")]),
        has_pyproject: true,
        pyproject: Some("[project]\nname = \"test\"\n".to_owned()),
        ..empty()
    };
    let args = InitArgs { format: InitFormat::Pyproject, force: false };
    let plan = run(&args, &facts).expect("init should succeed");
    assert_eq!(plan.file_name, "pyproject.toml");
    assert!(plan.append);
    assert!(plan.content.contains("[tool.fest]"));
    assert!(plan.content.contains("src/myapp/**/*.py"));
}

#[test]
fn init_refuses_overwrite_without_force() {
    let facts = ProjectFacts { has_fest_toml: true, ..empty() };
    let args = InitArgs { format: InitFormat::FestToml, force: false };
    assert!(run(&args, &facts).is_err());
}

#[test]
fn init_overwrites_with_force() {
    let facts = ProjectFacts {
        has_fest_toml: true,
        src_entries: Some(vec![package("myapp")]),
        ..empty()
    };
    let args = InitArgs { format: InitFormat::FestToml, force: true };
    let plan = run(&args, &facts).expect("force init should succeed");
    assert!(plan.content.contains("src/myapp/**/*.py"));
}

/// A section that is there already is not appended again.
#[test]
fn init_refuses_a_second_section() {
    let args = InitArgs { format: InitFormat::Pyproject, force: false };
    let with = |text: &str| ProjectFacts {
        has_pyproject: true,
        pyproject: Some(text.to_owned()),
        ..empty()
    };
    let result = run(&args, &with("[tool.fest]\ntimeout = 3\n"));
    assert!(matches!(result, Err(Error::Config(m))
        if m == "[tool.fest] already exists in pyproject.toml (use --force to overwrite)"));
    assert!(run(&args, &with("[tool.other]\nx = 1\n")).is_ok());
    assert!(run(&args, &with("tool = 3\n")).is_ok());
    assert!(run(&args, &with("not toml [[[")).is_ok());
}
