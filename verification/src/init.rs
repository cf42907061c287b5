//! Project scaffolding: a starter configuration for a Python project.
//!
//! Looks at what is in a directory to detect the Python project layout and
//! says what to write to `fest.toml` (or to append to `pyproject.toml`), with
//! meaningful defaults.
use crate::error::Error;
use crate::order;
use crate::pyproject::{
    is_replaceable, replace_section, sets_section, text_has_fest_section, with_section,
};
use crate::text::{lemma_shows, shows, texts};
use vstd::prelude::*;

verus! {

/// Format for the generated configuration.
#[derive(Debug, Clone, Copy, PartialEq, Eq, Structural)]
pub enum InitFormat {
    /// Standalone `fest.toml` file.
    FestToml,
    /// Append `[tool.fest]` section to `pyproject.toml`.
    Pyproject,
}

impl Default for InitFormat {
    fn default() -> (r: Self)
        ensures
            r is FestToml,
    {
        InitFormat::FestToml
    }
}

/// Arguments for the `init` subcommand.
#[derive(Debug)]
pub struct InitArgs {
    /// Configuration format to generate.
    pub format: InitFormat,
    /// Overwrite an existing configuration file.
    pub force: bool,
}

/// An entry of a directory.
#[derive(Debug)]
pub struct DirEntry {
    /// Name of the entry.
    pub name: String,
    /// Whether it is a directory.
    pub is_dir: bool,
    /// Whether it holds an `__init__.py`.
    pub has_init: bool,
}

/// What is found in a project directory.
#[derive(Debug)]
pub struct ProjectFacts {
    /// Entries of the directory.
    pub entries: Vec<DirEntry>,
    /// Entries of `src`, where it is a directory.
    pub src_entries: Option<Vec<DirEntry>>,
    /// Whether there is a `manage.py`.
    pub has_manage: bool,
    /// Whether `docs` is a directory.
    pub has_docs: bool,
    /// Whether `examples` is a directory.
    pub has_examples: bool,
    /// Whether `scripts` is a directory.
    pub has_scripts: bool,
    /// Whether `pyproject.toml` is a file.
    pub has_pyproject: bool,
    /// Whether `fest.toml` is a file.
    pub has_fest_toml: bool,
    /// Text of `pyproject.toml`, where it can be read.
    pub pyproject: Option<String>,
}

/// Detected Python project layout.
#[derive(Debug)]
pub struct ProjectLayout {
    /// Source glob patterns discovered.
    pub source_patterns: Vec<String>,
    /// Suggested exclude patterns.
    pub exclude_patterns: Vec<String>,
    /// Whether `pyproject.toml` already exists.
    pub has_pyproject: bool,
    /// Whether `fest.toml` already exists.
    pub has_fest_toml: bool,
}

/// What to write where.
#[derive(Debug)]
pub struct WritePlan {
    /// Name of the file in the project directory.
    pub file_name: &'static str,
    /// Whether to append to the file instead of replacing it.
    pub append: bool,
    /// The text to write.
    pub content: String,
}

/// Whether an entry is a Python package that is not hidden.
pub open spec fn is_package(entry: DirEntry) -> bool {
    entry.is_dir && entry.has_init && !(entry.name@.len() > 0 && entry.name@[0] == '.')
}

/// The names of the packages among entries, in their order.
pub open spec fn package_names(entries: Seq<DirEntry>) -> Seq<Seq<char>>
    decreases entries.len(),
{
    if entries.len() == 0 {
        Seq::empty()
    } else if is_package(entries.last()) {
        package_names(entries.drop_last()).push(entries.last().name@)
    } else {
        package_names(entries.drop_last())
    }
}

/// Whether no text of a list is sorted before an earlier one.
pub open spec fn is_sorted(list: Seq<Seq<char>>) -> bool {
    forall|i: int, j: int|
        0 <= i < j < list.len() ==> !order::text_less(#[trigger] list[j], #[trigger] list[i])
}

/// Whether `sorted` holds the texts of `list` in sorted order.
pub open spec fn sorts(list: Seq<Seq<char>>, sorted: Seq<Seq<char>>) -> bool {
    is_sorted(sorted) && sorted.to_multiset() == list.to_multiset()
}

/// Inserting an item adds it to the items of a list.
proof fn lemma_insert_adds(list: Seq<Seq<char>>, i: int, item: Seq<char>)
    requires
        0 <= i <= list.len(),
    ensures
        list.insert(i, item).to_multiset() == list.to_multiset().insert(item),
{
    let wide = list.insert(i, item);
    assert(wide.remove(i) =~= list);
    wide.to_multiset_ensures();
    assert(wide[i] == item);
    assert(wide.contains(item));
    assert(wide.to_multiset() =~= list.to_multiset().insert(item));
}

/// Find Python package directories (containing `__init__.py`) among the
/// entries of a directory.
pub fn find_packages_in(entries: &Vec<DirEntry>) -> (r: Vec<String>)
    ensures
        sorts(package_names(entries@), texts(r@)),
{
    let mut packages: Vec<String> = Vec::new();
    let mut i: usize = 0;
    assert(texts(packages@) =~= Seq::empty());
    while i < entries.len()
        invariant
            i <= entries@.len(),
            sorts(package_names(entries@.take(i as int)), texts(packages@)),
        decreases entries.len() - i,
    {
        assert(entries@.take(i + 1).drop_last() =~= entries@.take(i as int));
        assert(entries@.take(i + 1).last() == entries@[i as int]);
        let name: &String = &entries[i].name;
        let hidden: bool = name.as_str().unicode_len() > 0 && name.as_str().get_char(0) == '.';
        if entries[i].is_dir && entries[i].has_init && !hidden {
            let ghost names = package_names(entries@.take(i as int));
            proof {
                names.to_multiset_ensures();
            }
            insert_text(&mut packages, name.clone());
        }
        i = i + 1;
    }
    assert(entries@.take(i as int) =~= entries@);
    packages
}

/// Puts a text in its place in a sorted list.
fn insert_text(list: &mut Vec<String>, item: String)
    requires
        is_sorted(texts(old(list)@)),
    ensures
        is_sorted(texts(final(list)@)),
        texts(final(list)@).to_multiset() == texts(old(list)@).to_multiset().insert(item@),
{
    let ghost all = texts(list@);
    let mut i: usize = 0;
    while i < list.len() && !order::is_text_less(item.as_str(), list[i].as_str())
        invariant
            all == texts(list@),
            i <= list@.len(),
            is_sorted(all),
            forall|j: int| 0 <= j < i ==> !order::text_less(item@, #[trigger] all[j]),
        decreases list.len() - i,
    {
        assert(all[i as int] == list@[i as int]@);
        i = i + 1;
    }
    proof {
        if i < list@.len() {
            assert(all[i as int] == list@[i as int]@);
            assert forall|j: int| i <= j < all.len() implies !order::text_less(
                #[trigger] all[j],
                item@,
            ) by {
                order::lemma_text_total(item@, all[j]);
                if order::text_less(all[j], item@) && i < j {
                    order::lemma_lex_transitive(
                        order::text_key(all[j]),
                        order::text_key(item@),
                        order::text_key(all[i as int]),
                    );
                }
            }
        }
        lemma_insert_adds(all, i as int, item@);
    }
    list.insert(i, item);
    proof {
        let wide = all.insert(i as int, item@);
        assert(texts(list@) =~= wide);
        assert forall|a: int, b: int| 0 <= a < b < wide.len() implies !order::text_less(
            #[trigger] wide[b],
            #[trigger] wide[a],
        ) by {
            let x = if a < i {
                a
            } else {
                a - 1
            };
            let y = if b <= i {
                b
            } else {
                b - 1
            };
            if a == i {
                assert(wide[b] == all[y]);
            } else if b == i {
                assert(wide[a] == all[x]);
            } else {
                assert(wide[a] == all[x]);
                assert(wide[b] == all[y]);
            }
        }
    }
}

/// Names of directories that are unlikely to be source code.
pub open spec fn is_other_dir(name: Seq<char>) -> bool {
    ||| name == "tests"@
    ||| name == "test"@
    ||| name == "docs"@
    ||| name == "doc"@
    ||| name == "examples"@
    ||| name == "benchmarks"@
    ||| name == "bench"@
    ||| name == "scripts"@
    ||| name == "tools"@
    ||| name == "vendor"@
    ||| name == "venv"@
    ||| name == "env"@
    ||| name == "node_modules"@
    ||| name == "__pycache__"@
}

/// Returns `true` for directory names that are unlikely to be source code.
pub fn is_non_source_dir(name: &str) -> (r: bool)
    ensures
        r == is_other_dir(name@),
{
    crate::text::same(name, "tests") || crate::text::same(name, "test") || crate::text::same(
        name,
        "docs",
    ) || crate::text::same(name, "doc") || crate::text::same(name, "examples")
        || crate::text::same(name, "benchmarks") || crate::text::same(name, "bench")
        || crate::text::same(name, "scripts") || crate::text::same(name, "tools")
        || crate::text::same(name, "vendor") || crate::text::same(name, "venv")
        || crate::text::same(name, "env") || crate::text::same(name, "node_modules")
        || crate::text::same(name, "__pycache__")
}

/// The pattern for the Python files of each package below a directory.
pub open spec fn package_patterns(prefix: Seq<char>, names: Seq<Seq<char>>) -> Seq<Seq<char>>
    decreases names.len(),
{
    if names.len() == 0 {
        Seq::empty()
    } else {
        package_patterns(prefix, names.drop_last()).push(prefix + names.last() + "/**/*.py"@)
    }
}

/// The names that are likely to be source code, in their order.
pub open spec fn source_dirs(names: Seq<Seq<char>>) -> Seq<Seq<char>>
    decreases names.len(),
{
    if names.len() == 0 {
        Seq::empty()
    } else if is_other_dir(names.last()) {
        source_dirs(names.drop_last())
    } else {
        source_dirs(names.drop_last()).push(names.last())
    }
}

/// The source patterns for the sorted packages below `src`, where it is a
/// directory, and for the sorted packages of the project directory.
pub open spec fn source_patterns_of(
    src_packages: Option<Seq<Seq<char>>>,
    packages: Seq<Seq<char>>,
) -> Seq<Seq<char>> {
    match src_packages {
        Some(names) => if names.len() > 0 {
            package_patterns("src/"@, names)
        } else {
            seq!["src/**/*.py"@]
        },
        None => if source_dirs(packages).len() > 0 {
            package_patterns(""@, source_dirs(packages))
        } else {
            seq!["src/**/*.py"@]
        },
    }
}

/// Whether `patterns` are the source patterns of a project.
pub open spec fn are_source_patterns(facts: ProjectFacts, patterns: Seq<Seq<char>>) -> bool {
    match facts.src_entries {
        Some(entries) => exists|names: Seq<Seq<char>>| #[trigger]
            sorts(package_names(entries@), names) && patterns == source_patterns_of(
                Some(names),
                Seq::empty(),
            ),
        None => exists|names: Seq<Seq<char>>| #[trigger]
            sorts(package_names(facts.entries@), names) && patterns == source_patterns_of(
                None,
                names,
            ),
    }
}

/// Writes the pattern for each package.
fn list_patterns(prefix: &str, names: &Vec<String>) -> (r: Vec<String>)
    ensures
        texts(r@) == package_patterns(prefix@, texts(names@)),
{
    let mut out: Vec<String> = Vec::new();
    let mut i: usize = 0;
    assert(texts(out@) =~= Seq::empty());
    while i < names.len()
        invariant
            i <= names@.len(),
            texts(out@) == package_patterns(prefix@, texts(names@).take(i as int)),
        decreases names.len() - i,
    {
        let ghost before = texts(out@);
        let ghost all = texts(names@);
        assert(all.take(i + 1).drop_last() =~= all.take(i as int));
        assert(all.take(i + 1).last() == names@[i as int]@);
        let mut pattern: String = prefix.to_owned();
        pattern.append(names[i].as_str());
        pattern.append("/**/*.py");
        out.push(pattern);
        assert(texts(out@) =~= before.push(prefix@ + names@[i as int]@ + "/**/*.py"@));
        i = i + 1;
    }
    assert(texts(names@).take(i as int) =~= texts(names@));
    out
}

/// The list of one pattern that matches all files below `src`.
fn broad_pattern() -> (r: Vec<String>)
    ensures
        texts(r@) == seq!["src/**/*.py"@],
{
    let mut out: Vec<String> = Vec::new();
    out.push("src/**/*.py".to_owned());
    assert(texts(out@) =~= seq!["src/**/*.py"@]);
    out
}

/// Detect source glob patterns by inspecting common Python project layouts.
///
/// Checks (in order):
/// 1. `src/<package>/` layout
/// 2. Top-level package directories (flat layout)
/// 3. Fallback to `src/**/*.py`
pub fn detect_source_patterns(facts: &ProjectFacts) -> (r: Vec<String>)
    ensures
        are_source_patterns(*facts, texts(r@)),
{
    match &facts.src_entries {
        Some(entries) => {
            let packages: Vec<String> = find_packages_in(entries);
            assert(sorts(package_names(entries@), texts(packages@)));
            if packages.len() > 0 {
                list_patterns("src/", &packages)
            } else {
                broad_pattern()
            }
        },
        None => {
            let packages: Vec<String> = find_packages_in(&facts.entries);
            let ghost all = texts(packages@);
            assert(sorts(package_names(facts.entries@), all));
            let mut top_level: Vec<String> = Vec::new();
            let mut i: usize = 0;
            assert(texts(top_level@) =~= Seq::empty());
            while i < packages.len()
                invariant
                    all == texts(packages@),
                    i <= packages@.len(),
                    texts(top_level@) == source_dirs(all.take(i as int)),
                decreases packages.len() - i,
            {
                let ghost before = texts(top_level@);
                assert(all.take(i + 1).drop_last() =~= all.take(i as int));
                assert(all.take(i + 1).last() == packages@[i as int]@);
                if !is_non_source_dir(packages[i].as_str()) {
                    top_level.push(packages[i].clone());
                    assert(texts(top_level@) =~= before.push(packages@[i as int]@));
                }
                i = i + 1;
            }
            assert(all.take(i as int) =~= all);
            if top_level.len() > 0 {
                list_patterns("", &top_level)
            } else {
                broad_pattern()
            }
        },
    }
}

/// Patterns with one more, where a condition holds.
pub open spec fn with_pattern(
    patterns: Seq<Seq<char>>,
    condition: bool,
    pattern: Seq<char>,
) -> Seq<Seq<char>> {
    if condition {
        patterns.push(pattern)
    } else {
        patterns
    }
}

/// The exclude patterns of a project: test files always, and what is common
/// where it is there.
pub open spec fn exclude_patterns_of(facts: ProjectFacts) -> Seq<Seq<char>> {
    let always = seq!["**/test_*.py"@, "**/conftest.py"@];
    with_pattern(
        with_pattern(
            with_pattern(
                with_pattern(always, facts.has_manage, "**/migrations/**/*.py"@),
                facts.has_docs,
                "docs/**/*.py"@,
            ),
            facts.has_examples,
            "examples/**/*.py"@,
        ),
        facts.has_scripts,
        "scripts/**/*.py"@,
    )
}

/// Adds a pattern where a condition holds.
fn add_pattern(patterns: &mut Vec<String>, condition: bool, pattern: &str)
    ensures
        texts(final(patterns)@) == with_pattern(texts(old(patterns)@), condition, pattern@),
{
    if condition {
        let ghost before = texts(patterns@);
        patterns.push(pattern.to_owned());
        assert(texts(patterns@) =~= before.push(pattern@));
    }
}

/// Detect common exclude patterns based on what exists in the project.
pub fn detect_exclude_patterns(facts: &ProjectFacts) -> (r: Vec<String>)
    ensures
        texts(r@) == exclude_patterns_of(*facts),
{
    let mut excludes: Vec<String> = Vec::new();
    excludes.push("**/test_*.py".to_owned());
    excludes.push("**/conftest.py".to_owned());
    assert(texts(excludes@) =~= seq!["**/test_*.py"@, "**/conftest.py"@]);
    add_pattern(&mut excludes, facts.has_manage, "**/migrations/**/*.py");
    add_pattern(&mut excludes, facts.has_docs, "docs/**/*.py");
    add_pattern(&mut excludes, facts.has_examples, "examples/**/*.py");
    add_pattern(&mut excludes, facts.has_scripts, "scripts/**/*.py");
    excludes
}

/// Detect the Python project layout from what is in the project directory.
pub fn detect_layout(facts: &ProjectFacts) -> (r: ProjectLayout)
    ensures
        is_layout(*facts, r),
{
    ProjectLayout {
        source_patterns: detect_source_patterns(facts),
        exclude_patterns: detect_exclude_patterns(facts),
        has_pyproject: facts.has_pyproject,
        has_fest_toml: facts.has_fest_toml,
    }
}

/// Whether a layout is that of a project.
pub open spec fn is_layout(facts: ProjectFacts, layout: ProjectLayout) -> bool {
    &&& are_source_patterns(facts, texts(layout.source_patterns@))
    &&& texts(layout.exclude_patterns@) == exclude_patterns_of(facts)
    &&& layout.has_pyproject == facts.has_pyproject
    &&& layout.has_fest_toml == facts.has_fest_toml
}

/// Texts in quotes, separated by commas.
pub open spec fn quoted(list: Seq<Seq<char>>) -> Seq<char>
    decreases list.len(),
{
    if list.len() == 0 {
        ""@
    } else {
        quoted(list.drop_last()) + (if list.len() > 1 {
            ", "@
        } else {
            ""@
        }) + "\""@ + list.last() + "\""@
    }
}

/// The configuration for a layout.
pub open spec fn config_text(layout: ProjectLayout) -> Seq<char> {
    "source = ["@ + quoted(texts(layout.source_patterns@)) + "]"@ + (
    if layout.exclude_patterns@.len() > 0 {
        "\nexclude = ["@ + quoted(texts(layout.exclude_patterns@)) + "]"@
    } else {
        ""@
    }) + "\ntimeout = 30\nsession = \".fest-session.db\""@
}

/// Writes texts in quotes.
fn quote(list: &Vec<String>) -> (r: String)
    ensures
        r@ == quoted(texts(list@)),
{
    let mut out: String = "".to_owned();
    let mut i: usize = 0;
    assert(texts(list@).take(0) =~= Seq::empty());
    while i < list.len()
        invariant
            i <= list@.len(),
            out@ == quoted(texts(list@).take(i as int)),
        decreases list.len() - i,
    {
        let ghost all = texts(list@);
        assert(all.take(i + 1).drop_last() =~= all.take(i as int));
        assert(all.take(i + 1).last() == list@[i as int]@);
        if i > 0 {
            out.append(", ");
        } else {
            out.append("");
        }
        out.append("\"");
        out.append(list[i].as_str());
        out.append("\"");
        i = i + 1;
    }
    assert(texts(list@).take(i as int) =~= texts(list@));
    out
}

/// Generate the TOML configuration content (without the wrapping table header).
pub fn generate_config(layout: &ProjectLayout) -> (r: String)
    ensures
        r@ == config_text(*layout),
{
    let mut excluded: String = "".to_owned();
    if layout.exclude_patterns.len() > 0 {
        excluded = "\nexclude = [".to_owned();
        excluded.append(quote(&layout.exclude_patterns).as_str());
        excluded.append("]");
    }
    let mut out: String = "source = [".to_owned();
    out.append(quote(&layout.source_patterns).as_str());
    out.append("]");
    out.append(excluded.as_str());
    out.append("\ntimeout = 30\nsession = \".fest-session.db\"");
    out
}

/// Whether the text of `pyproject.toml` has a `[tool.fest]` section. One that
/// cannot be read or is not TOML has none.
pub open spec fn has_section(content: Option<Seq<char>>) -> bool {
    match content {
        Some(text) => sets_section(text),
        None => false,
    }
}

/// The view of an optional text.
pub open spec fn content_of(content: Option<String>) -> Option<Seq<char>> {
    match content {
        Some(text) => Some(text@),
        None => None,
    }
}

/// Check if `pyproject.toml` already contains a `[tool.fest]` section.
pub fn pyproject_has_fest_section(content: &Option<String>) -> (r: bool)
    ensures
        r == has_section(content_of(*content)),
{
    match content {
        Some(text) => text_has_fest_section(text.as_str()),
        None => false,
    }
}

/// The message for a configuration that is already there, if it is.
pub open spec fn existing_problem(
    format: InitFormat,
    has_fest_toml: bool,
    has_pyproject: bool,
    section: bool,
) -> Option<Seq<char>> {
    match format {
        InitFormat::FestToml => if has_fest_toml {
            Some("fest.toml already exists (use --force to overwrite)"@)
        } else {
            None
        },
        InitFormat::Pyproject => if has_pyproject && section {
            Some("[tool.fest] already exists in pyproject.toml (use --force to overwrite)"@)
        } else {
            None
        },
    }
}

/// Check whether writing would overwrite existing configuration.
///
/// `pyproject` is the text of `pyproject.toml`, where it can be read.
pub fn check_existing_config(
    format: InitFormat,
    layout: &ProjectLayout,
    pyproject: &Option<String>,
) -> (r: Result<(), Error>)
    ensures
        match existing_problem(
            format,
            layout.has_fest_toml,
            layout.has_pyproject,
            has_section(content_of(*pyproject)),
        ) {
            Some(problem) => r matches Err(Error::Config(m)) && m@ == problem,
            None => r is Ok,
        },
{
    match format {
        InitFormat::FestToml => {
            if layout.has_fest_toml {
                return Err(
                    Error::Config("fest.toml already exists (use --force to overwrite)".to_owned()),
                );
            }
        },
        InitFormat::Pyproject => {
            if layout.has_pyproject && pyproject_has_fest_section(pyproject) {
                return Err(
                    Error::Config(
                        "[tool.fest] already exists in pyproject.toml (use --force to overwrite)".to_owned(),
                    ),
                );
            }
        },
    }
    Ok(())
}

/// The text of a standalone `fest.toml` file.
pub fn fest_toml_content(config_body: &str) -> (r: String)
    ensures
        r@ == "[fest]\n"@ + config_body@ + "\n"@,
{
    let mut out: String = "[fest]\n".to_owned();
    out.append(config_body);
    out.append("\n");
    out
}

/// The `[tool.fest]` section to append to `pyproject.toml`, after an empty
/// line where the file already exists.
pub fn pyproject_section(config_body: &str, has_pyproject: bool) -> (r: String)
    ensures
        r@ == (if has_pyproject {
            "\n"@
        } else {
            ""@
        }) + "[tool.fest]\n"@ + config_body@ + "\n"@,
{
    let mut out: String = if has_pyproject {
        "\n".to_owned()
    } else {
        "".to_owned()
    };
    out.append("[tool.fest]\n");
    out.append(config_body);
    out.append("\n");
    out
}

/// The `[tool.fest]` section for a layout.
pub open spec fn section_text(layout: ProjectLayout) -> Seq<char> {
    "[tool.fest]\n"@ + config_text(layout) + "\n"@
}

/// Whether a plan writes the configuration for a layout in a format. A section
/// that `pyproject.toml` has already, as `current` shows, is replaced.
pub open spec fn writes(
    format: InitFormat,
    layout: ProjectLayout,
    current: Option<Seq<char>>,
    plan: WritePlan,
) -> bool {
    match format {
        InitFormat::FestToml => {
            &&& plan.file_name@ == "fest.toml"@
            &&& !plan.append
            &&& plan.content@ == "[fest]\n"@ + config_text(layout) + "\n"@
        },
        InitFormat::Pyproject => {
            &&& plan.file_name@ == "pyproject.toml"@
            &&& if layout.has_pyproject && has_section(current) {
                &&& !plan.append
                &&& current matches Some(text) && plan.content@ == with_section(
                    text,
                    section_text(layout),
                )
            } else {
                &&& plan.append
                &&& plan.content@ == (if layout.has_pyproject {
                    "\n"@
                } else {
                    ""@
                }) + section_text(layout)
            }
        },
    }
}

/// Whether a plan writes the configuration of a project.
pub open spec fn is_plan(format: InitFormat, facts: ProjectFacts, plan: WritePlan) -> bool {
    exists|layout: ProjectLayout| #[trigger]
        is_layout(facts, layout) && writes(format, layout, content_of(facts.pyproject), plan)
}

/// Why nothing can be written for a project, if so: a configuration is there
/// already and is not to be overwritten, or it is a section that cannot be
/// told from the rest of `pyproject.toml`.
pub open spec fn init_problem(args: InitArgs, facts: ProjectFacts) -> Option<Seq<char>> {
    match existing_problem(
        args.format,
        facts.has_fest_toml,
        facts.has_pyproject,
        has_section(content_of(facts.pyproject)),
    ) {
        Some(problem) => if !args.force {
            Some(problem)
        } else if args.format is Pyproject && !is_replaceable(
            content_of(facts.pyproject)->Some_0,
        ) {
            Some("[tool.fest] in pyproject.toml cannot be replaced"@)
        } else {
            None
        },
        None => None,
    }
}

/// What to write to a `pyproject.toml`: the section is appended, or takes the
/// place of the one that is there.
fn plan_pyproject(config_body: &str, has_pyproject: bool, current: &Option<String>) -> (r: Option<
    WritePlan,
>)
    ensures
        ({
            let section = "[tool.fest]\n"@ + config_body@ + "\n"@;
            let replaces = has_pyproject && has_section(content_of(*current));
            &&& r is None <==> replaces && !is_replaceable(content_of(*current)->Some_0)
            &&& r matches Some(plan) ==> {
                &&& plan.file_name@ == "pyproject.toml"@
                &&& plan.append == !replaces
                &&& plan.content@ == if replaces {
                    with_section(content_of(*current)->Some_0, section)
                } else {
                    (if has_pyproject {
                        "\n"@
                    } else {
                        ""@
                    }) + section
                }
            }
        }),
{
    if has_pyproject {
        if let Some(text) = current {
            if text_has_fest_section(text.as_str()) {
                let section: String = pyproject_section(config_body, false);
                proof {
                    reveal_strlit("");
                    assert(section@ =~= "[tool.fest]\n"@ + config_body@ + "\n"@);
                }
                return match replace_section(text.as_str(), section.as_str()) {
                    Some(content) => Some(
                        WritePlan { file_name: "pyproject.toml", append: false, content },
                    ),
                    None => None,
                };
            }
        }
    }
    let content: String = pyproject_section(config_body, has_pyproject);
    assert(content@ =~= (if has_pyproject {
        "\n"@
    } else {
        ""@
    }) + ("[tool.fest]\n"@ + config_body@ + "\n"@));
    Some(WritePlan { file_name: "pyproject.toml", append: true, content })
}

/// Run the `init` subcommand: what to write for a project.
///
/// Returns [`Error::Config`] if the target already holds a configuration and
/// `--force` was not given. With `--force` the configuration is overwritten: in
/// `pyproject.toml` the `[tool.fest]` section is replaced, and all else stays.
pub fn run(args: &InitArgs, facts: &ProjectFacts) -> (r: Result<WritePlan, Error>)
    ensures
        match init_problem(*args, *facts) {
            Some(problem) => r matches Err(Error::Config(m)) && m@ == problem,
            None => r matches Ok(plan) && is_plan(args.format, *facts, plan),
        },
{
    let layout: ProjectLayout = detect_layout(facts);
    if !args.force {
        if let Err(problem) = check_existing_config(args.format, &layout, &facts.pyproject) {
            return Err(problem);
        }
    }
    let config_toml: String = generate_config(&layout);
    let plan: WritePlan = match args.format {
        InitFormat::FestToml => WritePlan {
            file_name: "fest.toml",
            append: false,
            content: fest_toml_content(config_toml.as_str()),
        },
        InitFormat::Pyproject => match plan_pyproject(
            config_toml.as_str(),
            layout.has_pyproject,
            &facts.pyproject,
        ) {
            Some(plan) => plan,
            None => {
                return Err(
                    Error::Config("[tool.fest] in pyproject.toml cannot be replaced".to_owned()),
                );
            },
        },
    };
    assert(is_layout(*facts, layout) && writes(
        args.format,
        layout,
        content_of(facts.pyproject),
        plan,
    ));
    Ok(plan)
}

/// Test files are always excluded.
pub proof fn law_test_files_are_excluded(facts: ProjectFacts)
    ensures
        exclude_patterns_of(facts).contains("**/test_*.py"@),
        exclude_patterns_of(facts).contains("**/conftest.py"@),
{
    let p = exclude_patterns_of(facts);
    assert(p[0] == "**/test_*.py"@);
    assert(p[1] == "**/conftest.py"@);
}

/// A project always has a source pattern.
pub proof fn law_there_is_a_source_pattern(facts: ProjectFacts, patterns: Seq<Seq<char>>)
    requires
        are_source_patterns(facts, patterns),
    ensures
        patterns.len() > 0,
{
    match facts.src_entries {
        Some(entries) => {
            let names = choose|names: Seq<Seq<char>>| #[trigger]
                sorts(package_names(entries@), names) && patterns == source_patterns_of(
                    Some(names),
                    Seq::empty(),
                );
            lemma_patterns_len("src/"@, names);
        },
        None => {
            let names = choose|names: Seq<Seq<char>>| #[trigger]
                sorts(package_names(facts.entries@), names) && patterns == source_patterns_of(
                    None,
                    names,
                );
            lemma_patterns_len(""@, source_dirs(names));
        },
    }
}

/// There is one pattern for each package.
proof fn lemma_patterns_len(prefix: Seq<char>, names: Seq<Seq<char>>)
    ensures
        package_patterns(prefix, names).len() == names.len(),
    decreases names.len(),
{
    if names.len() > 0 {
        lemma_patterns_len(prefix, names.drop_last());
    }
}

/// The packages of a directory are its directories with an `__init__.py` whose
/// name does not start with a dot.
pub proof fn law_packages_are_found(entries: Seq<DirEntry>)
    ensures
        package_names(entries) == entries.filter_map(
            |e: DirEntry|
                if e.is_dir && e.has_init && !(e.name@.len() > 0 && e.name@[0] == '.') {
                    Some(e.name@)
                } else {
                    None
                },
        ),
    decreases entries.len(),
{
    let pick = |e: DirEntry|
        if e.is_dir && e.has_init && !(e.name@.len() > 0 && e.name@[0] == '.') {
            Some(e.name@)
        } else {
            None
        };
    if entries.len() > 0 {
        law_packages_are_found(entries.drop_last());
        assert(package_names(entries) =~= entries.filter_map(pick));
    }
}

/// Sorting keeps every name, as often as it is there, and puts them in order.
pub proof fn law_sorting_keeps_the_names(
    list: Seq<Seq<char>>,
    sorted: Seq<Seq<char>>,
    name: Seq<char>,
)
    requires
        sorts(list, sorted),
    ensures
        sorted.contains(name) <==> list.contains(name),
        sorted.len() == list.len(),
{
    broadcast use vstd::seq_lib::group_to_multiset_ensures;

    assert(list.to_multiset().len() == list.len());
    assert(sorted.to_multiset().len() == sorted.len());
    assert(sorted.to_multiset().count(name) == list.to_multiset().count(name));
}

/// Of the packages, those whose name is that of a directory for something else
/// are left out.
pub proof fn law_other_directories_are_left_out(names: Seq<Seq<char>>)
    ensures
        source_dirs(names) == names.filter(
            |n: Seq<char>|
                !seq![
                    "tests"@, "test"@, "docs"@, "doc"@, "examples"@, "benchmarks"@, "bench"@,
                    "scripts"@, "tools"@, "vendor"@, "venv"@, "env"@, "node_modules"@,
                    "__pycache__"@,
                ].contains(n),
        ),
    decreases names.len(),
{
    reveal(Seq::filter);
    let others = seq![
        "tests"@, "test"@, "docs"@, "doc"@, "examples"@, "benchmarks"@, "bench"@, "scripts"@,
        "tools"@, "vendor"@, "venv"@, "env"@, "node_modules"@, "__pycache__"@,
    ];
    let keep = |n: Seq<char>| !others.contains(n);
    if names.len() > 0 {
        law_other_directories_are_left_out(names.drop_last());
        let n = names.last();
        if is_other_dir(n) {
            assert(others[0] == "tests"@ && others[1] == "test"@ && others[2] == "docs"@);
            assert(others[3] == "doc"@ && others[4] == "examples"@ && others[5] == "benchmarks"@);
            assert(others[6] == "bench"@ && others[7] == "scripts"@ && others[8] == "tools"@);
            assert(others[9] == "vendor"@ && others[10] == "venv"@ && others[11] == "env"@);
            assert(others[12] == "node_modules"@ && others[13] == "__pycache__"@);
            assert(others.contains(n));
        }
        if others.contains(n) {
            let i = choose|i: int| 0 <= i < others.len() && others[i] == n;
            assert(is_other_dir(n));
        }
        assert(source_dirs(names) =~= names.filter(keep));
    }
}

/// Each package has a pattern for all Python files under it.
pub proof fn law_packages_have_their_pattern(prefix: Seq<char>, names: Seq<Seq<char>>)
    ensures
        package_patterns(prefix, names) == names.map_values(
            |n: Seq<char>| prefix + n + "/**/*.py"@,
        ),
    decreases names.len(),
{
    if names.len() > 0 {
        law_packages_have_their_pattern(prefix, names.drop_last());
        assert(package_patterns(prefix, names) =~= names.map_values(
            |n: Seq<char>| prefix + n + "/**/*.py"@,
        ));
    }
}

/// The directories that a project has for something else are excluded, and only
/// those.
pub proof fn law_what_is_there_is_excluded(facts: ProjectFacts)
    ensures
        exclude_patterns_of(facts).contains("**/migrations/**/*.py"@) <==> facts.has_manage,
        exclude_patterns_of(facts).contains("docs/**/*.py"@) <==> facts.has_docs,
        exclude_patterns_of(facts).contains("examples/**/*.py"@) <==> facts.has_examples,
        exclude_patterns_of(facts).contains("scripts/**/*.py"@) <==> facts.has_scripts,
        exclude_patterns_of(facts).take(2) == seq!["**/test_*.py"@, "**/conftest.py"@],
{
    reveal_strlit("**/test_*.py");
    reveal_strlit("**/conftest.py");
    reveal_strlit("**/migrations/**/*.py");
    reveal_strlit("docs/**/*.py");
    reveal_strlit("examples/**/*.py");
    reveal_strlit("scripts/**/*.py");
    assert("**/test_*.py"@[0] == '*' && "**/test_*.py"@[3] == 't');
    assert("**/conftest.py"@[0] == '*' && "**/conftest.py"@[3] == 'c');
    assert("**/migrations/**/*.py"@[0] == '*' && "**/migrations/**/*.py"@[3] == 'm');
    assert("docs/**/*.py"@[0] == 'd' && "examples/**/*.py"@[0] == 'e');
    assert("scripts/**/*.py"@[0] == 's');
    let always = seq!["**/test_*.py"@, "**/conftest.py"@];
    let a = with_pattern(always, facts.has_manage, "**/migrations/**/*.py"@);
    let b = with_pattern(a, facts.has_docs, "docs/**/*.py"@);
    let c = with_pattern(b, facts.has_examples, "examples/**/*.py"@);
    let d = with_pattern(c, facts.has_scripts, "scripts/**/*.py"@);
    assert(exclude_patterns_of(facts) == d);
    lemma_with_pattern(always, facts.has_manage, "**/migrations/**/*.py"@);
    lemma_with_pattern(a, facts.has_docs, "docs/**/*.py"@);
    lemma_with_pattern(b, facts.has_examples, "examples/**/*.py"@);
    lemma_with_pattern(c, facts.has_scripts, "scripts/**/*.py"@);
    assert(!always.contains("**/migrations/**/*.py"@));
    assert(!always.contains("docs/**/*.py"@));
    assert(!always.contains("examples/**/*.py"@));
    assert(!always.contains("scripts/**/*.py"@));
    assert(d.take(2) =~= always);
}

proof fn lemma_with_pattern(patterns: Seq<Seq<char>>, condition: bool, pattern: Seq<char>)
    ensures
        forall|p: Seq<char>| #[trigger]
            with_pattern(patterns, condition, pattern).contains(p) <==> patterns.contains(p)
                || condition && p == pattern,
{
    let all = with_pattern(patterns, condition, pattern);
    assert forall|p: Seq<char>| #[trigger] all.contains(p) <==> patterns.contains(p) || condition
        && p == pattern by {
        if patterns.contains(p) {
            let i = choose|i: int| 0 <= i < patterns.len() && patterns[i] == p;
            assert(all[i] == p);
        }
        if condition && p == pattern {
            assert(all[patterns.len() as int] == p);
        }
        if all.contains(p) {
            let i = choose|i: int| 0 <= i < all.len() && all[i] == p;
            if i < patterns.len() {
                assert(patterns[i] == p);
            }
        }
    }
}

/// Patterns are written in quotes with commas between them.
pub proof fn law_patterns_are_written_in_quotes(list: Seq<Seq<char>>)
    ensures
        quoted(list) == crate::lines::join(
            list.map_values(|p: Seq<char>| "\""@ + p + "\""@),
            ", "@,
        ),
    decreases list.len(),
{
    let quote = |p: Seq<char>| "\""@ + p + "\""@;
    let all = list.map_values(quote);
    reveal_strlit("");
    if list.len() == 0 {
        assert(quoted(list) =~= crate::lines::join(all, ", "@));
    } else {
        let rest = list.drop_last();
        law_patterns_are_written_in_quotes(rest);
        assert(all.drop_last() =~= rest.map_values(quote));
        assert(all.last() == quote(list.last()));
        if list.len() == 1 {
            assert(quoted(rest) =~= Seq::<char>::empty());
            assert(all[0] == quote(list.last()));
        }
        assert(quoted(list) =~= crate::lines::join(all, ", "@));
    }
}

/// A configuration that is there is only replaced when that is asked for, and
/// then unless its section cannot be told from the rest of the file.
pub proof fn law_configurations_are_kept(args: InitArgs, facts: ProjectFacts)
    ensures
        args.format is FestToml && !facts.has_fest_toml ==> init_problem(args, facts) is None,
        args.format is FestToml && facts.has_fest_toml ==> (init_problem(args, facts) is None
            <==> args.force),
        args.format is Pyproject && !(facts.has_pyproject && has_section(
            content_of(facts.pyproject),
        )) ==> init_problem(args, facts) is None,
        args.format is Pyproject && facts.has_pyproject && has_section(content_of(facts.pyproject))
            ==> (init_problem(args, facts) is None <==> args.force && is_replaceable(
            facts.pyproject->0@,
        )),
{
}

/// A project with a `src` directory has a pattern for each package in it, and
/// another one for each package at its top that is not for something else. One
/// without such packages has the pattern for all of `src`.
pub proof fn law_packages_give_the_source_patterns(
    facts: ProjectFacts,
    patterns: Seq<Seq<char>>,
    name: Seq<char>,
)
    requires
        are_source_patterns(facts, patterns),
    ensures
        facts.src_entries matches Some(entries) ==> package_names(entries@).contains(name)
            ==> patterns.contains("src/"@ + name + "/**/*.py"@),
        facts.src_entries matches Some(entries) ==> package_names(entries@).len() == 0 ==> patterns
            == seq!["src/**/*.py"@],
        facts.src_entries is None && package_names(facts.entries@).contains(name) && !is_other_dir(
            name,
        ) ==> patterns.contains(""@ + name + "/**/*.py"@),
        facts.src_entries is None && package_names(facts.entries@).len() == 0 ==> patterns == seq![
            "src/**/*.py"@,
        ],
{
    match facts.src_entries {
        Some(entries) => {
            let names = choose|names: Seq<Seq<char>>| #[trigger]
                sorts(package_names(entries@), names) && patterns == source_patterns_of(
                    Some(names),
                    Seq::empty(),
                );
            law_sorting_keeps_the_names(package_names(entries@), names, name);
            law_packages_have_their_pattern("src/"@, names);
            if names.contains(name) {
                let i = choose|i: int| 0 <= i < names.len() && names[i] == name;
                assert(patterns[i] == "src/"@ + name + "/**/*.py"@);
            }
        },
        None => {
            let names = choose|names: Seq<Seq<char>>| #[trigger]
                sorts(package_names(facts.entries@), names) && patterns == source_patterns_of(
                    None,
                    names,
                );
            law_sorting_keeps_the_names(package_names(facts.entries@), names, name);
            let dirs = source_dirs(names);
            law_packages_have_their_pattern(""@, dirs);
            if names.contains(name) && !is_other_dir(name) {
                lemma_source_dirs_have(names, name);
                let i = choose|i: int| 0 <= i < dirs.len() && dirs[i] == name;
                assert(patterns[i] == ""@ + name + "/**/*.py"@);
            }
        },
    }
}

proof fn lemma_source_dirs_have(names: Seq<Seq<char>>, name: Seq<char>)
    requires
        names.contains(name),
        !is_other_dir(name),
    ensures
        source_dirs(names).contains(name),
    decreases names.len(),
{
    let rest = names.drop_last();
    let dirs = source_dirs(names);
    if names.last() == name {
        assert(dirs[dirs.len() - 1] == name);
    } else {
        let i = choose|i: int| 0 <= i < names.len() && names[i] == name;
        assert(rest[i] == name);
        lemma_source_dirs_have(rest, name);
        let k = choose|k: int| 0 <= k < source_dirs(rest).len() && source_dirs(rest)[k] == name;
        assert(dirs[k] == name);
    }
}

/// The configuration holds the source patterns, and the excluded ones where
/// there are any.
pub proof fn law_configurations_hold_the_patterns(layout: ProjectLayout)
    ensures
        shows(config_text(layout), "source = ["@ + quoted(texts(layout.source_patterns@)) + "]"@),
        layout.exclude_patterns@.len() > 0 ==> shows(
            config_text(layout),
            "exclude = ["@ + quoted(texts(layout.exclude_patterns@)) + "]"@,
        ),
        shows(config_text(layout), "\ntimeout = 30\nsession = \".fest-session.db\""@),
{
    let source = "source = ["@ + quoted(texts(layout.source_patterns@)) + "]"@;
    let other = if layout.exclude_patterns@.len() > 0 {
        "\nexclude = ["@ + quoted(texts(layout.exclude_patterns@)) + "]"@
    } else {
        ""@
    };
    let rest = "\ntimeout = 30\nsession = \".fest-session.db\""@;
    let all = config_text(layout);
    lemma_shows(all, Seq::empty(), source, other + rest);
    lemma_shows(all, source + other, rest, Seq::empty());
    if layout.exclude_patterns@.len() > 0 {
        reveal_strlit("\nexclude = [");
        reveal_strlit("exclude = [");
        assert("\nexclude = ["@ =~= seq!['\n'] + "exclude = ["@);
        lemma_shows(
            all,
            source + seq!['\n'],
            "exclude = ["@ + quoted(texts(layout.exclude_patterns@)) + "]"@,
            rest,
        );
    }
}

} // verus!
