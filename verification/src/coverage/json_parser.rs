//! Coverage data from the JSON output of `coverage json --show-contexts`,
//! which maps source files and line numbers to the test contexts that
//! exercised them.
use crate::coverage::map::CoverageMap;
use crate::error::Error;
use crate::json::{
    find_member, list_items, list_views, member, object_members, pair_views, read_list, read_object,
    read_string_lists, string_lists,
};
use crate::numbers::{parse_u32, u32_value};
use crate::paths;
use crate::text;
use crate::text::texts;
use vstd::prelude::*;

verus! {

/// The test contexts that executed one line.
#[derive(Debug)]
pub struct LineContexts {
    /// Line number, as text.
    pub line: String,
    /// Context names.
    pub contexts: Vec<String>,
}

/// Coverage data for a single source file.
#[derive(Debug)]
pub struct FileCoverage {
    /// Path of the file.
    pub path: String,
    /// The contexts of its lines.
    pub lines: Vec<LineContexts>,
}

/// The contexts of one line as a mathematical value.
#[verifier::ext_equal]
pub struct LineView {
    pub line: Seq<char>,
    pub contexts: Seq<Seq<char>>,
}

/// The coverage of one file as a mathematical value.
#[verifier::ext_equal]
pub struct FileView {
    pub path: Seq<char>,
    pub lines: Seq<LineView>,
}

impl View for LineContexts {
    type V = LineView;

    open spec fn view(&self) -> LineView {
        LineView { line: self.line@, contexts: texts(self.contexts@) }
    }
}

/// The lines of a list as mathematical values.
pub open spec fn line_views(list: Seq<LineContexts>) -> Seq<LineView> {
    list.map_values(|l: LineContexts| l@)
}

impl View for FileCoverage {
    type V = FileView;

    open spec fn view(&self) -> FileView {
        FileView { path: self.path@, lines: line_views(self.lines@) }
    }
}

/// The files of a list as mathematical values.
pub open spec fn file_views(list: Seq<FileCoverage>) -> Seq<FileView> {
    list.map_values(|f: FileCoverage| f@)
}

/// The lines that the members of `contexts` tell of.
pub open spec fn lines_of(members: Seq<(Seq<char>, Seq<Seq<char>>)>) -> Seq<LineView> {
    Seq::new(
        members.len(),
        |i: int| LineView { line: members[i].0, contexts: members[i].1 },
    )
}

/// The text of the one field of a record, given the members of the record if
/// it is an object and its items if it is a list, or what is wrong with it: a
/// record is an object with that field, or a list of its value alone.
pub open spec fn field(
    members: Result<Seq<(Seq<char>, Seq<char>)>, Seq<char>>,
    items: Result<Seq<Seq<char>>, Seq<char>>,
    name: Seq<char>,
) -> Result<Seq<char>, Seq<char>> {
    match members {
        Ok(found) => match member(found, name) {
            Some(value) => Ok(value),
            None => Err("missing field `"@ + name + "`"@),
        },
        Err(problem) => match items {
            Ok(list) => if list.len() == 1 {
                Ok(list[0])
            } else {
                Err("invalid length, expected one element"@)
            },
            Err(_) => Err(problem),
        },
    }
}

/// The lines of a file, or what is wrong with its data.
pub open spec fn file_lines(data: Seq<char>) -> Result<Seq<LineView>, Seq<char>> {
    match field(object_members(data), list_items(data), "contexts"@) {
        Ok(contexts) => match string_lists(contexts) {
            Ok(members) => Ok(lines_of(members)),
            Err(problem) => Err(problem),
        },
        Err(problem) => Err(problem),
    }
}

/// The files in the members of `files`, or what is wrong with the first bad one.
pub open spec fn files_in(members: Seq<(Seq<char>, Seq<char>)>) -> Result<
    Seq<FileView>,
    Seq<char>,
>
    decreases members.len(),
{
    if members.len() == 0 {
        Ok(Seq::empty())
    } else {
        match files_in(members.drop_last()) {
            Err(problem) => Err(problem),
            Ok(init) => match file_lines(members.last().1) {
                Ok(lines) => Ok(init.push(FileView { path: members.last().0, lines })),
                Err(problem) => Err(problem),
            },
        }
    }
}

/// The files of a coverage report, or what is wrong with it.
pub open spec fn report_files(report: Seq<char>) -> Result<Seq<FileView>, Seq<char>> {
    match field(object_members(report), list_items(report), "files"@) {
        Ok(files) => match object_members(files) {
            Ok(members) => files_in(members),
            Err(problem) => Err(problem),
        },
        Err(problem) => Err(problem),
    }
}

/// The members of an object that was read, as mathematical values.
pub open spec fn members_view(r: Result<Vec<(String, String)>, String>) -> Result<
    Seq<(Seq<char>, Seq<char>)>,
    Seq<char>,
> {
    match r {
        Ok(found) => Ok(pair_views(found@)),
        Err(problem) => Err(problem@),
    }
}

/// The items of a list that was read, as mathematical values.
pub open spec fn items_view(r: Result<Vec<String>, String>) -> Result<Seq<Seq<char>>, Seq<char>> {
    match r {
        Ok(found) => Ok(texts(found@)),
        Err(problem) => Err(problem@),
    }
}

/// A text that was found, or the message for why it was not.
pub open spec fn text_view(r: Result<String, String>) -> Result<Seq<char>, Seq<char>> {
    match r {
        Ok(found) => Ok(found@),
        Err(problem) => Err(problem@),
    }
}

/// The text of the one field of a record, given what reading the record as an
/// object and as a list gave.
pub fn pick_field(
    members: &Result<Vec<(String, String)>, String>,
    items: &Result<Vec<String>, String>,
    name: &str,
) -> (r: Result<String, String>)
    ensures
        text_view(r) == field(members_view(*members), items_view(*items), name@),
{
    match members {
        Ok(found) => match find_member(found, name) {
            Some(value) => Ok(value.clone()),
            None => Err(text::cat3("missing field `", name, "`")),
        },
        Err(problem) => match items {
            Ok(list) => {
                assert(texts(list@).len() == list@.len());
                if list.len() == 1 {
                    assert(texts(list@)[0] == list@[0]@);
                    Ok(list[0].clone())
                } else {
                    Err("invalid length, expected one element".to_owned())
                }
            },
            Err(_) => Err(problem.clone()),
        },
    }
}

/// Lines that were read, or the message for why they were not.
pub open spec fn lines_view(r: Result<Vec<LineContexts>, String>) -> Result<
    Seq<LineView>,
    Seq<char>,
> {
    match r {
        Ok(found) => Ok(line_views(found@)),
        Err(problem) => Err(problem@),
    }
}

/// The lines that the members of `contexts` tell of.
pub fn to_lines(members: &Vec<(String, Vec<String>)>) -> (r: Vec<LineContexts>)
    ensures
        line_views(r@) == lines_of(list_views(members@)),
{
    let ghost all = lines_of(list_views(members@));
    let mut out: Vec<LineContexts> = Vec::new();
    let mut i: usize = 0;
    assert(line_views(out@) =~= all.take(0));
    while i < members.len()
        invariant
            i <= members@.len(),
            all == lines_of(list_views(members@)),
            line_views(out@) == all.take(i as int),
        decreases members.len() - i,
    {
        let ghost before = out@;
        let line: LineContexts = LineContexts {
            line: members[i].0.clone(),
            contexts: text::copy_texts(&members[i].1),
        };
        let ghost added = line@;
        assert(added == all[i as int]);
        out.push(line);
        assert(line_views(out@) =~= line_views(before).push(added));
        assert(all.take(i + 1) =~= all.take(i as int).push(all[i as int]));
        i = i + 1;
    }
    assert(all.take(i as int) =~= all);
    out
}

/// The lines of a file.
fn read_file(data: &str) -> (r: Result<Vec<LineContexts>, String>)
    ensures
        lines_view(r) == file_lines(data@),
{
    match pick_field(&read_object(data), &read_list(data), "contexts") {
        Ok(contexts) => match read_string_lists(contexts.as_str()) {
            Ok(members) => Ok(to_lines(&members)),
            Err(problem) => Err(problem),
        },
        Err(problem) => Err(problem),
    }
}

/// Files that were read, or the message for why they were not.
pub open spec fn files_view(r: Result<Vec<FileCoverage>, String>) -> Result<
    Seq<FileView>,
    Seq<char>,
> {
    match r {
        Ok(found) => Ok(file_views(found@)),
        Err(problem) => Err(problem@),
    }
}

/// The first problem of some files is the first of all.
proof fn lemma_files_stay(members: Seq<(Seq<char>, Seq<char>)>, i: int)
    requires
        0 <= i <= members.len(),
        files_in(members.take(i)) is Err,
    ensures
        files_in(members) == files_in(members.take(i)),
    decreases members.len() - i,
{
    if i < members.len() {
        assert(members.take(i + 1).drop_last() =~= members.take(i));
        lemma_files_stay(members, i + 1);
    } else {
        assert(members.take(i) =~= members);
    }
}

/// The files in the members of `files`.
fn read_files(members: &Vec<(String, String)>) -> (r: Result<Vec<FileCoverage>, String>)
    ensures
        files_view(r) == files_in(pair_views(members@)),
{
    let ghost all = pair_views(members@);
    let mut out: Vec<FileCoverage> = Vec::new();
    let mut i: usize = 0;
    assert(file_views(out@) =~= Seq::empty());
    assert(all.take(0) =~= Seq::empty());
    while i < members.len()
        invariant
            i <= members@.len(),
            all == pair_views(members@),
            files_in(all.take(i as int)) == Ok::<Seq<FileView>, Seq<char>>(file_views(out@)),
        decreases members.len() - i,
    {
        assert(all.take(i + 1).drop_last() =~= all.take(i as int));
        assert(all.take(i + 1).last() == (members@[i as int].0@, members@[i as int].1@));
        match read_file(members[i].1.as_str()) {
            Ok(lines) => {
                let ghost before = out@;
                let file: FileCoverage = FileCoverage { path: members[i].0.clone(), lines };
                let ghost added = file@;
                out.push(file);
                assert(file_views(out@) =~= file_views(before).push(added));
            },
            Err(problem) => {
                proof {
                    lemma_files_stay(all, i + 1);
                }
                return Err(problem);
            },
        }
        i = i + 1;
    }
    assert(all.take(i as int) =~= all);
    Ok(out)
}

/// The files of a coverage report, or what is wrong with it.
pub fn read_report(report: &str) -> (r: Result<Vec<FileCoverage>, String>)
    ensures
        files_view(r) == report_files(report@),
{
    match pick_field(&read_object(report), &read_list(report), "files") {
        Ok(files) => match read_object(files.as_str()) {
            Ok(members) => read_files(&members),
            Err(problem) => Err(problem),
        },
        Err(problem) => Err(problem),
    }
}

/// The contexts that name a test. coverage.py uses an empty name for lines
/// executed outside of any test.
pub open spec fn named(contexts: Seq<Seq<char>>) -> Seq<Seq<char>>
    decreases contexts.len(),
{
    if contexts.len() == 0 {
        Seq::empty()
    } else if contexts.last().len() == 0 {
        named(contexts.drop_last())
    } else {
        named(contexts.drop_last()).push(contexts.last())
    }
}

/// A coverage map with the lines of a file, or the message for the first line
/// whose number cannot be read. Lines without tests are left out.
pub open spec fn with_file_lines(
    map: Map<(Seq<u16>, u32), Seq<Seq<char>>>,
    key: Seq<u16>,
    lines: Seq<LineView>,
) -> Result<Map<(Seq<u16>, u32), Seq<Seq<char>>>, Seq<char>>
    decreases lines.len(),
{
    if lines.len() == 0 {
        Ok(map)
    } else {
        match with_file_lines(map, key, lines.drop_last()) {
            Err(problem) => Err(problem),
            Ok(init) => match u32_value(lines.last().line) {
                Err(problem) => Err(bad_line(lines.last().line, problem.text())),
                Ok(number) => if named(lines.last().contexts).len() == 0 {
                    Ok(init)
                } else {
                    Ok(init.insert((key, number), named(lines.last().contexts)))
                },
            },
        }
    }
}

/// The message for a line whose number cannot be read.
pub open spec fn bad_line(line: Seq<char>, problem: Seq<char>) -> Seq<char> {
    "invalid line number '"@ + line + "' in coverage JSON: "@ + problem
}

/// The coverage map of some files, or the message for the first line whose
/// number cannot be read.
pub open spec fn files_coverage(files: Seq<FileView>, project: Seq<char>) -> Result<
    Map<(Seq<u16>, u32), Seq<Seq<char>>>,
    Seq<char>,
>
    decreases files.len(),
{
    if files.len() == 0 {
        Ok(Map::empty())
    } else {
        match files_coverage(files.drop_last(), project) {
            Err(problem) => Err(problem),
            Ok(init) => with_file_lines(
                init,
                paths::path_key(paths::joined(project, files.last().path)),
                files.last().lines,
            ),
        }
    }
}

/// The coverage map in a JSON text, or the message for what is wrong with it.
pub open spec fn json_coverage(text: Seq<char>, project: Seq<char>) -> Result<
    Map<(Seq<u16>, u32), Seq<Seq<char>>>,
    Seq<char>,
> {
    match report_files(text) {
        Err(problem) => Err("failed to parse coverage JSON: "@ + problem),
        Ok(files) => files_coverage(files, project),
    }
}

/// The contexts that name a test.
fn keep_named(contexts: &Vec<String>) -> (r: Vec<String>)
    ensures
        texts(r@) == named(texts(contexts@)),
{
    let mut out: Vec<String> = Vec::new();
    let ghost all = texts(contexts@);
    let mut i: usize = 0;
    assert(texts(out@) =~= named(all.take(0)));
    while i < contexts.len()
        invariant
            i <= contexts@.len(),
            all == texts(contexts@),
            texts(out@) == named(all.take(i as int)),
        decreases contexts.len() - i,
    {
        assert(all.take(i + 1).drop_last() =~= all.take(i as int));
        assert(all.take(i + 1).last() == contexts@[i as int]@);
        if contexts[i].as_str().unicode_len() > 0 {
            let ghost before = out@;
            out.push(contexts[i].clone());
            assert(texts(out@) =~= texts(before).push(contexts@[i as int]@));
        }
        i = i + 1;
    }
    assert(all.take(i as int) =~= all);
    out
}

/// The first bad line of some is the first of all.
proof fn lemma_bad_line_stays(
    map: Map<(Seq<u16>, u32), Seq<Seq<char>>>,
    key: Seq<u16>,
    lines: Seq<LineView>,
    i: int,
)
    requires
        0 <= i <= lines.len(),
        with_file_lines(map, key, lines.take(i)) is Err,
    ensures
        with_file_lines(map, key, lines) == with_file_lines(map, key, lines.take(i)),
    decreases lines.len() - i,
{
    if i < lines.len() {
        assert(lines.take(i + 1).drop_last() =~= lines.take(i));
        lemma_bad_line_stays(map, key, lines, i + 1);
    } else {
        assert(lines.take(i) =~= lines);
    }
}

/// The first bad line in some files is the first in all.
proof fn lemma_bad_file_stays(files: Seq<FileView>, project: Seq<char>, i: int)
    requires
        0 <= i <= files.len(),
        files_coverage(files.take(i), project) is Err,
    ensures
        files_coverage(files, project) == files_coverage(files.take(i), project),
    decreases files.len() - i,
{
    if i < files.len() {
        assert(files.take(i + 1).drop_last() =~= files.take(i));
        lemma_bad_file_stays(files, project, i + 1);
    } else {
        assert(files.take(i) =~= files);
    }
}

/// Adds the lines of a file to a map.
fn add_file(map: &mut CoverageMap, path: &str, lines: &Vec<LineContexts>) -> (r: Result<(), String>)
    requires
        old(map).wf(),
    ensures
        match with_file_lines(old(map)@, paths::path_key(path@), line_views(lines@)) {
            Ok(after) => r is Ok && final(map).wf() && final(map)@ == after,
            Err(problem) => r matches Err(m) && m@ == problem,
        },
{
    let ghost all = line_views(lines@);
    let ghost key = paths::path_key(path@);
    let mut i: usize = 0;
    assert(all.take(0) =~= Seq::empty());
    while i < lines.len()
        invariant
            i <= lines@.len(),
            all == line_views(lines@),
            key == paths::path_key(path@),
            map.wf(),
            with_file_lines(old(map)@, key, all.take(i as int)) == Ok::<_, Seq<char>>(map@),
        decreases lines.len() - i,
    {
        assert(all.take(i + 1).drop_last() =~= all.take(i as int));
        assert(all.take(i + 1).last() == lines@[i as int]@);
        let line: &str = lines[i].line.as_str();
        let number: u32 = match parse_u32(line) {
            Ok(number) => number,
            Err(problem) => {
                proof {
                    lemma_bad_line_stays(old(map)@, key, all, i + 1);
                }
                return Err(
                    text::cat4(
                        "invalid line number '",
                        line,
                        "' in coverage JSON: ",
                        problem.message(),
                    ),
                );
            },
        };
        let tests: Vec<String> = keep_named(&lines[i].contexts);
        assert(texts(tests@).len() == tests@.len());
        if tests.len() > 0 {
            map.insert(path, number, tests);
        }
        i = i + 1;
    }
    assert(all.take(i as int) =~= all);
    Ok(())
}

/// Build a [`CoverageMap`] from the files of a coverage report.
///
/// Each entry associates a `(file, line)` pair with the test IDs (context
/// names) that covered that line. Paths are seen from the project directory.
/// Lines without an identified test are left out.
pub fn build_coverage_map(files: &[FileCoverage], project_dir: &str) -> (r: Result<
    CoverageMap,
    Error,
>)
    ensures
        match files_coverage(file_views(files@), project_dir@) {
            Ok(map) => r matches Ok(found) && found.wf() && found@ == map,
            Err(problem) => r matches Err(Error::Coverage(m)) && m@ == problem,
        },
{
    let ghost all = file_views(files@);
    let mut map: CoverageMap = CoverageMap::new();
    let mut i: usize = 0;
    assert(all.take(0) =~= Seq::empty());
    while i < files.len()
        invariant
            i <= files@.len(),
            all == file_views(files@),
            map.wf(),
            files_coverage(all.take(i as int), project_dir@) == Ok::<_, Seq<char>>(map@),
        decreases files.len() - i,
    {
        assert(all.take(i + 1).drop_last() =~= all.take(i as int));
        assert(all.take(i + 1).last() == files@[i as int]@);
        let path: String = paths::join(project_dir, files[i].path.as_str());
        if let Err(problem) = add_file(&mut map, path.as_str(), &files[i].lines) {
            proof {
                lemma_bad_file_stays(all, project_dir@, i + 1);
            }
            return Err(Error::Coverage(problem));
        }
        i = i + 1;
    }
    assert(all.take(i as int) =~= all);
    Ok(map)
}

/// Parse coverage JSON from an in-memory string.
///
/// File paths in the coverage JSON are relative to the project directory.
/// They are resolved so that they match the paths of discovered files.
pub fn parse_coverage_json_str(json_str: &str, project_dir: &str) -> (r: Result<CoverageMap, Error>)
    ensures
        match json_coverage(json_str@, project_dir@) {
            Ok(map) => r matches Ok(found) && found.wf() && found@ == map,
            Err(problem) => r matches Err(Error::Coverage(m)) && m@ == problem,
        },
{
    match read_report(json_str) {
        Ok(files) => build_coverage_map(files.as_slice(), project_dir),
        Err(problem) => {
            let mut message: String = "failed to parse coverage JSON: ".to_owned();
            message.append(problem.as_str());
            Err(Error::Coverage(message))
        },
    }
}

/// Parse what was read from a `coverage json --show-contexts` file into a
/// [`CoverageMap`].
pub fn parse_coverage_json(path: &str, content: Result<&str, &str>, project_dir: &str) -> (r: Result<
    CoverageMap,
    Error,
>)
    ensures
        match content {
            Err(problem) => r matches Err(Error::Coverage(m)) && m@
                == "failed to read coverage JSON "@ + path@ + ": "@ + problem@,
            Ok(json) => match json_coverage(json@, project_dir@) {
                Ok(map) => r matches Ok(found) && found.wf() && found@ == map,
                Err(problem) => r matches Err(Error::Coverage(m)) && m@ == problem,
            },
        },
{
    match content {
        Ok(json) => parse_coverage_json_str(json, project_dir),
        Err(problem) => Err(
            Error::Coverage(text::cat4("failed to read coverage JSON ", path, ": ", problem)),
        ),
    }
}

} // verus!
