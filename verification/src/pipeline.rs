//! The decisions of a mutation-testing run.
//!
//! A run loads the configuration, generates mutants, collects coverage, runs
//! the tests that cover each mutant, and reports. What is decided between
//! these is here: which sources are needed, what is done for a mutant, what
//! the results are and how the run ends.
use crate::config::types::{FestConfig, OutputFormat};
use crate::coverage::map::{tests_at, CoverageMap};
use crate::double::Double;
use crate::duration::Duration;
use crate::error::Error;
use crate::mutation::mutant::{Mutant, MutantResult, MutantStatus};
use crate::numbers;
use crate::paths;
use crate::progress::event::SummaryInfo;
use crate::progress::reporter::RenderMode;
use crate::report;
use crate::report::types::MutationReport;
use crate::report::{html, json, text};
use crate::text::texts;
use crate::tree;
use vstd::prelude::*;

verus! {

/// Resolve the project directory.
///
/// When a `--config` path is given, uses its parent directory.
/// Otherwise falls back to the current working directory, where it is known.
pub fn resolve_project_dir(config: Option<&str>, current_dir: Result<&str, &str>) -> (r: Result<
    String,
    Error,
>)
    ensures
        match config {
            Some(path) => r matches Ok(dir) && dir@ == match paths::parent_of(path@) {
                Some(parent) => if parent.len() > 0 {
                    parent
                } else {
                    "."@
                },
                None => "."@,
            },
            None => match current_dir {
                Ok(cwd) => r matches Ok(dir) && dir@ == cwd@,
                Err(problem) => r matches Err(Error::Config(m)) && m@
                    == "failed to determine current directory: "@ + problem@,
            },
        },
{
    if let Some(path) = config {
        if let Some(parent) = paths::parent(path) {
            if parent.as_str().unicode_len() > 0 {
                return Ok(parent);
            }
        }
        return Ok(".".to_owned());
    }
    match current_dir {
        Ok(cwd) => Ok(cwd.to_owned()),
        Err(problem) => {
            let mut message: String = "failed to determine current directory: ".to_owned();
            message.append(problem);
            Err(Error::Config(message))
        },
    }
}

/// Whether some test covers a mutant.
pub open spec fn is_covered(mutant: Mutant, coverage: CoverageMap) -> bool {
    tests_at(coverage@, (paths::path_key(mutant.file_path@), mutant.line)).len() > 0
}

/// Whether a path is among a list.
pub open spec fn is_listed(list: Seq<Seq<char>>, path: Seq<char>) -> bool {
    exists|i: int| 0 <= i < list.len() && paths::same_path(#[trigger] list[i], path)
}

/// The files with at least one covered mutant, in the order of the mutants,
/// each once.
pub open spec fn needed(mutants: Seq<Mutant>, coverage: CoverageMap) -> Seq<Seq<char>>
    decreases mutants.len(),
{
    if mutants.len() == 0 {
        Seq::empty()
    } else {
        let earlier = needed(mutants.drop_last(), coverage);
        let mutant = mutants.last();
        if is_covered(mutant, coverage) && !is_listed(earlier, mutant.file_path@) {
            earlier.push(mutant.file_path@)
        } else {
            earlier
        }
    }
}

/// Find the source files that have at least one covered mutant.
pub fn needed_sources(mutants: &[Mutant], coverage: &CoverageMap) -> (r: Vec<String>)
    requires
        coverage.wf(),
    ensures
        texts(r@) == needed(mutants@, *coverage),
{
    let mut out: Vec<String> = Vec::new();
    let mut keys: Vec<Vec<u16>> = Vec::new();
    let mut i: usize = 0;
    assert(texts(out@) =~= Seq::empty());
    assert(mutants@.take(0) =~= Seq::empty());
    while i < mutants.len()
        invariant
            i <= mutants@.len(),
            coverage.wf(),
            texts(out@) == needed(mutants@.take(i as int), *coverage),
            keys@.len() == out@.len(),
            forall|j: int|
                0 <= j < keys@.len() ==> (#[trigger] keys@[j])@ == paths::path_key(out@[j]@),
        decreases mutants.len() - i,
    {
        let ghost before = texts(out@);
        assert(mutants@.take(i + 1).drop_last() =~= mutants@.take(i as int));
        assert(mutants@.take(i + 1).last() == mutants@[i as int]);
        let mutant: &Mutant = &mutants[i];
        let covered: bool = match coverage.get(mutant.file_path.as_str(), mutant.line) {
            Some(tests) => tests.len() > 0,
            None => false,
        };
        proof {
            let key = (paths::path_key(mutant.file_path@), mutant.line);
            assert(covered == (tests_at(coverage@, key).len() > 0));
        }
        if covered {
            let key: Vec<u16> = paths::sort_key(mutant.file_path.as_str());
            if !holds_key(&keys, &key) {
                proof {
                    if is_listed(before, mutant.file_path@) {
                        let j = choose|j: int|
                            0 <= j < before.len() && paths::same_path(
                                #[trigger] before[j],
                                mutant.file_path@,
                            );
                        assert(keys@[j]@ == paths::path_key(out@[j]@));
                    }
                }
                out.push(mutant.file_path.clone());
                keys.push(key);
                assert(texts(out@) =~= before.push(mutant.file_path@));
            } else {
                proof {
                    let j = choose|j: int| 0 <= j < keys@.len() && (#[trigger] keys@[j])@ == key@;
                    assert(before[j] == out@[j]@);
                    assert(is_listed(before, mutant.file_path@));
                }
            }
        }
        i = i + 1;
    }
    assert(mutants@.take(i as int) =~= mutants@);
    out
}

/// Whether a key is among a list.
fn holds_key(keys: &Vec<Vec<u16>>, key: &Vec<u16>) -> (r: bool)
    ensures
        r == (exists|j: int| 0 <= j < keys@.len() && (#[trigger] keys@[j])@ == key@),
{
    let mut i: usize = 0;
    while i < keys.len()
        invariant
            i <= keys@.len(),
            forall|j: int| 0 <= j < i ==> (#[trigger] keys@[j])@ != key@,
        decreases keys.len() - i,
    {
        if paths::same_key(&keys[i], key) {
            return true;
        }
        i = i + 1;
    }
    false
}

/// The sources of the files with covered mutants.
#[derive(Debug)]
pub struct SourceCache {
    /// Keys of the paths.
    keys: Vec<Vec<u16>>,
    /// The text of the file with the key at the same index.
    contents: Vec<String>,
}

/// The text with the last occurrence of each key.
spec fn cached(keys: Seq<Vec<u16>>, contents: Seq<String>) -> Map<Seq<u16>, Seq<char>>
    decreases keys.len(),
{
    if keys.len() == 0 || contents.len() == 0 {
        Map::empty()
    } else {
        cached(keys.drop_last(), contents.drop_last()).insert(keys.last()@, contents.last()@)
    }
}

impl View for SourceCache {
    type V = Map<Seq<u16>, Seq<char>>;

    closed spec fn view(&self) -> Map<Seq<u16>, Seq<char>> {
        cached(self.keys@, self.contents@)
    }
}

impl SourceCache {
    /// Whether each key has a text.
    pub closed spec fn wf(self) -> bool {
        self.keys@.len() == self.contents@.len()
    }

    /// A cache without sources.
    pub fn new() -> (r: SourceCache)
        ensures
            r.wf(),
            r@ == Map::<Seq<u16>, Seq<char>>::empty(),
    {
        SourceCache { keys: Vec::new(), contents: Vec::new() }
    }

    /// Sets the text of a file.
    fn insert(&mut self, path: &str, content: String)
        requires
            old(self).wf(),
        ensures
            final(self).wf(),
            final(self)@ == old(self)@.insert(paths::path_key(path@), content@),
    {
        let ghost keys = self.keys@;
        let ghost contents = self.contents@;
        self.keys.push(paths::sort_key(path));
        self.contents.push(content);
        assert(self.keys@.drop_last() =~= keys);
        assert(self.contents@.drop_last() =~= contents);
    }

    /// The text of a file.
    pub fn get(&self, path: &str) -> (r: Option<&String>)
        requires
            self.wf(),
        ensures
            r is Some <==> self@.contains_key(paths::path_key(path@)),
            r matches Some(text) ==> text@ == self@[paths::path_key(path@)],
    {
        let key: Vec<u16> = paths::sort_key(path);
        let mut n: usize = self.keys.len();
        let ghost keys = self.keys@;
        let ghost contents = self.contents@;
        assert(keys.take(n as int) =~= keys);
        assert(contents.take(n as int) =~= contents);
        while n > 0
            invariant
                n <= keys.len() == contents.len(),
                keys == self.keys@,
                contents == self.contents@,
                key@ == paths::path_key(path@),
                cached(keys, contents).contains_key(key@) == cached(
                    keys.take(n as int),
                    contents.take(n as int),
                ).contains_key(key@),
                cached(keys, contents).contains_key(key@) ==> cached(keys, contents)[key@] == cached(
                    keys.take(n as int),
                    contents.take(n as int),
                )[key@],
            decreases n,
        {
            assert(keys.take(n as int).drop_last() =~= keys.take(n - 1));
            assert(contents.take(n as int).drop_last() =~= contents.take(n - 1));
            assert(keys.take(n as int).last() == keys[n - 1]);
            assert(contents.take(n as int).last() == contents[n - 1]);
            if paths::same_key(&self.keys[n - 1], &key) {
                return Some(&self.contents[n - 1]);
            }
            n = n - 1;
        }
        None
    }

    /// Whether there are no sources.
    pub fn is_empty(&self) -> (r: bool)
        requires
            self.wf(),
        ensures
            r == (self@ =~= Map::<Seq<u16>, Seq<char>>::empty()),
    {
        let r: bool = self.keys.len() == 0;
        proof {
            if !r {
                assert(self@.contains_key(self.keys@.last()@));
            }
        }
        r
    }
}

/// The message for the first file that could not be read, if there is one.
pub open spec fn first_unread(
    files: Seq<Seq<char>>,
    contents: Seq<Result<String, String>>,
) -> Option<Seq<char>>
    decreases files.len(),
{
    if files.len() == 0 || contents.len() == 0 {
        None
    } else {
        match first_unread(files.drop_last(), contents.drop_last()) {
            Some(problem) => Some(problem),
            None => match contents.last() {
                Ok(_) => None,
                Err(problem) => Some(
                    "failed to read source file "@ + files.last() + ": "@ + problem@,
                ),
            },
        }
    }
}

/// The texts of files by the keys of their paths.
pub open spec fn sources_of(
    files: Seq<Seq<char>>,
    contents: Seq<Result<String, String>>,
) -> Map<Seq<u16>, Seq<char>>
    decreases files.len(),
{
    if files.len() == 0 || contents.len() == 0 {
        Map::empty()
    } else {
        match contents.last() {
            Ok(text) => sources_of(files.drop_last(), contents.drop_last()).insert(
                paths::path_key(files.last()),
                text@,
            ),
            Err(_) => sources_of(files.drop_last(), contents.drop_last()),
        }
    }
}

/// A failure among the first files is the first failure of all.
proof fn lemma_unread_stays(files: Seq<Seq<char>>, contents: Seq<Result<String, String>>, i: int)
    requires
        files.len() == contents.len(),
        0 <= i <= files.len(),
        first_unread(files.take(i), contents.take(i)) is Some,
    ensures
        first_unread(files, contents) == first_unread(files.take(i), contents.take(i)),
    decreases files.len() - i,
{
    if i < files.len() {
        assert(files.take(i + 1).drop_last() =~= files.take(i));
        assert(contents.take(i + 1).drop_last() =~= contents.take(i));
        lemma_unread_stays(files, contents, i + 1);
    } else {
        assert(files.take(i) =~= files);
        assert(contents.take(i) =~= contents);
    }
}

/// Build the cache of the sources that have at least one covered mutant.
///
/// `contents` holds what came of reading each of the files. Returns
/// [`Error::Mutation`] if a source file cannot be read.
pub fn build_source_cache(files: &Vec<String>, contents: &Vec<Result<String, String>>) -> (r: Result<
    SourceCache,
    Error,
>)
    requires
        files@.len() == contents@.len(),
    ensures
        match first_unread(texts(files@), contents@) {
            Some(problem) => r matches Err(Error::Mutation(m)) && m@ == problem,
            None => r matches Ok(cache) && cache.wf() && cache@ == sources_of(
                texts(files@),
                contents@,
            ),
        },
{
    let mut cache: SourceCache = SourceCache::new();
    let ghost names = texts(files@);
    let mut i: usize = 0;
    assert(names.take(0) =~= Seq::empty());
    while i < files.len()
        invariant
            i <= files@.len() == contents@.len(),
            names == texts(files@),
            cache.wf(),
            first_unread(names.take(i as int), contents@.take(i as int)) is None,
            cache@ == sources_of(names.take(i as int), contents@.take(i as int)),
        decreases files.len() - i,
    {
        assert(names.take(i + 1).drop_last() =~= names.take(i as int));
        assert(contents@.take(i + 1).drop_last() =~= contents@.take(i as int));
        assert(names.take(i + 1).last() == files@[i as int]@);
        assert(contents@.take(i + 1).last() == contents@[i as int]);
        match &contents[i] {
            Ok(text) => {
                cache.insert(files[i].as_str(), text.clone());
            },
            Err(problem) => {
                let mut message: String = "failed to read source file ".to_owned();
                message.append(files[i].as_str());
                message.append(": ");
                message.append(problem.as_str());
                proof {
                    lemma_unread_stays(names, contents@, i + 1);
                }
                return Err(Error::Mutation(message));
            },
        }
        i = i + 1;
    }
    assert(names.take(i as int) =~= names);
    assert(contents@.take(i as int) =~= contents@);
    Ok(cache)
}

/// What is to be done for a mutant.
#[derive(Debug)]
pub enum MutantPlan<'a> {
    /// Nothing: the run has been cancelled.
    Cancel,
    /// Nothing: no test covers it, and this is its result.
    Skip(MutantResult),
    /// Run the tests that cover it on its source.
    Run {
        /// The original text of the file.
        source: &'a String,
        /// The tests that cover the mutant.
        tests: &'a Vec<String>,
    },
}

/// Whether a result is that of a mutant that no test covers.
pub open spec fn is_uncovered_result(result: MutantResult, mutant: Mutant) -> bool {
    &&& result.mutant == mutant
    &&& result.status is NoCoverage
    &&& result.tests_run@.len() == 0
    &&& result.duration == (Duration { secs: 0, nanos: 0 })
}

/// Whether a plan is the one for a mutant.
pub open spec fn plans(
    plan: Result<MutantPlan<'_>, Error>,
    cancelled: bool,
    mutant: Mutant,
    coverage: CoverageMap,
    cache: SourceCache,
) -> bool {
    let key = paths::path_key(mutant.file_path@);
    if cancelled {
        plan matches Ok(p) && p is Cancel
    } else if !is_covered(mutant, coverage) {
        plan matches Ok(MutantPlan::Skip(result)) && is_uncovered_result(result, mutant)
    } else if cache@.contains_key(key) {
        plan matches Ok(MutantPlan::Run { source, tests }) && source@ == cache@[key] && texts(
            tests@,
        ) == tests_at(coverage@, (key, mutant.line))
    } else {
        plan matches Err(Error::Mutation(m)) && m@ == "source cache missing for covered file "@
            + mutant.file_path@
    }
}

/// Decide what is to be done for a mutant.
///
/// Checks for cancellation, looks up the tests for the mutant's file and
/// line, and either marks the mutant as not covered or says which tests to
/// run on which source.
pub fn plan_mutant<'a>(
    cancelled: bool,
    mutant: &Mutant,
    coverage: &'a CoverageMap,
    cache: &'a SourceCache,
) -> (r: Result<MutantPlan<'a>, Error>)
    requires
        coverage.wf(),
        cache.wf(),
    ensures
        plans(r, cancelled, *mutant, *coverage, *cache),
{
    if cancelled {
        return Ok(MutantPlan::Cancel);
    }
    if let Some(tests) = coverage.get(mutant.file_path.as_str(), mutant.line) {
        if tests.len() > 0 {
            assert(texts(tests@).len() > 0);
            match cache.get(mutant.file_path.as_str()) {
                Some(source) => {
                    return Ok(MutantPlan::Run { source, tests });
                },
                None => {
                    let mut message: String = "source cache missing for covered file ".to_owned();
                    message.append(mutant.file_path.as_str());
                    return Err(Error::Mutation(message));
                },
            }
        }
        assert(texts(tests@).len() == 0);
    }
    Ok(
        MutantPlan::Skip(
            MutantResult {
                mutant: mutant.clone(),
                status: MutantStatus::NoCoverage,
                tests_run: Vec::new(),
                duration: Duration { secs: 0, nanos: 0 },
            },
        ),
    )
}

/// What came of the mutants of a run, each with a result unless it was
/// cancelled.
pub type Outcomes = Vec<Result<Option<MutantResult>, Error>>;

/// The first error among outcomes, if there is one.
pub open spec fn first_error(outcomes: Seq<Result<Option<MutantResult>, Error>>) -> Option<Error>
    decreases outcomes.len(),
{
    if outcomes.len() == 0 {
        None
    } else {
        match outcomes[0] {
            Err(error) => Some(error),
            Ok(_) => first_error(outcomes.drop_first()),
        }
    }
}

/// The results among outcomes, in their order.
pub open spec fn results_of(outcomes: Seq<Result<Option<MutantResult>, Error>>) -> Seq<MutantResult>
    decreases outcomes.len(),
{
    if outcomes.len() == 0 {
        Seq::empty()
    } else {
        match outcomes[0] {
            Ok(Some(result)) => seq![result] + results_of(outcomes.drop_first()),
            _ => results_of(outcomes.drop_first()),
        }
    }
}

/// Whether some mutant was cancelled.
pub open spec fn any_cancelled(outcomes: Seq<Result<Option<MutantResult>, Error>>) -> bool
    decreases outcomes.len(),
{
    outcomes.len() > 0 && (outcomes[0] matches Ok(None) || any_cancelled(outcomes.drop_first()))
}

/// Collect the results of the mutants of a run.
///
/// Leaves out cancelled mutants, and says whether there were any. Returns the
/// first error if there is one.
pub fn collect_results(outcomes: Outcomes) -> (r: Result<(Vec<MutantResult>, bool), Error>)
    ensures
        match first_error(outcomes@) {
            Some(error) => r matches Err(e) && e == error,
            None => r matches Ok((results, cancelled)) && results@ == results_of(outcomes@)
                && cancelled == any_cancelled(outcomes@),
        },
{
    let ghost all = outcomes@;
    let mut rest: Outcomes = outcomes;
    let mut backward: Vec<MutantResult> = Vec::new();
    let mut error: Option<Error> = None;
    let mut cancelled: bool = false;
    assert(all.skip(all.len() as int) =~= Seq::empty());
    assert(backward@.reverse() =~= Seq::empty());
    while rest.len() > 0
        invariant
            rest@.len() <= all.len(),
            rest@ == all.take(rest@.len() as int),
            error == first_error(all.skip(rest@.len() as int)),
            backward@.reverse() == results_of(all.skip(rest@.len() as int)),
            cancelled == any_cancelled(all.skip(rest@.len() as int)),
        decreases rest.len(),
    {
        let ghost n = rest@.len() as int;
        assert(all.skip(n - 1).drop_first() =~= all.skip(n));
        assert(all.skip(n - 1)[0] == all[n - 1]);
        let outcome: Option<Result<Option<MutantResult>, Error>> = rest.pop();
        assert(rest@ =~= all.take(n - 1));
        match outcome {
            Some(Err(problem)) => {
                error = Some(problem);
            },
            Some(Ok(Some(result))) => {
                let ghost before = backward@;
                backward.push(result);
                assert(backward@.reverse() =~= seq![result] + before.reverse());
            },
            _ => {
                cancelled = true;
            },
        }
    }
    assert(all.skip(0) =~= all);
    if let Some(problem) = error {
        return Err(problem);
    }
    let mut results: Vec<MutantResult> = Vec::new();
    assert(results@ + backward@.reverse() =~= results_of(all));
    while backward.len() > 0
        invariant
            results@ + backward@.reverse() == results_of(all),
        decreases backward.len(),
    {
        let ghost before = backward@;
        if let Some(result) = backward.pop() {
            let ghost listed = results@;
            results.push(result);
            assert(results@ + backward@.reverse() =~= listed + before.reverse());
        }
    }
    assert(results@ =~= results_of(all));
    Ok((results, cancelled))
}

/// The summary scoreboard of a report.
pub fn summarize(report: &MutationReport, duration: Duration) -> (r: SummaryInfo)
    requires
        report.is_countable(),
    ensures
        r == (SummaryInfo {
            score: report.score(),
            killed: report.killed,
            survived: report.survived,
            timeouts: report.timeouts,
            errors: report.errors,
            no_coverage: report.no_coverage,
            duration,
        }),
{
    SummaryInfo {
        score: report.mutation_score(),
        killed: report.killed,
        survived: report.survived,
        timeouts: report.timeouts,
        errors: report.errors,
        no_coverage: report.no_coverage,
        duration,
    }
}

/// Whether the report on stdout is colored.
pub fn is_report_colored(mode: RenderMode, stdout_is_terminal: bool) -> (r: bool)
    ensures
        r == (mode.colors() && stdout_is_terminal),
{
    mode.is_colored() && stdout_is_terminal
}

/// Format the report that is written to stdout.
///
/// Text is colored where the mode is and stdout is a terminal. In fancy mode
/// it has no listing of survived mutants.
pub fn format_output(
    report: &MutationReport,
    format: &OutputFormat,
    mode: RenderMode,
    stdout_is_terminal: bool,
) -> (r: Result<String, Error>)
    requires
        report.is_countable(),
    ensures
        match *format {
            OutputFormat::Text => r matches Ok(out) && out@ == (if mode is Fancy {
                text::brief_text(*report, stdout_is_terminal)
            } else {
                text::report_text(*report, mode.colors() && stdout_is_terminal)
            }),
            OutputFormat::Json => r matches Ok(out) && out@ == tree::pretty(
                json::report_view(*report),
            ),
            OutputFormat::Html => r matches Ok(page) && html::is_page(*report, page@),
        },
{
    let colored: bool = is_report_colored(mode, stdout_is_terminal);
    if matches!(mode, RenderMode::Fancy) && matches!(*format, OutputFormat::Text) {
        return Ok(text::format_brief(report, colored));
    }
    report::format_report(report, format, colored)
}

/// The message for a score below a threshold.
pub open spec fn threshold_message(score: Double, threshold: Double) -> Seq<char> {
    "mutation score "@ + score.one_decimal_text() + "% is below the required threshold of "@
        + threshold.one_decimal_text() + "%"@
}

/// Check for cancellation and threshold violations after the report is
/// written.
///
/// Returns [`Error::Cancelled`] if the run was interrupted by a signal,
/// or [`Error::Threshold`] if the mutation score is below `fail_under`.
pub fn check_final_status(
    was_cancelled: bool,
    report: &MutationReport,
    config: &FestConfig,
) -> (r: Result<(), Error>)
    requires
        report.is_countable(),
    ensures
        if was_cancelled {
            r matches Err(Error::Cancelled(m)) && m@
                == "run interrupted by signal; partial results reported above"@
        } else {
            match config.fail_under {
                Some(threshold) if !report.score().reaches(threshold) => r matches Err(
                    Error::Threshold(m),
                ) && m@ == threshold_message(report.score(), threshold),
                _ => r is Ok,
            }
        },
{
    if was_cancelled {
        return Err(
            Error::Cancelled(
                "run interrupted by signal; partial results reported above".to_owned(),
            ),
        );
    }
    if let Some(threshold) = config.fail_under {
        if !report.passes_threshold(threshold) {
            let mut message: String = "mutation score ".to_owned();
            message.append(report.mutation_score().one_decimal().as_str());
            message.append("% is below the required threshold of ");
            message.append(threshold.one_decimal().as_str());
            message.append("%");
            return Err(Error::Threshold(message));
        }
    }
    Ok(())
}

/// What is done to a session before it is used.
#[derive(Debug, Clone, Copy, PartialEq, Eq, Structural)]
pub enum SessionStep {
    /// Forget all mutants.
    DeleteMutants,
    /// Forget the results of the files that have changed.
    ResetChangedFiles,
    /// Store the seed and the version.
    StoreMetadata,
}

/// What is done to a session before it is used, in order: it is reset where
/// that is asked for, brought up to date where that is asked for, and marked
/// with this run.
pub fn session_steps(reset: bool, incremental: bool) -> (r: Vec<SessionStep>)
    ensures
        r@ == (if reset {
            seq![SessionStep::DeleteMutants]
        } else {
            Seq::empty()
        }) + (if incremental {
            seq![SessionStep::ResetChangedFiles]
        } else {
            Seq::empty()
        }) + seq![SessionStep::StoreMetadata],
{
    let mut steps: Vec<SessionStep> = Vec::new();
    if reset {
        steps.push(SessionStep::DeleteMutants);
    }
    if incremental {
        steps.push(SessionStep::ResetChangedFiles);
    }
    steps.push(SessionStep::StoreMetadata);
    steps
}

/// The files of the mutants of a session.
pub open spec fn session_paths(pending: Seq<Mutant>, completed: Seq<MutantResult>) -> Seq<
    Seq<char>,
> {
    pending.map_values(|mutant: Mutant| mutant.file_path@) + completed.map_values(
        |result: MutantResult| result.mutant.file_path@,
    )
}

/// Whether `r` lists the files of the mutants of a session in order, each once.
pub open spec fn is_session_listing(
    pending: Seq<Mutant>,
    completed: Seq<MutantResult>,
    r: Seq<String>,
) -> bool {
    exists|all: Seq<String>| #[trigger]
        texts(all) == session_paths(pending, completed) && paths::sorted_once(all, r)
}

/// The files of the mutants of a session, sorted, each once.
pub fn session_files(pending: &Vec<Mutant>, completed: &Vec<MutantResult>) -> (r: Vec<String>)
    ensures
        is_session_listing(pending@, completed@, r@),
{
    let ghost first = pending@.map_values(|mutant: Mutant| mutant.file_path@);
    let ghost second = completed@.map_values(|result: MutantResult| result.mutant.file_path@);
    let mut all: Vec<String> = Vec::new();
    let mut i: usize = 0;
    while i < pending.len()
        invariant
            i <= pending@.len(),
            first == pending@.map_values(|mutant: Mutant| mutant.file_path@),
            texts(all@) == first.take(i as int),
        decreases pending.len() - i,
    {
        let ghost before = texts(all@);
        all.push(pending[i].file_path.clone());
        assert(texts(all@) =~= before.push(pending@[i as int].file_path@));
        assert(first.take(i + 1) =~= before.push(first[i as int]));
        i = i + 1;
    }
    assert(first.take(i as int) =~= first);
    let mut k: usize = 0;
    assert(first + second.take(0) =~= first);
    while k < completed.len()
        invariant
            k <= completed@.len(),
            second == completed@.map_values(|result: MutantResult| result.mutant.file_path@),
            texts(all@) == first + second.take(k as int),
        decreases completed.len() - k,
    {
        let ghost before = texts(all@);
        all.push(completed[k].mutant.file_path.clone());
        assert(texts(all@) =~= before.push(completed@[k as int].mutant.file_path@));
        assert(first + second.take(k + 1) =~= before.push(second[k as int]));
        k = k + 1;
    }
    assert(second.take(k as int) =~= second);
    assert(texts(all@) == session_paths(pending@, completed@));
    paths::sort_paths(all.as_slice())
}

/// The time of the last run, in seconds since the epoch: zero where it cannot
/// be read.
pub open spec fn last_run_secs(timestamp: Seq<char>) -> u64 {
    match numbers::u64_value(timestamp) {
        Ok(n) => n,
        Err(_) => 0,
    }
}

/// Whether a file that was modified at a time since the epoch, where that is
/// known, has changed after a second.
pub open spec fn is_newer(modified: Option<Duration>, secs: u64) -> bool {
    match modified {
        Some(time) => time.secs > secs || time.secs == secs && time.nanos > 0,
        None => false,
    }
}

/// The files that were modified after a second, in their order.
pub open spec fn changed_of(
    files: Seq<Seq<char>>,
    modified: Seq<Option<Duration>>,
    secs: u64,
) -> Seq<Seq<char>>
    decreases files.len(),
{
    if files.len() == 0 || modified.len() == 0 {
        Seq::empty()
    } else {
        let earlier = changed_of(files.drop_last(), modified.drop_last(), secs);
        if is_newer(modified.last(), secs) {
            earlier.push(files.last())
        } else {
            earlier
        }
    }
}

/// Find source files that have changed since the session was last run.
///
/// `last_run` is the time stored in the session, if there is one, and
/// `modified` the modification times of the files. Without a previous run no
/// file counts as changed.
pub fn find_changed_source_files(
    last_run: Option<&str>,
    files: &Vec<String>,
    modified: &Vec<Option<Duration>>,
) -> (r: Vec<String>)
    requires
        files@.len() == modified@.len(),
    ensures
        texts(r@) == match last_run {
            Some(timestamp) => changed_of(
                texts(files@),
                modified@,
                last_run_secs(timestamp@),
            ),
            None => Seq::empty(),
        },
{
    let mut out: Vec<String> = Vec::new();
    assert(texts(out@) =~= Seq::empty());
    match last_run {
        None => out,
        Some(timestamp) => {
            let secs: u64 = match numbers::parse_u64(timestamp) {
                Ok(n) => n,
                Err(_) => 0,
            };
            let ghost names = texts(files@);
            let mut i: usize = 0;
            assert(names.take(0) =~= Seq::empty());
            while i < files.len()
                invariant
                    i <= files@.len() == modified@.len(),
                    names == texts(files@),
                    texts(out@) == changed_of(
                        names.take(i as int),
                        modified@.take(i as int),
                        secs,
                    ),
                decreases files.len() - i,
            {
                let ghost before = texts(out@);
                assert(names.take(i + 1).drop_last() =~= names.take(i as int));
                assert(modified@.take(i + 1).drop_last() =~= modified@.take(i as int));
                assert(names.take(i + 1).last() == files@[i as int]@);
                assert(modified@.take(i + 1).last() == modified@[i as int]);
                let newer: bool = match &modified[i] {
                    Some(time) => time.secs > secs || time.secs == secs && time.nanos > 0,
                    None => false,
                };
                if newer {
                    out.push(files[i].clone());
                    assert(texts(out@) =~= before.push(files@[i as int]@));
                }
                i = i + 1;
            }
            assert(names.take(i as int) =~= names);
            assert(modified@.take(i as int) =~= modified@);
            out
        },
    }
}

/// A file with a covered mutant is among the needed ones.
proof fn lemma_covered_is_needed(mutants: Seq<Mutant>, coverage: CoverageMap, i: int)
    requires
        0 <= i < mutants.len(),
        is_covered(mutants[i], coverage),
    ensures
        is_listed(needed(mutants, coverage), mutants[i].file_path@),
    decreases mutants.len(),
{
    let path = mutants[i].file_path@;
    let earlier = needed(mutants.drop_last(), coverage);
    let all = needed(mutants, coverage);
    if i < mutants.len() - 1 {
        lemma_covered_is_needed(mutants.drop_last(), coverage, i);
        assert(is_listed(earlier, path));
    }
    if is_listed(earlier, path) {
        let j = choose|j: int| 0 <= j < earlier.len() && paths::same_path(#[trigger] earlier[j], path);
        assert(all[j] == earlier[j]);
    } else {
        assert(all[all.len() - 1] == path);
    }
}

/// The sources of files that could all be read hold each of the files.
proof fn lemma_sources_complete(
    files: Seq<Seq<char>>,
    contents: Seq<Result<String, String>>,
    path: Seq<char>,
)
    requires
        files.len() == contents.len(),
        first_unread(files, contents) is None,
        is_listed(files, path),
    ensures
        sources_of(files, contents).contains_key(paths::path_key(path)),
    decreases files.len(),
{
    let j = choose|j: int| 0 <= j < files.len() && paths::same_path(#[trigger] files[j], path);
    if j < files.len() - 1 {
        assert(files.drop_last()[j] == files[j]);
        lemma_sources_complete(files.drop_last(), contents.drop_last(), path);
    }
}

/// Every covered mutant has its source: with the sources of the needed files
/// at hand, its tests are run, and it never fails for want of a source.
pub proof fn law_covered_mutants_are_run(
    mutants: Seq<Mutant>,
    coverage: CoverageMap,
    contents: Seq<Result<String, String>>,
    cache: SourceCache,
    plan: Result<MutantPlan<'_>, Error>,
    i: int,
)
    requires
        0 <= i < mutants.len(),
        is_covered(mutants[i], coverage),
        contents.len() == needed(mutants, coverage).len(),
        first_unread(needed(mutants, coverage), contents) is None,
        cache@ == sources_of(needed(mutants, coverage), contents),
        plans(plan, false, mutants[i], coverage, cache),
    ensures
        plan matches Ok(MutantPlan::Run { .. }),
{
    lemma_covered_is_needed(mutants, coverage, i);
    lemma_sources_complete(needed(mutants, coverage), contents, mutants[i].file_path@);
}

/// Without errors and cancelled mutants, there is one result for each mutant,
/// in the order of the mutants.
pub proof fn law_results_keep_order(outcomes: Seq<Result<Option<MutantResult>, Error>>, i: int)
    requires
        first_error(outcomes) is None,
        !any_cancelled(outcomes),
        0 <= i < outcomes.len(),
    ensures
        results_of(outcomes).len() == outcomes.len(),
        outcomes[i] == Ok::<Option<MutantResult>, Error>(Some(results_of(outcomes)[i])),
    decreases outcomes.len(),
{
    let rest = outcomes.drop_first();
    if rest.len() == 0 {
        assert(results_of(rest) =~= Seq::empty());
    } else {
        law_results_keep_order(
            rest,
            if i > 0 {
                i - 1
            } else {
                0
            },
        );
    }
    if i > 0 {
        assert(outcomes[i] == rest[i - 1]);
        assert(results_of(outcomes)[i] == results_of(rest)[i - 1]);
    }
}

/// Whether a path is that of a covered mutant.
pub open spec fn is_of_covered(
    mutants: Seq<Mutant>,
    coverage: CoverageMap,
    path: Seq<char>,
) -> bool {
    exists|i: int|
        0 <= i < mutants.len() && is_covered(#[trigger] mutants[i], coverage)
            && mutants[i].file_path@ == path
}

/// The sources that are needed are the files of the covered mutants, each once:
/// a file is listed exactly when it has a covered mutant, and no two entries are
/// the same file.
pub proof fn law_sources_of_covered_mutants_are_needed(
    mutants: Seq<Mutant>,
    coverage: CoverageMap,
    path: Seq<char>,
)
    ensures
        is_listed(needed(mutants, coverage), path) <==> exists|i: int|
            0 <= i < mutants.len() && is_covered(#[trigger] mutants[i], coverage)
                && paths::same_path(mutants[i].file_path@, path),
        forall|i: int, j: int|
            0 <= i < j < needed(mutants, coverage).len() ==> !paths::same_path(
                #[trigger] needed(mutants, coverage)[i],
                #[trigger] needed(mutants, coverage)[j],
            ),
        forall|k: int|
            0 <= k < needed(mutants, coverage).len() ==> is_of_covered(
                mutants,
                coverage,
                #[trigger] needed(mutants, coverage)[k],
            ),
{
    lemma_needed_are_covered(mutants, coverage);
    lemma_needed_differ(mutants, coverage);
    let all = needed(mutants, coverage);
    if is_listed(all, path) {
        let k = choose|k: int| 0 <= k < all.len() && paths::same_path(#[trigger] all[k], path);
        assert(is_of_covered(mutants, coverage, all[k]));
        let i = choose|i: int|
            0 <= i < mutants.len() && is_covered(#[trigger] mutants[i], coverage)
                && mutants[i].file_path@ == all[k];
        assert(paths::same_path(mutants[i].file_path@, path));
    }
    if exists|i: int|
        0 <= i < mutants.len() && is_covered(#[trigger] mutants[i], coverage) && paths::same_path(
            mutants[i].file_path@,
            path,
        ) {
        let i = choose|i: int|
            0 <= i < mutants.len() && is_covered(#[trigger] mutants[i], coverage)
                && paths::same_path(mutants[i].file_path@, path);
        lemma_covered_is_needed(mutants, coverage, i);
        let k = choose|k: int|
            0 <= k < all.len() && paths::same_path(#[trigger] all[k], mutants[i].file_path@);
        assert(paths::same_path(all[k], path));
    }
}

proof fn lemma_needed_are_covered(mutants: Seq<Mutant>, coverage: CoverageMap)
    ensures
        forall|k: int|
            0 <= k < needed(mutants, coverage).len() ==> is_of_covered(
                mutants,
                coverage,
                #[trigger] needed(mutants, coverage)[k],
            ),
    decreases mutants.len(),
{
    let all = needed(mutants, coverage);
    if mutants.len() > 0 {
        let rest = mutants.drop_last();
        let init = needed(rest, coverage);
        lemma_needed_are_covered(rest, coverage);
        assert forall|k: int| 0 <= k < all.len() implies is_of_covered(
            mutants,
            coverage,
            #[trigger] all[k],
        ) by {
            if k < init.len() {
                assert(all[k] == init[k]);
                assert(is_of_covered(rest, coverage, init[k]));
                let i = choose|i: int|
                    0 <= i < rest.len() && is_covered(#[trigger] rest[i], coverage)
                        && rest[i].file_path@ == init[k];
                assert(mutants[i] == rest[i]);
            } else {
                let n = mutants.len() - 1;
                assert(is_covered(mutants[n], coverage) && mutants[n].file_path@ == all[k]);
            }
        }
    }
}

proof fn lemma_needed_differ(mutants: Seq<Mutant>, coverage: CoverageMap)
    ensures
        forall|i: int, j: int|
            0 <= i < j < needed(mutants, coverage).len() ==> !paths::same_path(
                #[trigger] needed(mutants, coverage)[i],
                #[trigger] needed(mutants, coverage)[j],
            ),
    decreases mutants.len(),
{
    let all = needed(mutants, coverage);
    if mutants.len() > 0 {
        let init = needed(mutants.drop_last(), coverage);
        lemma_needed_differ(mutants.drop_last(), coverage);
        assert forall|i: int, j: int| 0 <= i < j < all.len() implies !paths::same_path(
            #[trigger] all[i],
            #[trigger] all[j],
        ) by {
            assert(all[i] == init[i]);
            if j < init.len() {
                assert(all[j] == init[j]);
            } else {
                assert(all[j] == mutants.last().file_path@);
                assert(!is_listed(init, mutants.last().file_path@));
            }
        }
    }
}

/// The sources that are needed for some mutants come first among those that are
/// needed for these and others behind them.
pub proof fn law_sources_of_earlier_mutants_come_first(
    mutants: Seq<Mutant>,
    more: Seq<Mutant>,
    coverage: CoverageMap,
)
    ensures
        needed(mutants, coverage).is_prefix_of(needed(mutants + more, coverage)),
    decreases more.len(),
{
    if more.len() > 0 {
        law_sources_of_earlier_mutants_come_first(mutants, more.drop_last(), coverage);
        assert((mutants + more).drop_last() =~= mutants + more.drop_last());
    } else {
        assert(mutants + more =~= mutants);
    }
}

/// The source that could not be read is the first of them; where all were read
/// there is none.
pub proof fn law_the_first_unread_source_counts(
    files: Seq<Seq<char>>,
    contents: Seq<Result<String, String>>,
    i: int,
)
    requires
        files.len() == contents.len(),
    ensures
        first_unread(files, contents) is None <==> forall|j: int|
            0 <= j < contents.len() ==> #[trigger] contents[j] is Ok,
        0 <= i < files.len() && contents[i] is Err && (forall|j: int|
            0 <= j < i ==> #[trigger] contents[j] is Ok) ==> first_unread(files, contents) == Some(
            "failed to read source file "@ + files[i] + ": "@ + contents[i]->Err_0@,
        ),
    decreases files.len(),
{
    if files.len() > 0 {
        let rest = contents.drop_last();
        law_the_first_unread_source_counts(files.drop_last(), rest, i);
        assert(contents[contents.len() - 1] == contents.last());
        if first_unread(files, contents) is None {
            assert forall|j: int| 0 <= j < contents.len() implies #[trigger] contents[j] is Ok by {
                if j < rest.len() {
                    assert(rest[j] == contents[j]);
                }
            }
        }
        if forall|j: int| 0 <= j < contents.len() ==> #[trigger] contents[j] is Ok {
            assert forall|j: int| 0 <= j < rest.len() implies #[trigger] rest[j] is Ok by {
                assert(rest[j] == contents[j]);
            }
        }
        if 0 <= i < files.len() && contents[i] is Err && (forall|j: int|
            0 <= j < i ==> #[trigger] contents[j] is Ok) {
            assert forall|j: int| 0 <= j < i && j < rest.len() implies #[trigger] rest[j] is Ok by {
                assert(rest[j] == contents[j]);
            }
            if i < rest.len() {
                assert(rest[i] == contents[i]);
            }
        }
    }
}

/// Every source that was read is found under its path, the last of those that
/// are the same file, and nothing else is found.
pub proof fn law_sources_are_found_under_their_path(
    files: Seq<Seq<char>>,
    contents: Seq<Result<String, String>>,
    path: Seq<char>,
    k: int,
)
    requires
        files.len() == contents.len(),
    ensures
        sources_of(files, contents).contains_key(paths::path_key(path)) <==> exists|i: int|
            0 <= i < files.len() && contents[i] is Ok && paths::same_path(#[trigger] files[i], path),
        0 <= k < files.len() && contents[k] is Ok && paths::same_path(files[k], path) && (forall|
            j: int,
        |
            k < j < files.len() && contents[j] is Ok ==> !paths::same_path(
                #[trigger] files[j],
                path,
            )) ==> sources_of(files, contents)[paths::path_key(path)] == contents[k]->Ok_0@,
    decreases files.len(),
{
    if files.len() > 0 {
        let rest = files.drop_last();
        let read = contents.drop_last();
        law_sources_are_found_under_their_path(rest, read, path, k);
        let n = files.len() - 1;
        assert(files[n] == files.last() && contents[n] == contents.last());
        if exists|i: int|
            0 <= i < rest.len() && read[i] is Ok && paths::same_path(#[trigger] rest[i], path) {
            let i = choose|i: int|
                0 <= i < rest.len() && read[i] is Ok && paths::same_path(#[trigger] rest[i], path);
            assert(files[i] == rest[i] && contents[i] == read[i]);
        }
        if exists|i: int|
            0 <= i < files.len() && contents[i] is Ok && paths::same_path(#[trigger] files[i], path) {
            let i = choose|i: int|
                0 <= i < files.len() && contents[i] is Ok && paths::same_path(
                    #[trigger] files[i],
                    path,
                );
            if i < rest.len() {
                assert(files[i] == rest[i] && contents[i] == read[i]);
            }
        }
        if 0 <= k < rest.len() && contents[k] is Ok && paths::same_path(files[k], path) && (forall|
            j: int,
        |
            k < j < files.len() && contents[j] is Ok ==> !paths::same_path(
                #[trigger] files[j],
                path,
            )) {
            assert(files[k] == rest[k] && contents[k] == read[k]);
            assert forall|j: int| k < j < rest.len() && read[j] is Ok implies !paths::same_path(
                #[trigger] rest[j],
                path,
            ) by {
                assert(files[j] == rest[j] && contents[j] == read[j]);
            }
            assert(contents[n] is Ok ==> !paths::same_path(files[n], path));
        }
    }
}

/// The error of a run is the first of its outcomes that is one; where none is one
/// there is none.
pub proof fn law_the_first_error_counts(outcomes: Seq<Result<Option<MutantResult>, Error>>, i: int)
    ensures
        first_error(outcomes) is None <==> forall|j: int|
            0 <= j < outcomes.len() ==> #[trigger] outcomes[j] is Ok,
        0 <= i < outcomes.len() && outcomes[i] is Err && (forall|j: int|
            0 <= j < i ==> #[trigger] outcomes[j] is Ok) ==> first_error(outcomes) == Some(
            outcomes[i]->Err_0,
        ),
    decreases outcomes.len(),
{
    if outcomes.len() > 0 {
        let rest = outcomes.drop_first();
        law_the_first_error_counts(rest, i - 1);
        if first_error(outcomes) is None {
            assert forall|j: int| 0 <= j < outcomes.len() implies #[trigger] outcomes[j] is Ok by {
                if j > 0 {
                    assert(rest[j - 1] == outcomes[j]);
                }
            }
        }
        if forall|j: int| 0 <= j < outcomes.len() ==> #[trigger] outcomes[j] is Ok {
            assert(outcomes[0] is Ok);
            assert forall|j: int| 0 <= j < rest.len() implies #[trigger] rest[j] is Ok by {
                assert(rest[j] == outcomes[j + 1]);
            }
        }
        if 0 < i < outcomes.len() && (forall|j: int| 0 <= j < i ==> #[trigger] outcomes[j] is Ok) {
            assert(rest[i - 1] == outcomes[i]);
            assert(outcomes[0] is Ok);
            assert forall|j: int| 0 <= j < i - 1 implies #[trigger] rest[j] is Ok by {
                assert(rest[j] == outcomes[j + 1]);
            }
        }
    }
}

/// The results of a run are those of its outcomes that have one, in their
/// order, and it was cancelled exactly when one of them has none.
pub proof fn law_outcomes_give_their_results(
    a: Seq<Result<Option<MutantResult>, Error>>,
    b: Seq<Result<Option<MutantResult>, Error>>,
    outcome: Result<Option<MutantResult>, Error>,
)
    ensures
        results_of(a + b) == results_of(a) + results_of(b),
        outcome matches Ok(Some(result)) ==> results_of(seq![outcome]) == seq![result],
        !(outcome matches Ok(Some(_))) ==> results_of(seq![outcome]).len() == 0,
        any_cancelled(a) <==> exists|i: int|
            0 <= i < a.len() && (#[trigger] a[i] matches Ok(None)),
    decreases a.len(),
{
    let one = seq![outcome];
    assert(one.drop_first() =~= Seq::<Result<Option<MutantResult>, Error>>::empty());
    assert(results_of(one.drop_first()) =~= Seq::<MutantResult>::empty());
    assert(one[0] == outcome);
    if let Ok(Some(result)) = outcome {
        assert(results_of(one) =~= seq![result]);
    }
    if a.len() == 0 {
        assert(a + b =~= b);
    } else {
        let rest = a.drop_first();
        law_outcomes_give_their_results(rest, b, outcome);
        assert((a + b).drop_first() =~= rest + b);
        assert((a + b)[0] == a[0]);
        assert(results_of(a + b) =~= results_of(a) + results_of(b));
        if exists|i: int| 0 <= i < rest.len() && (#[trigger] rest[i] matches Ok(None)) {
            let i = choose|i: int| 0 <= i < rest.len() && (#[trigger] rest[i] matches Ok(None));
            assert(a[i + 1] == rest[i]);
        }
        if exists|i: int| 0 <= i < a.len() && (#[trigger] a[i] matches Ok(None)) {
            let i = choose|i: int| 0 <= i < a.len() && (#[trigger] a[i] matches Ok(None));
            if i > 0 {
                assert(rest[i - 1] == a[i]);
            }
        }
    }
}

/// A file is newer than a run if it was modified after the second in which the
/// run was noted, to the nanosecond. One without a time is not.
pub proof fn law_newer_means_later(time: Duration, secs: u64)
    requires
        time.nanos < 1_000_000_000,
    ensures
        is_newer(Some(time), secs) <==> time.secs * 1_000_000_000 + time.nanos > secs
            * 1_000_000_000,
        !is_newer(None, secs),
{
}

/// The changed files are those that are newer than the run, in their order.
pub proof fn law_changed_files_are_the_newer_ones(
    files: Seq<Seq<char>>,
    modified: Seq<Option<Duration>>,
    secs: u64,
)
    requires
        files.len() == modified.len(),
    ensures
        changed_of(files, modified, secs) == files.zip_with(modified).filter_map(
            |entry: (Seq<char>, Option<Duration>)|
                if is_newer(entry.1, secs) {
                    Some(entry.0)
                } else {
                    None
                },
        ),
    decreases files.len(),
{
    let keep = |entry: (Seq<char>, Option<Duration>)|
        if is_newer(entry.1, secs) {
            Some(entry.0)
        } else {
            None
        };
    let all = files.zip_with(modified);
    if files.len() > 0 {
        law_changed_files_are_the_newer_ones(files.drop_last(), modified.drop_last(), secs);
        assert(all.drop_last() =~= files.drop_last().zip_with(modified.drop_last()));
        assert(all.last() == (files.last(), modified.last()));
        assert(changed_of(files, modified, secs) =~= all.filter_map(keep));
    }
}

/// The files of a session are those of its mutants, of the ones that wait and of
/// the ones that are done.
pub proof fn law_sessions_list_every_file(
    pending: Seq<Mutant>,
    completed: Seq<MutantResult>,
    r: Seq<String>,
    i: int,
)
    requires
        is_session_listing(pending, completed, r),
    ensures
        0 <= i < pending.len() ==> exists|p: int|
            0 <= p < r.len() && paths::same_path(#[trigger] r[p]@, pending[i].file_path@),
        0 <= i < completed.len() ==> exists|p: int|
            0 <= p < r.len() && paths::same_path(#[trigger] r[p]@, completed[i].mutant.file_path@),
{
    let all = choose|all: Seq<String>| #[trigger]
        texts(all) == session_paths(pending, completed) && paths::sorted_once(all, r);
    let paths_of = session_paths(pending, completed);
    assert(all.len() == texts(all).len());
    if 0 <= i < pending.len() {
        assert(texts(all)[i] == pending[i].file_path@);
        assert(all[i]@ == pending[i].file_path@);
        paths::law_sorting_paths_loses_nothing(all, r, i, 0);
    }
    if 0 <= i < completed.len() {
        let k = pending.len() + i;
        assert(paths_of[k] == completed[i].mutant.file_path@);
        assert(texts(all)[k] == completed[i].mutant.file_path@);
        assert(all[k]@ == completed[i].mutant.file_path@);
        paths::law_sorting_paths_loses_nothing(all, r, k, 0);
    }
}

/// The message of a missed threshold tells the score and what was asked for.
pub proof fn law_missed_thresholds_are_told(score: Double, threshold: Double)
    ensures
        threshold_message(score, threshold) == "mutation score "@ + score.one_decimal_text()
            + "% is below the required threshold of "@ + threshold.one_decimal_text() + "%"@,
{
}

/// The time of the last run is read from its digits, and is the start of time
/// where it cannot be read.
pub proof fn law_the_last_run_is_read(timestamp: Seq<char>, n: u64)
    ensures
        numbers::u64_value(timestamp) == Ok::<u64, numbers::NumberProblem>(n) ==> last_run_secs(
            timestamp,
        ) == n,
        numbers::u64_value(timestamp) is Err ==> last_run_secs(timestamp) == 0,
{
}

} // verus!
