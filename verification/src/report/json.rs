//! JSON report formatter.
//!
//! Lays a [`MutationReport`] out as a JSON value and writes it with the
//! `serde_json` crate.
use crate::duration::Duration;
use crate::error::Error;
use crate::mutation::mutant::{Mutant, MutantResult, MutantStatus, SkipReason};
use crate::report::types::{
    lemma_names_differ, reason_name, reason_to_snake_case, MutationReport, SkipCounts,
};
use crate::tree::{
    holds, law_texts_are_laid_out_one_for_one, lay_out_texts, lemma_put_is_held, list_view,
    no_entries, pretty, put, table_view, text_views, to_pretty, Tree, TreeView,
};
use vstd::prelude::*;

verus! {

/// A count as a JSON value.
pub open spec fn count_view(n: int) -> TreeView {
    TreeView::Number(n as nat)
}

/// A duration as a JSON value.
pub open spec fn duration_view(d: Duration) -> TreeView {
    TreeView::Table(
        no_entries().push(("secs"@, count_view(d.secs as int))).push(
            ("nanos"@, count_view(d.nanos as int)),
        ),
    )
}

/// A mutant as a JSON value.
pub open spec fn mutant_view(m: Mutant) -> TreeView {
    TreeView::Table(
        no_entries().push(("file_path"@, TreeView::Text(m.file_path@))).push(
            ("line"@, count_view(m.line as int)),
        ).push(("column"@, count_view(m.column as int))).push(
            ("byte_offset"@, count_view(m.byte_offset as int)),
        ).push(("byte_length"@, count_view(m.byte_length as int))).push(
            ("original_text"@, TreeView::Text(m.original_text@)),
        ).push(("mutated_text"@, TreeView::Text(m.mutated_text@))).push(
            ("mutator_name"@, TreeView::Text(m.mutator_name@)),
        ),
    )
}

/// A status as a JSON value: its name, or an object from its name to its
/// details.
pub open spec fn status_view(status: MutantStatus) -> TreeView {
    match status {
        MutantStatus::Killed => TreeView::Text("Killed"@),
        MutantStatus::Survived => TreeView::Text("Survived"@),
        MutantStatus::Timeout => TreeView::Text("Timeout"@),
        MutantStatus::NoCoverage => TreeView::Text("NoCoverage"@),
        MutantStatus::Error(message) => TreeView::Table(
            no_entries().push(("Error"@, TreeView::Text(message@))),
        ),
        MutantStatus::Skipped { reason } => TreeView::Table(
            no_entries().push(
                (
                    "Skipped"@,
                    TreeView::Table(
                        no_entries().push(("reason"@, TreeView::Text(reason_name(reason)))),
                    ),
                ),
            ),
        ),
    }
}

/// A result as a JSON value.
pub open spec fn result_view(result: MutantResult) -> TreeView {
    TreeView::Table(
        no_entries().push(("mutant"@, mutant_view(result.mutant))).push(
            ("status"@, status_view(result.status)),
        ).push(("tests_run"@, TreeView::List(text_views(result.tests_run@)))).push(
            ("duration"@, duration_view(result.duration)),
        ),
    )
}

/// Results as JSON values.
pub open spec fn result_views(results: Seq<MutantResult>) -> Seq<TreeView>
    decreases results.len(),
{
    if results.len() == 0 {
        Seq::empty()
    } else {
        result_views(results.drop_last()).push(result_view(results.last()))
    }
}

/// Entries with one more, unless the count is zero.
pub open spec fn with_count(
    entries: Seq<(Seq<char>, TreeView)>,
    key: Seq<char>,
    n: usize,
) -> Seq<(Seq<char>, TreeView)> {
    if n > 0 {
        entries.push((key, count_view(n as int)))
    } else {
        entries
    }
}

/// The counts of the reasons that occurred as a JSON value.
pub open spec fn skips_view(counts: SkipCounts) -> TreeView {
    TreeView::Table(
        with_count(
            with_count(
                with_count(
                    with_count(no_entries(), "unmappable_target"@, counts.unmappable_target),
                    "condition_mutation"@,
                    counts.condition_mutation,
                ),
                "unsupported_statement"@,
                counts.unsupported_statement,
            ),
            "missing_class_scope"@,
            counts.missing_class_scope,
        ),
    )
}

/// A seed as a JSON value.
pub open spec fn seed_view(seed: Option<u64>) -> TreeView {
    match seed {
        Some(n) => count_view(n as int),
        None => TreeView::Null,
    }
}

/// A report as a JSON value.
pub open spec fn report_view(report: MutationReport) -> TreeView {
    TreeView::Table(
        no_entries().push(("files_scanned"@, count_view(report.files_scanned as int))).push(
            ("mutants_generated"@, count_view(report.mutants_generated as int)),
        ).push(("mutants_tested"@, count_view(report.mutants_tested as int))).push(
            ("no_coverage"@, count_view(report.no_coverage as int)),
        ).push(("killed"@, count_view(report.killed as int))).push(
            ("survived"@, count_view(report.survived as int)),
        ).push(("timeouts"@, count_view(report.timeouts as int))).push(
            ("errors"@, count_view(report.errors as int)),
        ).push(("skipped"@, count_view(report.skipped as int))).push(
            ("skip_reasons"@, skips_view(report.skip_reasons)),
        ).push(("results"@, TreeView::List(result_views(report.results@)))).push(
            ("duration"@, duration_view(report.duration)),
        ).push(("seed"@, seed_view(report.seed))),
    )
}

/// Lays out a duration.
fn lay_out_duration(d: Duration) -> (r: Tree)
    ensures
        r@ == duration_view(d),
{
    let mut entries: Vec<(String, Tree)> = Vec::new();
    put(&mut entries, "secs", Tree::Number(d.secs));
    put(&mut entries, "nanos", Tree::Number(d.nanos as u64));
    Tree::Table(entries)
}

/// Lays out a mutant.
fn lay_out_mutant(m: &Mutant) -> (r: Tree)
    ensures
        r@ == mutant_view(*m),
{
    let mut entries: Vec<(String, Tree)> = Vec::new();
    put(&mut entries, "file_path", Tree::Text(m.file_path.clone()));
    put(&mut entries, "line", Tree::Number(m.line as u64));
    put(&mut entries, "column", Tree::Number(m.column as u64));
    put(&mut entries, "byte_offset", Tree::Number(m.byte_offset as u64));
    put(&mut entries, "byte_length", Tree::Number(m.byte_length as u64));
    put(&mut entries, "original_text", Tree::Text(m.original_text.clone()));
    put(&mut entries, "mutated_text", Tree::Text(m.mutated_text.clone()));
    put(&mut entries, "mutator_name", Tree::Text(m.mutator_name.clone()));
    Tree::Table(entries)
}

/// Lays out a status.
fn lay_out_status(status: &MutantStatus) -> (r: Tree)
    ensures
        r@ == status_view(*status),
{
    let mut entries: Vec<(String, Tree)> = Vec::new();
    match status {
        MutantStatus::Killed => Tree::Text("Killed".to_owned()),
        MutantStatus::Survived => Tree::Text("Survived".to_owned()),
        MutantStatus::Timeout => Tree::Text("Timeout".to_owned()),
        MutantStatus::NoCoverage => Tree::Text("NoCoverage".to_owned()),
        MutantStatus::Error(message) => {
            put(&mut entries, "Error", Tree::Text(message.clone()));
            Tree::Table(entries)
        },
        MutantStatus::Skipped { reason } => {
            let mut details: Vec<(String, Tree)> = Vec::new();
            put(&mut details, "reason", Tree::Text(reason_to_snake_case(reason).to_owned()));
            put(&mut entries, "Skipped", Tree::Table(details));
            Tree::Table(entries)
        },
    }
}

/// Lays out a result.
fn lay_out_result(result: &MutantResult) -> (r: Tree)
    ensures
        r@ == result_view(*result),
{
    let mut entries: Vec<(String, Tree)> = Vec::new();
    put(&mut entries, "mutant", lay_out_mutant(&result.mutant));
    put(&mut entries, "status", lay_out_status(&result.status));
    put(&mut entries, "tests_run", lay_out_texts(&result.tests_run));
    put(&mut entries, "duration", lay_out_duration(result.duration));
    Tree::Table(entries)
}

/// Lays out the results.
fn lay_out_results(results: &Vec<MutantResult>) -> (r: Tree)
    ensures
        r@ == TreeView::List(result_views(results@)),
{
    let mut items: Vec<Tree> = Vec::new();
    let mut i: usize = 0;
    while i < results.len()
        invariant
            i <= results@.len(),
            list_view(items@) == result_views(results@.take(i as int)),
        decreases results.len() - i,
    {
        let ghost before = items@;
        assert(results@.take(i + 1).drop_last() =~= results@.take(i as int));
        items.push(lay_out_result(&results[i]));
        assert(items@.drop_last() =~= before);
        i = i + 1;
    }
    assert(results@.take(i as int) =~= results@);
    Tree::List(items)
}

/// Adds an entry for a count, unless it is zero.
fn put_count(entries: &mut Vec<(String, Tree)>, key: &str, n: usize)
    ensures
        table_view(final(entries)@) == with_count(table_view(old(entries)@), key@, n),
{
    if n > 0 {
        put(entries, key, Tree::Number(n as u64));
    }
}

/// Lays out the counts of the reasons that occurred.
fn lay_out_skips(counts: &SkipCounts) -> (r: Tree)
    ensures
        r@ == skips_view(*counts),
{
    let mut entries: Vec<(String, Tree)> = Vec::new();
    put_count(&mut entries, "unmappable_target", counts.unmappable_target);
    put_count(&mut entries, "condition_mutation", counts.condition_mutation);
    put_count(&mut entries, "unsupported_statement", counts.unsupported_statement);
    put_count(&mut entries, "missing_class_scope", counts.missing_class_scope);
    Tree::Table(entries)
}

/// Lay a [`MutationReport`] out as a JSON value.
pub fn lay_out_report(report: &MutationReport) -> (r: Tree)
    ensures
        r@ == report_view(*report),
{
    let mut entries: Vec<(String, Tree)> = Vec::new();
    put(&mut entries, "files_scanned", Tree::Number(report.files_scanned as u64));
    put(&mut entries, "mutants_generated", Tree::Number(report.mutants_generated as u64));
    put(&mut entries, "mutants_tested", Tree::Number(report.mutants_tested as u64));
    put(&mut entries, "no_coverage", Tree::Number(report.no_coverage as u64));
    put(&mut entries, "killed", Tree::Number(report.killed as u64));
    put(&mut entries, "survived", Tree::Number(report.survived as u64));
    put(&mut entries, "timeouts", Tree::Number(report.timeouts as u64));
    put(&mut entries, "errors", Tree::Number(report.errors as u64));
    put(&mut entries, "skipped", Tree::Number(report.skipped as u64));
    put(&mut entries, "skip_reasons", lay_out_skips(&report.skip_reasons));
    put(&mut entries, "results", lay_out_results(&report.results));
    put(&mut entries, "duration", lay_out_duration(report.duration));
    let seed: Tree = match report.seed {
        Some(n) => Tree::Number(n),
        None => Tree::Null,
    };
    put(&mut entries, "seed", seed);
    Tree::Table(entries)
}

/// Serialize a [`MutationReport`] to a pretty-printed JSON string.
pub fn format_json(report: &MutationReport) -> (r: Result<String, Error>)
    ensures
        r matches Ok(text) && text@ == pretty(report_view(*report)),
{
    match to_pretty(&lay_out_report(report)) {
        Ok(text) => Ok(text),
        Err(problem) => {
            let mut message: String = "failed to serialize report to JSON: ".to_owned();
            message.append(problem.as_str());
            Err(Error::Report(message))
        },
    }
}

/// The report holds every count of the run under its own key, and nothing else
/// but the reasons, the results, the time and the seed.
pub proof fn law_reports_hold_the_run(report: MutationReport)
    ensures
        holds(report_view(report), "files_scanned"@, TreeView::Number(report.files_scanned as nat)),
        holds(report_view(report), "mutants_generated"@, TreeView::Number(report.mutants_generated as nat)),
        holds(report_view(report), "mutants_tested"@, TreeView::Number(report.mutants_tested as nat)),
        holds(report_view(report), "no_coverage"@, TreeView::Number(report.no_coverage as nat)),
        holds(report_view(report), "killed"@, TreeView::Number(report.killed as nat)),
        holds(report_view(report), "survived"@, TreeView::Number(report.survived as nat)),
        holds(report_view(report), "timeouts"@, TreeView::Number(report.timeouts as nat)),
        holds(report_view(report), "errors"@, TreeView::Number(report.errors as nat)),
        holds(report_view(report), "skipped"@, TreeView::Number(report.skipped as nat)),
        holds(report_view(report), "skip_reasons"@, skips_view(report.skip_reasons)),
        holds(
            report_view(report),
            "results"@,
            TreeView::List(report.results@.map_values(|r: MutantResult| result_view(r))),
        ),
        holds(report_view(report), "duration"@, duration_view(report.duration)),
        report.seed matches Some(n) ==> holds(
            report_view(report),
            "seed"@,
            TreeView::Number(n as nat),
        ),
        report.seed is None ==> holds(report_view(report), "seed"@, TreeView::Null),
        report_view(report)->Table_0.len() == 13,
{
    broadcast use lemma_put_is_held;

    law_results_are_laid_out_one_for_one(report.results@);
}

/// Results are laid out one for one, in their order.
pub proof fn law_results_are_laid_out_one_for_one(results: Seq<MutantResult>)
    ensures
        result_views(results) == results.map_values(|r: MutantResult| result_view(r)),
    decreases results.len(),
{
    if results.len() > 0 {
        law_results_are_laid_out_one_for_one(results.drop_last());
        assert(result_views(results) =~= results.map_values(|r: MutantResult| result_view(r)));
    }
}

/// A result holds its mutant, its outcome, the tests that were run, in their
/// order, and the time that they took.
pub proof fn law_results_hold_what_was_run(result: MutantResult)
    ensures
        holds(result_view(result), "mutant"@, mutant_view(result.mutant)),
        holds(result_view(result), "status"@, status_view(result.status)),
        holds(
            result_view(result),
            "tests_run"@,
            TreeView::List(result.tests_run@.map_values(|t: String| TreeView::Text(t@))),
        ),
        holds(result_view(result), "duration"@, duration_view(result.duration)),
        holds(
            duration_view(result.duration),
            "secs"@,
            TreeView::Number(result.duration.secs as nat),
        ),
        holds(
            duration_view(result.duration),
            "nanos"@,
            TreeView::Number(result.duration.nanos as nat),
        ),
        result_view(result)->Table_0.len() == 4,
        duration_view(result.duration)->Table_0.len() == 2,
{
    broadcast use lemma_put_is_held;

    law_texts_are_laid_out_one_for_one(result.tests_run@);
}

/// A mutant holds its place, its texts and its operator.
pub proof fn law_mutants_hold_their_place(m: Mutant)
    ensures
        holds(mutant_view(m), "file_path"@, TreeView::Text(m.file_path@)),
        holds(mutant_view(m), "line"@, TreeView::Number(m.line as nat)),
        holds(mutant_view(m), "column"@, TreeView::Number(m.column as nat)),
        holds(mutant_view(m), "byte_offset"@, TreeView::Number(m.byte_offset as nat)),
        holds(mutant_view(m), "byte_length"@, TreeView::Number(m.byte_length as nat)),
        holds(mutant_view(m), "original_text"@, TreeView::Text(m.original_text@)),
        holds(mutant_view(m), "mutated_text"@, TreeView::Text(m.mutated_text@)),
        holds(mutant_view(m), "mutator_name"@, TreeView::Text(m.mutator_name@)),
        mutant_view(m)->Table_0.len() == 8,
{
    broadcast use lemma_put_is_held;

}

/// An outcome is its name, an error its message under its name, and a skip its
/// reason.
pub proof fn law_outcomes_are_named(message: String, reason: SkipReason)
    ensures
        status_view(MutantStatus::Killed) == TreeView::Text("Killed"@),
        status_view(MutantStatus::Survived) == TreeView::Text("Survived"@),
        status_view(MutantStatus::Timeout) == TreeView::Text("Timeout"@),
        status_view(MutantStatus::NoCoverage) == TreeView::Text("NoCoverage"@),
        holds(status_view(MutantStatus::Error(message)), "Error"@, TreeView::Text(message@)),
        exists|inner: TreeView|
            {
                &&& #[trigger] holds(
                    status_view(MutantStatus::Skipped { reason }),
                    "Skipped"@,
                    inner,
                )
                &&& holds(inner, "reason"@, TreeView::Text(reason_name(reason)))
            },
{
    broadcast use lemma_put_is_held;

    let inner = TreeView::Table(
        no_entries().push(("reason"@, TreeView::Text(reason_name(reason)))),
    );
    assert(holds(status_view(MutantStatus::Skipped { reason }), "Skipped"@, inner));
    assert(holds(inner, "reason"@, TreeView::Text(reason_name(reason))));
}

/// The reasons hold the count of each reason under its name, unless it is zero.
pub proof fn law_reasons_hold_their_counts(counts: SkipCounts, reason: SkipReason, value: TreeView)
    ensures
        holds(skips_view(counts), reason_name(reason), value) <==> counts.count(reason) > 0
            && value == TreeView::Number(counts.count(reason) as nat),
{
    broadcast use lemma_put_is_held;

    lemma_names_differ();
    let a = with_count(no_entries(), "unmappable_target"@, counts.unmappable_target);
    let b = with_count(a, "condition_mutation"@, counts.condition_mutation);
    let c = with_count(b, "unsupported_statement"@, counts.unsupported_statement);
    let d = with_count(c, "missing_class_scope"@, counts.missing_class_scope);
    assert(skips_view(counts) == TreeView::Table(d));
    assert(reason_name(SkipReason::UnmappableTarget) == "unmappable_target"@);
    assert(reason_name(SkipReason::ConditionMutation) == "condition_mutation"@);
    assert(reason_name(SkipReason::UnsupportedStatement) == "unsupported_statement"@);
    assert(reason_name(SkipReason::MissingClassScope) == "missing_class_scope"@);
    let key = reason_name(reason);
    if counts.count(reason) > 0 {
        assert(d.contains((key, TreeView::Number(counts.count(reason) as nat))));
    }
    if d.contains((key, value)) {
        let i = choose|i: int| 0 <= i < d.len() && d[i] == (key, value);
        lemma_counts_are_own(counts, i);
    }
}

proof fn lemma_counts_are_own(counts: SkipCounts, i: int)
    requires
        0 <= i < skips_view(counts)->Table_0.len(),
    ensures
        ({
            let entry = skips_view(counts)->Table_0[i];
            exists|reason: SkipReason|
                entry.0 == #[trigger] reason_name(reason) && counts.count(reason) > 0 && entry.1
                    == TreeView::Number(counts.count(reason) as nat)
        }),
{
    let a = with_count(no_entries(), "unmappable_target"@, counts.unmappable_target);
    let b = with_count(a, "condition_mutation"@, counts.condition_mutation);
    let c = with_count(b, "unsupported_statement"@, counts.unsupported_statement);
    let d = with_count(c, "missing_class_scope"@, counts.missing_class_scope);
    assert(skips_view(counts) == TreeView::Table(d));
    if i < a.len() {
        assert(d[i] == a[i]);
        assert(reason_name(SkipReason::UnmappableTarget) == "unmappable_target"@);
    } else if i < b.len() {
        assert(d[i] == b[i]);
        assert(reason_name(SkipReason::ConditionMutation) == "condition_mutation"@);
    } else if i < c.len() {
        assert(d[i] == c[i]);
        assert(reason_name(SkipReason::UnsupportedStatement) == "unsupported_statement"@);
    } else {
        assert(reason_name(SkipReason::MissingClassScope) == "missing_class_scope"@);
    }
}

} // verus!
