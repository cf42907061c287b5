//! Plain-text report formatter for terminal output.
//!
//! Produces a human-readable summary of the mutation-testing run including
//! overall statistics and a listing of survived mutants.
use crate::decimal;
use crate::double;
use crate::double::Double;
use crate::error::Error;
use crate::mutation::mutant::{MutantResult, MutantStatus};
use crate::progress::style;
use crate::report::types::MutationReport;
use crate::text::{lemma_shown_in_both, lemma_shown_within, lemma_shows, shows};
use vstd::prelude::*;

verus! {

/// A seed in brackets, and nothing where there is none.
pub open spec fn seed_suffix(seed: Option<u64>) -> Seq<char> {
    match seed {
        Some(n) => " (seed: "@ + decimal::decimal(n as int) + ")"@,
        None => ""@,
    }
}

/// A seed in brackets, and nothing where there is none.
pub(crate) fn format_seed_suffix(seed: Option<u64>) -> (r: String)
    ensures
        r@ == seed_suffix(seed),
{
    match seed {
        Some(n) => {
            let mut out: String = " (seed: ".to_owned();
            out.append(decimal::decimal_u64(n).as_str());
            out.append(")");
            out
        },
        None => "".to_owned(),
    }
}

/// The report header.
pub open spec fn header_text(seed: Option<u64>) -> Seq<char> {
    "fest mutation testing report"@ + seed_suffix(seed) + "\n----------------------------\n"@
}

/// A line with a label and a count.
pub open spec fn count_line(label: Seq<char>, n: int) -> Seq<char> {
    label + decimal::decimal(n) + "\n"@
}

/// A line with a label, a count and a percentage.
pub open spec fn share_line(label: Seq<char>, n: int, share: Seq<char>) -> Seq<char> {
    label + decimal::decimal(n) + "  ("@ + share + ")\n"@
}

/// The complement of the score: the share of the scored mutants, killed or
/// survived, that survived.
pub open spec fn survived_share(report: MutationReport) -> Double {
    Double {
        bits: double::percent_bits(
            report.survived as nat,
            (report.killed + report.survived) as nat,
        ) as u64,
    }
}

/// The line with the number of tested mutants.
pub open spec fn tested_line(report: MutationReport) -> Seq<char> {
    "Mutants tested:     "@ + decimal::decimal(report.mutants_tested as int) + (
    if report.no_coverage > 0 {
        "  ("@ + decimal::decimal(report.no_coverage as int) + " no coverage)\n"@
    } else {
        "\n"@
    })
}

/// The line with the seed, and nothing where there is none.
pub open spec fn seed_line(seed: Option<u64>) -> Seq<char> {
    match seed {
        Some(n) => count_line("Seed:               "@, n as int),
        None => ""@,
    }
}

/// Aggregate statistics.
pub open spec fn statistics_text(report: MutationReport, colored: bool) -> Seq<char> {
    count_line("Files scanned:      "@, report.files_scanned as int) + count_line(
        "Mutants generated:  "@,
        report.mutants_generated as int,
    ) + tested_line(report) + share_line(
        "Killed:             "@,
        report.killed as int,
        style::shown_score(
            report.score().one_decimal_text() + "%"@,
            report.score(),
            colored,
        ),
    ) + share_line(
        "Survived:           "@,
        report.survived as int,
        survived_share(report).one_decimal_text() + "%"@,
    ) + count_line("Timeout:            "@, report.timeouts as int) + count_line(
        "Errors:             "@,
        report.errors as int,
    ) + seed_line(report.seed)
}

/// The line for one survived mutant.
pub open spec fn survivor_line(result: MutantResult) -> Seq<char> {
    "  "@ + result.mutant.file_path@ + ":"@ + decimal::decimal(result.mutant.line as int) + "    "@
        + result.mutant.mutator_name@ + "    `"@ + result.mutant.original_text@ + "` -> `"@
        + result.mutant.mutated_text@ + "`\n"@
}

/// The lines for the survived mutants among results, in their order.
pub open spec fn survivor_lines(results: Seq<MutantResult>) -> Seq<char>
    decreases results.len(),
{
    if results.len() == 0 {
        Seq::empty()
    } else {
        survivor_lines(results.drop_last()) + if results.last().status is Survived {
            survivor_line(results.last())
        } else {
            Seq::empty()
        }
    }
}

/// Whether a mutant among the results survived.
pub open spec fn any_survived(results: Seq<MutantResult>) -> bool {
    exists|i: int| 0 <= i < results.len() && (#[trigger] results[i]).status is Survived
}

/// The listing of survived mutants, and nothing where there is none.
pub open spec fn survivors_text(results: Seq<MutantResult>) -> Seq<char> {
    if any_survived(results) {
        "\nSurvived mutants:\n"@ + survivor_lines(results)
    } else {
        Seq::empty()
    }
}

/// The report without the listing of survived mutants.
pub open spec fn brief_text(report: MutationReport, colored: bool) -> Seq<char> {
    header_text(report.seed) + statistics_text(report, colored)
}

/// The whole report.
pub open spec fn report_text(report: MutationReport, colored: bool) -> Seq<char> {
    brief_text(report, colored) + survivors_text(report.results@)
}

/// Format a [`MutationReport`] as a plain-text summary string.
///
/// The output has a header, aggregate statistics, and a listing of
/// any mutants that survived (i.e. were not detected by the test suite).
/// With `colored`, the score is colored by how high it is.
pub fn format_text(report: &MutationReport, colored: bool) -> (r: Result<String, Error>)
    requires
        report.is_countable(),
    ensures
        r matches Ok(text) && text@ == report_text(*report, colored),
{
    let mut output: String = format_brief(report, colored);
    output.append(survivors(&report.results).as_str());
    Ok(output)
}

/// Format a [`MutationReport`] without the listing of survived mutants.
pub fn format_brief(report: &MutationReport, colored: bool) -> (r: String)
    requires
        report.is_countable(),
    ensures
        r@ == brief_text(*report, colored),
{
    let mut output: String = header(report.seed);
    output.append(statistics(report, colored).as_str());
    output
}

/// The report header.
fn header(seed: Option<u64>) -> (r: String)
    ensures
        r@ == header_text(seed),
{
    let mut out: String = "fest mutation testing report".to_owned();
    out.append(format_seed_suffix(seed).as_str());
    out.append("\n----------------------------\n");
    out
}

/// A line with a label and a count.
fn write_count(label: &str, n: u64) -> (r: String)
    ensures
        r@ == count_line(label@, n as int),
{
    let mut out: String = label.to_owned();
    out.append(decimal::decimal_u64(n).as_str());
    out.append("\n");
    out
}

/// A line with a label, a count and a percentage.
fn write_share(label: &str, n: usize, share: &str) -> (r: String)
    ensures
        r@ == share_line(label@, n as int, share@),
{
    let mut out: String = label.to_owned();
    out.append(decimal::decimal_usize(n).as_str());
    out.append("  (");
    out.append(share);
    out.append(")\n");
    out
}

/// The line with the number of tested mutants.
fn write_tested(report: &MutationReport) -> (r: String)
    ensures
        r@ == tested_line(*report),
{
    let mut end: String = String::new();
    if report.no_coverage > 0 {
        end = "  (".to_owned();
        end.append(decimal::decimal_usize(report.no_coverage).as_str());
        end.append(" no coverage)\n");
    } else {
        end = "\n".to_owned();
    }
    let mut out: String = "Mutants tested:     ".to_owned();
    out.append(decimal::decimal_usize(report.mutants_tested).as_str());
    out.append(end.as_str());
    out
}

/// Aggregate statistics.
fn statistics(report: &MutationReport, colored: bool) -> (r: String)
    requires
        report.is_countable(),
    ensures
        r@ == statistics_text(*report, colored),
{
    let score: Double = report.mutation_score();
    let mut score_text: String = score.one_decimal();
    score_text.append("%");
    let survived: Double = double::percent(report.survived, report.killed + report.survived);
    let mut survived_text: String = survived.one_decimal();
    survived_text.append("%");
    assert(survived == survived_share(*report));
    let mut out: String = write_count("Files scanned:      ", report.files_scanned as u64);
    out.append(write_count("Mutants generated:  ", report.mutants_generated as u64).as_str());
    out.append(write_tested(report).as_str());
    let shown: String = style::styled_score(score_text.as_str(), score, colored);
    out.append(write_share("Killed:             ", report.killed, shown.as_str()).as_str());
    out.append(
        write_share("Survived:           ", report.survived, survived_text.as_str()).as_str(),
    );
    out.append(write_count("Timeout:            ", report.timeouts as u64).as_str());
    out.append(write_count("Errors:             ", report.errors as u64).as_str());
    match report.seed {
        Some(n) => out.append(write_count("Seed:               ", n).as_str()),
        None => out.append(""),
    }
    out
}

/// The line for one survived mutant.
fn write_survivor(result: &MutantResult) -> (r: String)
    ensures
        r@ == survivor_line(*result),
{
    let mut out: String = "  ".to_owned();
    out.append(result.mutant.file_path.as_str());
    out.append(":");
    out.append(decimal::decimal_u64(result.mutant.line as u64).as_str());
    out.append("    ");
    out.append(result.mutant.mutator_name.as_str());
    out.append("    `");
    out.append(result.mutant.original_text.as_str());
    out.append("` -> `");
    out.append(result.mutant.mutated_text.as_str());
    out.append("`\n");
    out
}

/// The listing of survived mutants.
fn survivors(results: &Vec<MutantResult>) -> (r: String)
    ensures
        r@ == survivors_text(results@),
{
    let mut lines: String = String::new();
    let mut any: bool = false;
    let mut i: usize = 0;
    while i < results.len()
        invariant
            i <= results@.len(),
            any == any_survived(results@.take(i as int)),
            lines@ == survivor_lines(results@.take(i as int)),
        decreases results.len() - i,
    {
        let ghost next = results@.take(i + 1);
        assert(next.drop_last() =~= results@.take(i as int));
        assert(next.last() == results@[i as int]);
        assert(forall|j: int| 0 <= j < i ==> next[j] == #[trigger] results@.take(i as int)[j]);
        assert(forall|j: int| 0 <= j < i ==> #[trigger] next[j] == results@.take(i as int)[j]);
        if matches!(results[i].status, MutantStatus::Survived) {
            any = true;
            assert(next[i as int].status is Survived);
            lines.append(write_survivor(&results[i]).as_str());
        }
        i = i + 1;
    }
    assert(results@.take(i as int) =~= results@);
    let mut out: String = String::new();
    if any {
        out.append("\nSurvived mutants:\n");
        out.append(lines.as_str());
    }
    out
}

/// The listing of the survivors of two runs, one after the other, is that of the
/// first followed by that of the second.
pub proof fn law_survivors_are_listed_in_order(a: Seq<MutantResult>, b: Seq<MutantResult>)
    ensures
        survivor_lines(a + b) == survivor_lines(a) + survivor_lines(b),
    decreases b.len(),
{
    if b.len() == 0 {
        assert(a + b =~= a);
    } else {
        law_survivors_are_listed_in_order(a, b.drop_last());
        assert((a + b).drop_last() =~= a + b.drop_last());
        assert((a + b).last() == b.last());
        assert(survivor_lines(a + b) =~= survivor_lines(a) + survivor_lines(b));
    }
}

/// One result is listed if it survived, and not otherwise.
pub proof fn law_one_result_is_listed_if_it_survived(r: MutantResult)
    ensures
        r.status is Survived ==> survivor_lines(seq![r]) == survivor_line(r),
        r.status !is Survived ==> survivor_lines(seq![r]) == Seq::<char>::empty(),
{
    let one = seq![r];
    assert(one.drop_last() =~= Seq::<MutantResult>::empty());
    assert(survivor_lines(one.drop_last()) =~= Seq::<char>::empty());
    assert(one.last() == r);
    assert(survivor_lines(one) =~= if r.status is Survived {
        survivor_line(r)
    } else {
        Seq::<char>::empty()
    });
}

/// Every survivor has its line in the listing, behind those of the survivors
/// before it. Without one there is no listing.
pub proof fn law_every_survivor_is_listed(results: Seq<MutantResult>, i: int)
    requires
        0 <= i < results.len(),
        results[i].status is Survived,
    ensures
        survivors_text(results) == "\nSurvived mutants:\n"@ + survivor_lines(results.take(i))
            + survivor_line(results[i]) + survivor_lines(results.skip(i + 1)),
        forall|others: Seq<MutantResult>|
            (forall|j: int| 0 <= j < others.len() ==> (#[trigger] others[j]).status !is Survived)
                ==> #[trigger] survivors_text(others) == Seq::<char>::empty(),
{
    let before = results.take(i);
    let one = seq![results[i]];
    let rest = results.skip(i + 1);
    assert(before + one + rest =~= results);
    law_survivors_are_listed_in_order(before + one, rest);
    law_survivors_are_listed_in_order(before, one);
    law_one_result_is_listed_if_it_survived(results[i]);
    assert(any_survived(results));
    assert(survivors_text(results) =~= "\nSurvived mutants:\n"@ + survivor_lines(before)
        + survivor_line(results[i]) + survivor_lines(rest));
}

/// A survivor is shown with its place, its operator, and its text before and
/// after, in this order.
pub proof fn law_survivor_lines_show_the_mutant(result: MutantResult)
    ensures
        ({
            let place = "  "@ + result.mutant.file_path@ + ":"@ + decimal::decimal(
                result.mutant.line as int,
            );
            let change = "    "@ + result.mutant.mutator_name@ + "    `"@
                + result.mutant.original_text@ + "` -> `"@ + result.mutant.mutated_text@
                + "`\n"@;
            survivor_line(result) == place + change
        }),
{
    let place = "  "@ + result.mutant.file_path@ + ":"@ + decimal::decimal(
        result.mutant.line as int,
    );
    let change = "    "@ + result.mutant.mutator_name@ + "    `"@ + result.mutant.original_text@
        + "` -> `"@ + result.mutant.mutated_text@ + "`\n"@;
    assert(survivor_line(result) =~= place + change);
}

/// Whether a report shows a count on a line of its own.
pub open spec fn shows_line(
    report: MutationReport,
    colored: bool,
    label: Seq<char>,
    n: int,
) -> bool {
    shows(brief_text(report, colored), label + decimal::decimal(n) + "\n"@)
}

/// A report shows every count of the run under its own label, with and without
/// the survivors.
pub proof fn law_reports_show_the_counts(report: MutationReport, colored: bool)
    ensures
        shows_line(report, colored, "Files scanned:      "@, report.files_scanned as int),
        shows_line(report, colored, "Mutants generated:  "@, report.mutants_generated as int),
        report.no_coverage == 0 ==> shows_line(
            report,
            colored,
            "Mutants tested:     "@,
            report.mutants_tested as int,
        ),
        shows_line(report, colored, "Timeout:            "@, report.timeouts as int),
        shows_line(report, colored, "Errors:             "@, report.errors as int),
        report.seed matches Some(n) ==> shows_line(
            report,
            colored,
            "Seed:               "@,
            n as int,
        ),
        shows(report_text(report, colored), brief_text(report, colored)),
{
    broadcast use lemma_shown_in_both;

    let stats = statistics_text(report, colored);
    let brief = brief_text(report, colored);
    assert(shows(brief, stats));
    let a = "Files scanned:      "@ + decimal::decimal(report.files_scanned as int) + "\n"@;
    let b = "Mutants generated:  "@ + decimal::decimal(report.mutants_generated as int) + "\n"@;
    let c = "Mutants tested:     "@ + decimal::decimal(report.mutants_tested as int) + "\n"@;
    let d = "Timeout:            "@ + decimal::decimal(report.timeouts as int) + "\n"@;
    let e = "Errors:             "@ + decimal::decimal(report.errors as int) + "\n"@;
    lemma_shows(a, Seq::empty(), a, Seq::empty());
    assert(shows(stats, a));
    assert(shows(stats, b));
    assert(shows(stats, d));
    assert(shows(stats, e));
    lemma_shown_within(brief, stats, a);
    lemma_shown_within(brief, stats, b);
    lemma_shown_within(brief, stats, d);
    lemma_shown_within(brief, stats, e);
    if report.no_coverage == 0 {
        assert(tested_line(report) =~= c);
        assert(shows(stats, c));
        lemma_shown_within(brief, stats, c);
    }
    if let Some(n) = report.seed {
        let f = "Seed:               "@ + decimal::decimal(n as int) + "\n"@;
        assert(shows(stats, f));
        lemma_shown_within(brief, stats, f);
    }
    lemma_shows(report_text(report, colored), Seq::empty(), brief, survivors_text(report.results@));
}

/// A report shows how many mutants were killed and survived, each with its
/// share, and how many were not covered if any.
pub proof fn law_reports_show_the_shares(report: MutationReport)
    ensures
        shows(
            brief_text(report, false),
            "Killed:             "@ + decimal::decimal(report.killed as int) + "  ("@
                + report.score().one_decimal_text() + "%)\n"@,
        ),
        shows(
            brief_text(report, false),
            "Survived:           "@ + decimal::decimal(report.survived as int) + "  ("@
                + survived_share(report).one_decimal_text() + "%)\n"@,
        ),
        report.no_coverage > 0 ==> shows(
            brief_text(report, false),
            "Mutants tested:     "@ + decimal::decimal(report.mutants_tested as int) + "  ("@
                + decimal::decimal(report.no_coverage as int) + " no coverage)\n"@,
        ),
{
    broadcast use lemma_shown_in_both;

    reveal_strlit("%");
    reveal_strlit(")\n");
    reveal_strlit("%)\n");
    assert("%"@ + ")\n"@ =~= "%)\n"@);
    let stats = statistics_text(report, false);
    let brief = brief_text(report, false);
    assert(shows(brief, stats));
    let score = report.score().one_decimal_text();
    let share = survived_share(report).one_decimal_text();
    let a = "Killed:             "@ + decimal::decimal(report.killed as int) + "  ("@ + score
        + "%)\n"@;
    let b = "Survived:           "@ + decimal::decimal(report.survived as int) + "  ("@ + share
        + "%)\n"@;
    assert(share_line("Killed:             "@, report.killed as int, score + "%"@) =~= a);
    assert(share_line("Survived:           "@, report.survived as int, share + "%"@) =~= b);
    assert(shows(stats, a));
    assert(shows(stats, b));
    lemma_shown_within(brief, stats, a);
    lemma_shown_within(brief, stats, b);
    if report.no_coverage > 0 {
        let c = "Mutants tested:     "@ + decimal::decimal(report.mutants_tested as int) + "  ("@
            + decimal::decimal(report.no_coverage as int) + " no coverage)\n"@;
        assert(tested_line(report) =~= c);
        assert(shows(stats, c));
        lemma_shown_within(brief, stats, c);
    }
}

/// The seed is shown behind the title where there is one.
pub proof fn law_titles_show_the_seed(n: u64)
    ensures
        seed_suffix(Some(n)) == " (seed: "@ + decimal::decimal(n as int) + ")"@,
        seed_suffix(None).len() == 0,
        header_text(Some(n)) == "fest mutation testing report"@ + seed_suffix(Some(n))
            + "\n----------------------------\n"@,
{
    reveal_strlit("");
}

} // verus!
