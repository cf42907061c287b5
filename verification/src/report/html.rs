//! HTML report formatter with source-annotated output.
//!
//! Generates a self-contained HTML document (all CSS inline) that shows a
//! summary section and per-file views with line-by-line annotations colored
//! by mutation status.
use crate::decimal;
use crate::double::Double;
use crate::error::Error;
use crate::mutation::mutant::{MutantResult, MutantStatus};
use crate::order;
use crate::order::SortKey;
use crate::paths;
use crate::report::text;
use crate::report::types::MutationReport;
use crate::text::{around, lemma_shown_in_both, lemma_shown_within, lemma_shows, shows};
use vstd::prelude::*;

verus! {

/// The CSS rule definitions.
pub const CSS: &'static str = "body { font-family: monospace; margin: 0; padding: 20px; \
background: #f5f5f5; }\n\
.container { max-width: 1200px; margin: 0 auto; }\n\
h1 { color: #333; }\n\
h2 { color: #555; margin-top: 30px; }\n\
.summary { background: #fff; padding: 15px; border-radius: 5px; margin-bottom: 20px; }\n\
.summary td { padding: 2px 10px; }\n\
.file-section { background: #fff; padding: 15px; border-radius: 5px; margin-bottom: 20px; }\n\
.line { white-space: pre; }\n\
.line-num { display: inline-block; width: 50px; text-align: right; padding-right: 10px; \
color: #999; user-select: none; }\n\
.killed { background-color: #d4edda; }\n\
.survived { background-color: #f8d7da; }\n\
.no-coverage { background-color: #e2e3e5; }\n\
.mutation-detail { padding-left: 70px; font-size: 0.9em; color: #555; \
border-left: 3px solid #ccc; margin-left: 50px; }\n\
.status-killed { color: #155724; }\n\
.status-survived { color: #721c24; }\n\
.status-timeout { color: #856404; }\n\
.status-no-coverage { color: #383d41; }\n\
.status-error { color: #721c24; font-style: italic; }\n";

/// What stands for a character in the document.
pub open spec fn entity(c: char) -> Seq<char> {
    if c == '&' {
        "&amp;"@
    } else if c == '<' {
        "&lt;"@
    } else if c == '>' {
        "&gt;"@
    } else if c == '"' {
        "&quot;"@
    } else if c == '\'' {
        "&#39;"@
    } else {
        seq![c]
    }
}

/// A text with the HTML special characters replaced by their entities.
pub open spec fn escaped(text: Seq<char>) -> Seq<char>
    decreases text.len(),
{
    if text.len() == 0 {
        Seq::empty()
    } else {
        escaped(text.drop_last()) + entity(text.last())
    }
}

/// Whether a character could open or close a tag or an attribute.
pub open spec fn is_markup(c: char) -> bool {
    c == '<' || c == '>' || c == '"' || c == '\''
}

/// No markup is left in an escaped text.
pub proof fn law_escaped_text_has_no_markup(text: Seq<char>)
    ensures
        forall|i: int| 0 <= i < escaped(text).len() ==> !is_markup(#[trigger] escaped(text)[i]),
    decreases text.len(),
{
    if text.len() > 0 {
        law_escaped_text_has_no_markup(text.drop_last());
        reveal_strlit("&amp;");
        reveal_strlit("&lt;");
        reveal_strlit("&gt;");
        reveal_strlit("&quot;");
        reveal_strlit("&#39;");
        let head = escaped(text.drop_last());
        let tail = entity(text.last());
        assert(forall|i: int| 0 <= i < tail.len() ==> !is_markup(#[trigger] tail[i]));
        assert forall|i: int| 0 <= i < escaped(text).len() implies !is_markup(
            #[trigger] escaped(text)[i],
        ) by {
            if i < head.len() {
                assert(escaped(text)[i] == head[i]);
            } else {
                assert(escaped(text)[i] == tail[i - head.len()]);
            }
        }
    }
}

/// Escaping goes over concatenation.
pub proof fn law_escaping_goes_over_concatenation(a: Seq<char>, b: Seq<char>)
    ensures
        escaped(a + b) == escaped(a) + escaped(b),
    decreases b.len(),
{
    if b.len() == 0 {
        assert(a + b =~= a);
        assert(escaped(a) + escaped(b) =~= escaped(a));
    } else {
        assert((a + b).drop_last() =~= a + b.drop_last());
        law_escaping_goes_over_concatenation(a, b.drop_last());
        assert(escaped(a) + (escaped(b.drop_last()) + entity(b.last())) =~= (escaped(a) + escaped(
            b.drop_last(),
        )) + entity(b.last()));
    }
}

/// A text without special characters comes back unchanged.
pub proof fn law_plain_text_is_kept(text: Seq<char>)
    requires
        forall|i: int| 0 <= i < text.len() ==> #[trigger] text[i] != '&' && !is_markup(text[i]),
    ensures
        escaped(text) == text,
    decreases text.len(),
{
    if text.len() > 0 {
        let init = text.drop_last();
        assert forall|i: int| 0 <= i < init.len() implies #[trigger] init[i] != '&' && !is_markup(
            init[i],
        ) by {
            assert(init[i] == text[i]);
        }
        law_plain_text_is_kept(init);
        assert(text[text.len() - 1] != '&');
        assert(init + seq![text.last()] =~= text);
    } else {
        assert(escaped(text) =~= text);
    }
}

/// Whether a text starts with another one.
pub open spec fn starts_with(text: Seq<char>, prefix: Seq<char>) -> bool {
    prefix.len() <= text.len() && text.take(prefix.len() as int) == prefix
}

/// The character whose entity a text starts with, if it starts with one.
pub open spec fn entity_at_start(text: Seq<char>) -> Option<char> {
    if starts_with(text, "&amp;"@) {
        Some('&')
    } else if starts_with(text, "&lt;"@) {
        Some('<')
    } else if starts_with(text, "&gt;"@) {
        Some('>')
    } else if starts_with(text, "&quot;"@) {
        Some('"')
    } else if starts_with(text, "&#39;"@) {
        Some('\'')
    } else {
        None
    }
}

/// A text with the entities of the special characters replaced by the
/// characters, in one pass from left to right.
pub open spec fn unescaped(text: Seq<char>) -> Seq<char>
    decreases text.len(),
{
    if text.len() == 0 {
        Seq::empty()
    } else {
        match entity_at_start(text) {
            Some(c) => if entity(c).len() > 0 {
                seq![c] + unescaped(text.skip(entity(c).len() as int))
            } else {
                Seq::empty()
            },
            None => seq![text[0]] + unescaped(text.skip(1)),
        }
    }
}

/// An entity is read back as its character, whatever follows it.
proof fn lemma_entity_is_read_back(c: char, rest: Seq<char>)
    ensures
        unescaped(entity(c) + rest) == seq![c] + unescaped(rest),
{
    reveal_strlit("&amp;");
    reveal_strlit("&lt;");
    reveal_strlit("&gt;");
    reveal_strlit("&quot;");
    reveal_strlit("&#39;");
    let whole = entity(c) + rest;
    let n = entity(c).len() as int;
    assert(whole.take(n) =~= entity(c));
    assert(whole.skip(n) =~= rest);
    assert(whole[0] == entity(c)[0]);
    if c == '&' || is_markup(c) {
        assert(whole[1] == entity(c)[1]);
        assert(starts_with(whole, entity(c)));
        assert(starts_with(whole, "&amp;"@) ==> whole.take(5)[1] == 'a');
        assert(starts_with(whole, "&lt;"@) ==> whole.take(4)[1] == 'l');
        assert(starts_with(whole, "&gt;"@) ==> whole.take(4)[1] == 'g');
        assert(starts_with(whole, "&quot;"@) ==> whole.take(6)[1] == 'q');
        assert(starts_with(whole, "&#39;"@) ==> whole.take(5)[1] == '#');
        assert(entity_at_start(whole) == Some(c));
    } else {
        assert(starts_with(whole, "&amp;"@) ==> whole.take(5)[0] == '&');
        assert(starts_with(whole, "&lt;"@) ==> whole.take(4)[0] == '&');
        assert(starts_with(whole, "&gt;"@) ==> whole.take(4)[0] == '&');
        assert(starts_with(whole, "&quot;"@) ==> whole.take(6)[0] == '&');
        assert(starts_with(whole, "&#39;"@) ==> whole.take(5)[0] == '&');
        assert(entity_at_start(whole) is None);
    }
}

/// Escaping is undone by replacing the entities in one pass from left to
/// right.
pub proof fn law_escaping_is_undone(text: Seq<char>)
    ensures
        unescaped(escaped(text)) == text,
    decreases text.len(),
{
    if text.len() > 0 {
        let first = text.take(1);
        let rest = text.skip(1);
        assert(first + rest =~= text);
        law_escaping_goes_over_concatenation(first, rest);
        assert(first.drop_last() =~= Seq::empty());
        assert(escaped(first.drop_last()) =~= Seq::empty());
        assert(first.last() == text[0]);
        assert(escaped(first) =~= entity(text[0]));
        lemma_entity_is_read_back(text[0], escaped(rest));
        law_escaping_is_undone(rest);
        assert(seq![text[0]] + rest =~= text);
    } else {
        assert(unescaped(escaped(text)) =~= text);
    }
}

/// Escape HTML special characters to prevent rendering issues.
///
/// Replaces `&`, `<`, `>`, `"`, and `'` with their corresponding HTML
/// entities.
pub fn escape_html(text: &str) -> (r: String)
    ensures
        r@ == escaped(text@),
{
    let mut out: String = String::new();
    for c in it: text.chars()
        invariant
            it.seq() == text@,
            out@ == escaped(text@.take(it.index() as int)),
    {
        assert(text@.take(it.index() + 1).drop_last() =~= text@.take(it.index() as int));
        assert(text@.take(it.index() + 1).last() == c);
        if c == '&' {
            out.append("&amp;");
        } else if c == '<' {
            out.append("&lt;");
        } else if c == '>' {
            out.append("&gt;");
        } else if c == '"' {
            out.append("&quot;");
        } else if c == '\'' {
            out.append("&#39;");
        } else {
            out.push(c);
        }
        assert(out@ =~= escaped(text@.take(it.index() + 1)));
    }
    assert(text@.take(text@.len() as int) =~= text@);
    out
}

/// The opening of the document, up to the heading.
pub open spec fn opening(seed: Option<u64>) -> Seq<char> {
    "<!DOCTYPE html>\n<html lang=\"en\">\n<head>\n<meta charset=\"utf-8\">\n<title>fest mutation testing report</title>\n<style>\n"@
        + CSS@
        + "</style>\n</head>\n<body>\n<div class=\"container\">\n<h1>fest mutation testing report"@
        + text::seed_suffix(seed) + "</h1>\n"@
}

/// The closing HTML tags for the document.
pub const CLOSING: &'static str = "</div>\n</body>\n</html>\n";

/// A summary table row with a label and value.
pub open spec fn summary_row(label: Seq<char>, value: int) -> Seq<char> {
    "<tr><td>"@ + label + "</td><td>"@ + decimal::decimal(value) + "</td></tr>\n"@
}

/// The row with the seed, and nothing where there is none.
pub open spec fn seed_row(seed: Option<u64>) -> Seq<char> {
    match seed {
        Some(n) => summary_row("Seed"@, n as int),
        None => ""@,
    }
}

/// The summary statistics section.
pub open spec fn summary(report: MutationReport) -> Seq<char> {
    "<div class=\"summary\">\n<h2>Summary</h2>\n<table>\n"@ + summary_row(
        "Files scanned"@,
        report.files_scanned as int,
    ) + summary_row("Mutants generated"@, report.mutants_generated as int) + summary_row(
        "Mutants tested"@,
        report.mutants_tested as int,
    ) + summary_row("Killed"@, report.killed as int) + summary_row(
        "Survived"@,
        report.survived as int,
    ) + summary_row("Timeout"@, report.timeouts as int) + summary_row(
        "Errors"@,
        report.errors as int,
    ) + summary_row("No coverage"@, report.no_coverage as int) + seed_row(report.seed)
        + "<tr><td><strong>Mutation score</strong></td><td><strong>"@
        + report.score().one_decimal_text() + "%</strong></td></tr>\n</table>\n</div>\n"@
}

/// The CSS class name for a mutation status.
pub open spec fn status_class(status: MutantStatus) -> Seq<char> {
    match status {
        MutantStatus::Killed => "status-killed"@,
        MutantStatus::Survived => "status-survived"@,
        MutantStatus::Timeout => "status-timeout"@,
        MutantStatus::NoCoverage => "status-no-coverage"@,
        MutantStatus::Error(_) => "status-error"@,
        MutantStatus::Skipped { .. } => "status-skipped"@,
    }
}

/// The display label for a mutation status.
pub open spec fn status_label(status: MutantStatus) -> Seq<char> {
    match status {
        MutantStatus::Killed => "KILLED"@,
        MutantStatus::Survived => "SURVIVED"@,
        MutantStatus::Timeout => "TIMEOUT"@,
        MutantStatus::NoCoverage => "NO COVERAGE"@,
        MutantStatus::Error(_) => "ERROR"@,
        MutantStatus::Skipped { .. } => "SKIPPED"@,
    }
}

/// Whether two results are for one file.
pub open spec fn same_file(a: MutantResult, b: MutantResult) -> bool {
    paths::same_path(a.mutant.file_path@, b.mutant.file_path@)
}

/// Whether two results are for one line of one file.
pub open spec fn same_line(a: MutantResult, b: MutantResult) -> bool {
    same_file(a, b) && a.mutant.line == b.mutant.line
}

/// Whether some result for the line of the result at `i` is a survived mutant.
pub open spec fn line_survived(results: Seq<MutantResult>, i: int) -> bool {
    exists|j: int|
        0 <= j < results.len() && same_line(results[i], #[trigger] results[j])
            && results[j].status is Survived
}

/// Whether all results for the line of the result at `i` are killed mutants.
pub open spec fn line_killed(results: Seq<MutantResult>, i: int) -> bool {
    forall|j: int|
        0 <= j < results.len() && same_line(results[i], #[trigger] results[j])
            ==> results[j].status is Killed
}

/// The CSS class for the line of the result at `i`.
///
/// - If any mutant on the line survived, the line is red (`survived`).
/// - Else if all mutants were killed, the line is green (`killed`).
/// - Otherwise the line is grey (`no-coverage`).
pub open spec fn line_class(results: Seq<MutantResult>, i: int) -> Seq<char> {
    if line_survived(results, i) {
        "survived"@
    } else if line_killed(results, i) {
        "killed"@
    } else {
        "no-coverage"@
    }
}

/// The path shown for the file of a result: that of the first result for it.
pub open spec fn shown_path(results: Seq<MutantResult>, result: MutantResult) -> Seq<char>
    decreases results.len(),
{
    if results.len() == 0 {
        result.mutant.file_path@
    } else if same_file(results[0], result) {
        results[0].mutant.file_path@
    } else {
        shown_path(results.drop_first(), result)
    }
}

/// Whether the result at index `i` is listed before the one at index `j`:
/// results are sorted by file, within a file by line, and those of one line
/// keep their order.
pub open spec fn is_listed_before(results: Seq<MutantResult>, i: int, j: int) -> bool {
    let a = results[i];
    let b = results[j];
    ||| paths::path_less(a.mutant.file_path@, b.mutant.file_path@)
    ||| same_file(a, b) && a.mutant.line < b.mutant.line
    ||| same_line(a, b) && i < j
}

/// Whether `list` holds the index of each result once, in the order in which
/// they are listed.
pub open spec fn is_listing(results: Seq<MutantResult>, list: Seq<usize>) -> bool {
    &&& order::covers(list, 0, results.len() as int)
    &&& forall|p: int, q: int|
        0 <= p < q < list.len() ==> is_listed_before(
            results,
            #[trigger] list[p] as int,
            #[trigger] list[q] as int,
        )
}

/// Whether the first result of a file stands at position `p` of a listing.
pub open spec fn starts_file(results: Seq<MutantResult>, list: Seq<usize>, p: int) -> bool {
    p == 0 || !same_file(results[list[p - 1] as int], results[list[p] as int])
}

/// Whether the first result of a line stands at position `p` of a listing.
pub open spec fn starts_line(results: Seq<MutantResult>, list: Seq<usize>, p: int) -> bool {
    p == 0 || !same_line(results[list[p - 1] as int], results[list[p] as int])
}

/// The opening of the section for a file.
pub open spec fn file_opening(path: Seq<char>) -> Seq<char> {
    "<div class=\"file-section\">\n<h2>"@ + escaped(path) + "</h2>\n"@
}

/// An annotated line: its number and the original text of its first mutation.
pub open spec fn line_header(class: Seq<char>, line: int, code: Seq<char>) -> Seq<char> {
    "<div class=\"line "@ + class + "\"><span class=\"line-num\">"@ + decimal::decimal(line)
        + "</span><code>"@ + escaped(code) + "</code></div>\n"@
}

/// The entry for a single mutation.
pub open spec fn detail(result: MutantResult) -> Seq<char> {
    "<div class=\"mutation-detail\"><span class=\""@ + status_class(result.status) + "\">["@
        + status_label(result.status) + "]</span> "@ + escaped(result.mutant.mutator_name@)
        + ": <code>"@ + escaped(result.mutant.original_text@) + "</code> &rarr; <code>"@ + escaped(
        result.mutant.mutated_text@,
    ) + "</code></div>\n"@
}

/// What is written for position `p` of a listing: the opening of the file's
/// section before its first result, the line's header before its first
/// result, the mutation, and the closing of the section after its last
/// result.
pub open spec fn entry(results: Seq<MutantResult>, list: Seq<usize>, p: int) -> Seq<char> {
    let i = list[p] as int;
    let result = results[i];
    (if starts_file(results, list, p) {
        file_opening(shown_path(results, result))
    } else {
        ""@
    }) + (if starts_line(results, list, p) {
        line_header(
            line_class(results, i),
            result.mutant.line as int,
            result.mutant.original_text@,
        )
    } else {
        ""@
    }) + detail(result) + (if p + 1 == list.len() || starts_file(results, list, p + 1) {
        "</div>\n"@
    } else {
        ""@
    })
}

/// What is written for the first `n` positions of a listing.
pub open spec fn entries(results: Seq<MutantResult>, list: Seq<usize>, n: nat) -> Seq<char>
    decreases n,
{
    if n == 0 {
        Seq::empty()
    } else {
        entries(results, list, (n - 1) as nat) + entry(results, list, n - 1)
    }
}

/// The document for a report whose results are listed in the given order.
pub open spec fn page_text(report: MutationReport, list: Seq<usize>) -> Seq<char> {
    opening(report.seed) + summary(report) + entries(report.results@, list, list.len()) + CLOSING@
}

/// Whether a text is the document for a report.
pub open spec fn is_page(report: MutationReport, page: Seq<char>) -> bool {
    exists|list: Seq<usize>|
        #[trigger] is_listing(report.results@, list) && page == page_text(report, list)
}

/// Two listings agree in their first positions.
proof fn lemma_listings_agree(
    results: Seq<MutantResult>,
    a: Seq<usize>,
    b: Seq<usize>,
    n: int,
)
    requires
        is_listing(results, a),
        is_listing(results, b),
        0 <= n <= a.len(),
    ensures
        forall|p: int| 0 <= p < n ==> #[trigger] a[p] == b[p],
    decreases n,
{
    if n > 0 {
        let p = n - 1;
        lemma_listings_agree(results, a, b, p);
        if a[p] != b[p] {
            order::lemma_covers_all(b, results.len() as int, a[p] as int);
            order::lemma_covers_all(a, results.len() as int, b[p] as int);
            let q = choose|q: int| 0 <= q < b.len() && #[trigger] b[q] == a[p];
            let k = choose|k: int| 0 <= k < a.len() && #[trigger] a[k] == b[p];
            assert(q > p) by {
                if q < p {
                    assert(a[q] == b[q]);
                }
            }
            assert(k > p) by {
                if k < p {
                    assert(a[k] == b[k]);
                }
            }
            assert(is_listed_before(results, a[p] as int, a[k] as int));
            assert(is_listed_before(results, b[p] as int, b[q] as int));
            order::lemma_lex_total(
                paths::path_key(results[a[p] as int].mutant.file_path@),
                paths::path_key(results[b[p] as int].mutant.file_path@),
            );
        }
    }
}

/// A report has one document only: any two texts that are its document are
/// equal.
pub proof fn law_page_is_determined(report: MutationReport, x: Seq<char>, y: Seq<char>)
    requires
        is_page(report, x),
        is_page(report, y),
    ensures
        x == y,
{
    let results = report.results@;
    let a = choose|list: Seq<usize>|
        #[trigger] is_listing(results, list) && x == page_text(report, list);
    let b = choose|list: Seq<usize>|
        #[trigger] is_listing(results, list) && y == page_text(report, list);
    lemma_listings_agree(results, a, b, a.len() as int);
    assert(a =~= b);
}

/// Format a [`MutationReport`] as a self-contained HTML document.
///
/// The output has inline CSS, a summary statistics section, and per-file
/// views with color-coded line annotations based on mutation outcomes.
pub fn format_html(report: &MutationReport) -> (r: Result<String, Error>)
    requires
        report.is_countable(),
    ensures
        r matches Ok(page) && is_page(*report, page@),
{
    let keys: Vec<SortKey> = sort_keys(&report.results);
    let list: Vec<usize> = order::sorted_indices(&keys);
    proof {
        lemma_listing(report.results@, keys@, list@);
    }
    let mut output: String = write_opening(report.seed);
    output.append(write_summary(report).as_str());
    output.append(write_entries(&report.results, &keys, &list).as_str());
    output.append(CLOSING);
    Ok(output)
}

/// Whether the keys are those by which the results are listed.
spec fn are_keys(results: Seq<MutantResult>, keys: Seq<SortKey>) -> bool {
    &&& keys.len() == results.len()
    &&& forall|i: int|
        0 <= i < results.len() ==> (#[trigger] keys[i]).major@ == paths::path_key(
            results[i].mutant.file_path@,
        ) && keys[i].minor == results[i].mutant.line
}

/// The keys by which results are listed.
fn sort_keys(results: &Vec<MutantResult>) -> (r: Vec<SortKey>)
    ensures
        are_keys(results@, r@),
{
    let mut keys: Vec<SortKey> = Vec::new();
    let mut i: usize = 0;
    while i < results.len()
        invariant
            i <= results@.len(),
            keys@.len() == i,
            forall|j: int|
                0 <= j < i ==> (#[trigger] keys@[j]).major@ == paths::path_key(
                    results@[j].mutant.file_path@,
                ) && keys@[j].minor == results@[j].mutant.line,
        decreases results.len() - i,
    {
        keys.push(
            SortKey {
                major: paths::sort_key(results[i].mutant.file_path.as_str()),
                minor: results[i].mutant.line as u64,
            },
        );
        i = i + 1;
    }
    keys
}

/// Indices sorted by the keys of results are a listing.
proof fn lemma_listing(results: Seq<MutantResult>, keys: Seq<SortKey>, list: Seq<usize>)
    requires
        are_keys(results, keys),
        order::covers(list, 0, keys.len() as int),
        order::in_order(keys, list),
    ensures
        is_listing(results, list),
{
    assert forall|p: int, q: int| 0 <= p < q < list.len() implies is_listed_before(
        results,
        #[trigger] list[p] as int,
        #[trigger] list[q] as int,
    ) by {
        assert(order::sorts_before(keys, list[p] as int, list[q] as int));
    }
}

/// Writes the opening of the document.
fn write_opening(seed: Option<u64>) -> (r: String)
    ensures
        r@ == opening(seed),
{
    let mut out: String =
        "<!DOCTYPE html>\n<html lang=\"en\">\n<head>\n<meta charset=\"utf-8\">\n<title>fest mutation testing report</title>\n<style>\n".to_owned();
    out.append(CSS);
    out.append(
        "</style>\n</head>\n<body>\n<div class=\"container\">\n<h1>fest mutation testing report",
    );
    out.append(text::format_seed_suffix(seed).as_str());
    out.append("</h1>\n");
    out
}

/// Writes a summary table row.
fn write_row(label: &str, value: u64) -> (r: String)
    ensures
        r@ == summary_row(label@, value as int),
{
    let mut out: String = "<tr><td>".to_owned();
    out.append(label);
    out.append("</td><td>");
    out.append(decimal::decimal_u64(value).as_str());
    out.append("</td></tr>\n");
    out
}

/// Writes the summary statistics section.
fn write_summary(report: &MutationReport) -> (r: String)
    requires
        report.is_countable(),
    ensures
        r@ == summary(*report),
{
    let score: Double = report.mutation_score();
    let mut out: String = "<div class=\"summary\">\n<h2>Summary</h2>\n<table>\n".to_owned();
    out.append(write_row("Files scanned", report.files_scanned as u64).as_str());
    out.append(write_row("Mutants generated", report.mutants_generated as u64).as_str());
    out.append(write_row("Mutants tested", report.mutants_tested as u64).as_str());
    out.append(write_row("Killed", report.killed as u64).as_str());
    out.append(write_row("Survived", report.survived as u64).as_str());
    out.append(write_row("Timeout", report.timeouts as u64).as_str());
    out.append(write_row("Errors", report.errors as u64).as_str());
    out.append(write_row("No coverage", report.no_coverage as u64).as_str());
    match report.seed {
        Some(n) => out.append(write_row("Seed", n).as_str()),
        None => out.append(""),
    }
    out.append("<tr><td><strong>Mutation score</strong></td><td><strong>");
    out.append(score.one_decimal().as_str());
    out.append("%</strong></td></tr>\n</table>\n</div>\n");
    out
}

/// Whether two keys are those of one file.
fn is_same_file(keys: &Vec<SortKey>, i: usize, j: usize) -> (r: bool)
    requires
        i < keys.len(),
        j < keys.len(),
    ensures
        r == (keys@[i as int].major@ == keys@[j as int].major@),
{
    proof {
        order::lemma_lex_total(keys@[i as int].major@, keys@[j as int].major@);
    }
    !order::is_lex_less(&keys[i].major, &keys[j].major) && !order::is_lex_less(
        &keys[j].major,
        &keys[i].major,
    )
}

/// Finds the path shown for the file of a result.
fn find_shown_path(results: &Vec<MutantResult>, keys: &Vec<SortKey>, i: usize) -> (r: String)
    requires
        are_keys(results@, keys@),
        i < results@.len(),
    ensures
        r@ == shown_path(results@, results@[i as int]),
{
    let ghost result = results@[i as int];
    let mut j: usize = 0;
    assert(results@.skip(0) =~= results@);
    while j < results.len()
        invariant
            j <= results@.len(),
            i < results@.len(),
            result == results@[i as int],
            are_keys(results@, keys@),
            shown_path(results@, result) == shown_path(results@.skip(j as int), result),
        decreases results.len() - j,
    {
        assert(results@.skip(j as int)[0] == results@[j as int]);
        assert(results@.skip(j as int).drop_first() =~= results@.skip(j + 1));
        assert(keys@[i as int].major@ == paths::path_key(result.mutant.file_path@));
        assert(keys@[j as int].major@ == paths::path_key(results@[j as int].mutant.file_path@));
        if is_same_file(keys, i, j) {
            return results[j].mutant.file_path.clone();
        }
        j = j + 1;
    }
    results[i].mutant.file_path.clone()
}

/// Of two positions of a listing that are for one line, all between are for
/// that line.
proof fn lemma_line_is_contiguous(
    results: Seq<MutantResult>,
    list: Seq<usize>,
    p: int,
    m: int,
    q: int,
)
    requires
        is_listing(results, list),
        0 <= p <= m <= q < list.len(),
        same_line(results[list[p] as int], results[list[q] as int]),
    ensures
        same_line(results[list[p] as int], results[list[m] as int]),
{
    if p < m && m < q {
        let a = results[list[p] as int];
        let b = results[list[m] as int];
        let c = results[list[q] as int];
        assert(is_listed_before(results, list[p] as int, list[m] as int));
        assert(is_listed_before(results, list[m] as int, list[q] as int));
        let x = paths::path_key(a.mutant.file_path@);
        let y = paths::path_key(b.mutant.file_path@);
        order::lemma_lex_total(x, y);
    }
}

/// Determine the CSS class for the line that starts at position `p`.
fn determine_line_class(
    results: &Vec<MutantResult>,
    keys: &Vec<SortKey>,
    list: &Vec<usize>,
    p: usize,
) -> (r: &'static str)
    requires
        are_keys(results@, keys@),
        is_listing(results@, list@),
        p < list@.len(),
        starts_line(results@, list@, p as int),
    ensures
        r@ == line_class(results@, list@[p as int] as int),
{
    let first: usize = list[p];
    let ghost all = results@;
    let ghost i = first as int;
    let mut all_killed: bool = true;
    let mut q: usize = p;
    while q < list.len()
        invariant_except_break
            forall|m: int|
                p <= m < q ==> same_line(all[i], #[trigger] all[list@[m] as int])
                    && !(all[list@[m] as int].status is Survived),
            all_killed == (forall|m: int|
                p <= m < q ==> (#[trigger] all[list@[m] as int]).status is Killed),
        invariant
            all == results@,
            are_keys(all, keys@),
            is_listing(all, list@),
            p <= q <= list@.len(),
            p < list@.len(),
            first == list@[p as int],
            i == first,
        ensures
            forall|m: int|
                p <= m < q ==> same_line(all[i], #[trigger] all[list@[m] as int])
                    && !(all[list@[m] as int].status is Survived),
            all_killed == (forall|m: int|
                p <= m < q ==> (#[trigger] all[list@[m] as int]).status is Killed),
            q == list@.len() || !same_line(all[i], all[list@[q as int] as int]),
        decreases list.len() - q,
    {
        let k: usize = list[q];
        assert(0 <= k < all.len());
        assert(keys@[i].major@ == paths::path_key(all[i].mutant.file_path@));
        assert(keys@[k as int].major@ == paths::path_key(all[k as int].mutant.file_path@));
        if !is_same_file(keys, first, k) || results[first].mutant.line != results[k].mutant.line {
            break;
        }
        if matches!(results[k].status, MutantStatus::Survived) {
            assert(same_line(all[i], all[k as int]));
            assert(line_survived(all, i));
            return "survived";
        }
        if !matches!(results[k].status, MutantStatus::Killed) {
            all_killed = false;
            assert(!(all[list@[q as int] as int].status is Killed));
        }
        q = q + 1;
    }
    proof {
        assert forall|j: int| 0 <= j < all.len() && same_line(all[i], #[trigger] all[j]) implies exists|
            m: int,
        |
            p <= m < q && #[trigger] list@[m] == j by {
            order::lemma_covers_all(list@, all.len() as int, j);
            let m = choose|m: int| 0 <= m < list@.len() && #[trigger] list@[m] == j;
            if m < p {
                assert(same_line(all[list@[m] as int], all[list@[p as int] as int]));
                lemma_line_is_contiguous(all, list@, m, p - 1, p as int);
                assert(same_line(all[list@[p - 1] as int], all[list@[p as int] as int]));
                assert(false);
            }
            if m >= q {
                lemma_line_is_contiguous(all, list@, p as int, q as int, m);
                assert(false);
            }
            assert(p <= m < q && list@[m] == j);
        }
        assert(!line_survived(all, i));
        if all_killed {
            assert(line_killed(all, i));
        } else {
            let m = choose|m: int|
                p <= m < q && !((#[trigger] all[list@[m] as int]).status is Killed);
            assert(same_line(all[i], all[list@[m] as int]));
            assert(!line_killed(all, i));
        }
    }
    if all_killed {
        "killed"
    } else {
        "no-coverage"
    }
}

/// Writes an annotated line.
fn write_line_header(class: &str, line: u32, code: &str) -> (r: String)
    ensures
        r@ == line_header(class@, line as int, code@),
{
    let mut out: String = "<div class=\"line ".to_owned();
    out.append(class);
    out.append("\"><span class=\"line-num\">");
    out.append(decimal::decimal_u64(line as u64).as_str());
    out.append("</span><code>");
    out.append(escape_html(code).as_str());
    out.append("</code></div>\n");
    out
}

/// Return the CSS class name for a mutation status.
fn status_css_class(status: &MutantStatus) -> (r: &'static str)
    ensures
        r@ == status_class(*status),
{
    match status {
        MutantStatus::Killed => "status-killed",
        MutantStatus::Survived => "status-survived",
        MutantStatus::Timeout => "status-timeout",
        MutantStatus::NoCoverage => "status-no-coverage",
        MutantStatus::Error(_) => "status-error",
        MutantStatus::Skipped { .. } => "status-skipped",
    }
}

/// Return a human-readable display label for a mutation status.
fn status_display_label(status: &MutantStatus) -> (r: &'static str)
    ensures
        r@ == status_label(*status),
{
    match status {
        MutantStatus::Killed => "KILLED",
        MutantStatus::Survived => "SURVIVED",
        MutantStatus::Timeout => "TIMEOUT",
        MutantStatus::NoCoverage => "NO COVERAGE",
        MutantStatus::Error(_) => "ERROR",
        MutantStatus::Skipped { .. } => "SKIPPED",
    }
}

/// Writes a single mutation detail entry.
fn write_detail(result: &MutantResult) -> (r: String)
    ensures
        r@ == detail(*result),
{
    let mut out: String = "<div class=\"mutation-detail\"><span class=\"".to_owned();
    out.append(status_css_class(&result.status));
    out.append("\">[");
    out.append(status_display_label(&result.status));
    out.append("]</span> ");
    out.append(escape_html(result.mutant.mutator_name.as_str()).as_str());
    out.append(": <code>");
    out.append(escape_html(result.mutant.original_text.as_str()).as_str());
    out.append("</code> &rarr; <code>");
    out.append(escape_html(result.mutant.mutated_text.as_str()).as_str());
    out.append("</code></div>\n");
    out
}

/// Writes the opening of the section for a file.
fn write_file_opening(path: &str) -> (r: String)
    ensures
        r@ == file_opening(path@),
{
    let mut out: String = "<div class=\"file-section\">\n<h2>".to_owned();
    out.append(escape_html(path).as_str());
    out.append("</h2>\n");
    out
}

/// Writes what stands for one position of a listing.
fn write_entry(
    results: &Vec<MutantResult>,
    keys: &Vec<SortKey>,
    list: &Vec<usize>,
    p: usize,
) -> (r: String)
    requires
        are_keys(results@, keys@),
        is_listing(results@, list@),
        p < list@.len(),
    ensures
        r@ == entry(results@, list@, p as int),
{
    let i: usize = list[p];
    let result: &MutantResult = &results[i];
    let mut new_file: bool = true;
    let mut new_line: bool = true;
    if p > 0 {
        let before: usize = list[p - 1];
        assert(keys@[before as int].major@ == paths::path_key(
            results@[before as int].mutant.file_path@,
        ));
        assert(keys@[i as int].major@ == paths::path_key(results@[i as int].mutant.file_path@));
        new_file = !is_same_file(keys, before, i);
        new_line = new_file || results[before].mutant.line != result.mutant.line;
    }
    let mut last: bool = true;
    if p < list.len() - 1 {
        let after: usize = list[p + 1];
        assert(keys@[after as int].major@ == paths::path_key(
            results@[after as int].mutant.file_path@,
        ));
        assert(keys@[i as int].major@ == paths::path_key(results@[i as int].mutant.file_path@));
        last = !is_same_file(keys, i, after);
    }
    let mut out: String = if new_file {
        write_file_opening(find_shown_path(results, keys, i).as_str())
    } else {
        "".to_owned()
    };
    if new_line {
        let class: &'static str = determine_line_class(results, keys, list, p);
        out.append(
            write_line_header(
                class,
                result.mutant.line,
                result.mutant.original_text.as_str(),
            ).as_str(),
        );
    } else {
        out.append("");
    }
    out.append(write_detail(result).as_str());
    if last {
        out.append("</div>\n");
    } else {
        out.append("");
    }
    out
}

/// Writes the sections for all files.
fn write_entries(results: &Vec<MutantResult>, keys: &Vec<SortKey>, list: &Vec<usize>) -> (r: String)
    requires
        are_keys(results@, keys@),
        is_listing(results@, list@),
    ensures
        r@ == entries(results@, list@, list@.len()),
{
    let mut out: String = String::new();
    let mut p: usize = 0;
    while p < list.len()
        invariant
            p <= list@.len(),
            are_keys(results@, keys@),
            is_listing(results@, list@),
            out@ == entries(results@, list@, p as nat),
        decreases list.len() - p,
    {
        out.append(write_entry(results, keys, list, p).as_str());
        p = p + 1;
    }
    out
}

/// Whether the summary shows a count under a label.
pub open spec fn shows_count(report: MutationReport, label: Seq<char>, n: int) -> bool {
    shows(
        summary(report),
        "<tr><td>"@ + label + "</td><td>"@ + decimal::decimal(n) + "</td></tr>\n"@,
    )
}

/// The summary shows every count of the report under its own label.
pub proof fn law_summary_shows_the_counts(report: MutationReport)
    ensures
        shows_count(report, "Files scanned"@, report.files_scanned as int),
        shows_count(report, "Mutants generated"@, report.mutants_generated as int),
        shows_count(report, "Mutants tested"@, report.mutants_tested as int),
        shows_count(report, "Killed"@, report.killed as int),
        shows_count(report, "Survived"@, report.survived as int),
        shows_count(report, "Timeout"@, report.timeouts as int),
        shows_count(report, "Errors"@, report.errors as int),
        shows_count(report, "No coverage"@, report.no_coverage as int),
        report.seed matches Some(n) ==> shows_count(report, "Seed"@, n as int),
{
    broadcast use lemma_shown_in_both;

}

/// The summary shows the score in percent.
pub proof fn law_summary_shows_the_score(report: MutationReport)
    ensures
        shows(
            summary(report),
            "<strong>"@ + report.score().one_decimal_text() + "%</strong>"@,
        ),
{
    reveal_strlit("<tr><td><strong>Mutation score</strong></td><td><strong>");
    reveal_strlit("<tr><td><strong>Mutation score</strong></td><td>");
    reveal_strlit("<strong>");
    reveal_strlit("%</strong></td></tr>\n</table>\n</div>\n");
    reveal_strlit("%</strong>");
    reveal_strlit("</td></tr>\n</table>\n</div>\n");
    let head = "<tr><td><strong>Mutation score</strong></td><td>"@;
    let tail = "</td></tr>\n</table>\n</div>\n"@;
    let score = report.score().one_decimal_text();
    assert("<tr><td><strong>Mutation score</strong></td><td><strong>"@ =~= head + "<strong>"@);
    assert("%</strong></td></tr>\n</table>\n</div>\n"@ =~= "%</strong>"@ + tail);
    let start = before_score(report);
    assert(summary(report) == start + (head + "<strong>"@) + score + ("%</strong>"@ + tail));
    lemma_shows(
        summary(report),
        start + head,
        "<strong>"@ + score + "%</strong>"@,
        tail,
    );
}

/// The rows of the summary that stand before the score.
spec fn before_score(report: MutationReport) -> Seq<char> {
    "<div class=\"summary\">\n<h2>Summary</h2>\n<table>\n"@ + summary_row(
        "Files scanned"@,
        report.files_scanned as int,
    ) + summary_row("Mutants generated"@, report.mutants_generated as int) + summary_row(
        "Mutants tested"@,
        report.mutants_tested as int,
    ) + summary_row("Killed"@, report.killed as int) + summary_row(
        "Survived"@,
        report.survived as int,
    ) + summary_row("Timeout"@, report.timeouts as int) + summary_row(
        "Errors"@,
        report.errors as int,
    ) + summary_row("No coverage"@, report.no_coverage as int) + seed_row(report.seed)
}

/// The path that is shown for a file is that of the first result in it.
pub proof fn law_the_first_path_is_shown(results: Seq<MutantResult>, result: MutantResult, i: int)
    requires
        0 <= i < results.len(),
        same_file(results[i], result),
        forall|j: int| 0 <= j < i ==> !same_file(#[trigger] results[j], result),
    ensures
        shown_path(results, result) == results[i].mutant.file_path@,
    decreases results.len(),
{
    if i > 0 {
        let rest = results.drop_first();
        assert(!same_file(results[0], result));
        assert(rest[i - 1] == results[i]);
        assert forall|j: int| 0 <= j < i - 1 implies !same_file(#[trigger] rest[j], result) by {
            assert(rest[j] == results[j + 1]);
        }
        law_the_first_path_is_shown(rest, result, i - 1);
    }
}

proof fn lemma_entry_stands(results: Seq<MutantResult>, list: Seq<usize>, n: nat, p: int)
    requires
        0 <= p < n,
    ensures
        shows(entries(results, list, n), entry(results, list, p)),
    decreases n,
{
    let all = entries(results, list, n);
    let init = entries(results, list, (n - 1) as nat);
    let last = entry(results, list, n - 1);
    if p == n - 1 {
        lemma_shows(all, init, last, Seq::empty());
    } else {
        lemma_entry_stands(results, list, (n - 1) as nat, p);
        let (a, b) = choose|a: Seq<char>, b: Seq<char>|
            init == #[trigger] around(a, entry(results, list, p), b);
        lemma_shows(all, a, entry(results, list, p), b + last);
    }
}

/// Every result has its detail on the page.
pub proof fn law_every_result_is_on_the_page(report: MutationReport, page: Seq<char>, i: int)
    requires
        is_page(report, page),
        0 <= i < report.results@.len(),
    ensures
        shows(page, detail(report.results@[i])),
{
    let results = report.results@;
    let list = choose|list: Seq<usize>|
        #[trigger] is_listing(results, list) && page == page_text(report, list);
    order::lemma_covers_all(list, results.len() as int, i);
    let p = choose|p: int| 0 <= p < list.len() && #[trigger] list[p] == i;
    lemma_entry_stands(results, list, list.len(), p);
    let all = entries(results, list, list.len());
    assert(shows(entry(results, list, p), detail(results[i]))) by {
        broadcast use lemma_shown_in_both;

    }
    lemma_shown_within(all, entry(results, list, p), detail(results[i]));
    assert(shows(page, all)) by {
        broadcast use lemma_shown_in_both;

    }
    lemma_shown_within(page, all, detail(results[i]));
}

/// The page tells every outcome by a label and a class of its own.
pub proof fn law_outcomes_have_their_label(status: MutantStatus)
    ensures
        status is Killed <==> status_label(status) == "KILLED"@,
        status is Survived <==> status_label(status) == "SURVIVED"@,
        status is Timeout <==> status_label(status) == "TIMEOUT"@,
        status is NoCoverage <==> status_label(status) == "NO COVERAGE"@,
        status is Error <==> status_label(status) == "ERROR"@,
        status is Skipped <==> status_label(status) == "SKIPPED"@,
        status is Killed <==> status_class(status) == "status-killed"@,
        status is Survived <==> status_class(status) == "status-survived"@,
        status is Timeout <==> status_class(status) == "status-timeout"@,
        status is NoCoverage <==> status_class(status) == "status-no-coverage"@,
        status is Error <==> status_class(status) == "status-error"@,
        status is Skipped <==> status_class(status) == "status-skipped"@,
{
    reveal_strlit("KILLED");
    reveal_strlit("SURVIVED");
    reveal_strlit("TIMEOUT");
    reveal_strlit("NO COVERAGE");
    reveal_strlit("ERROR");
    reveal_strlit("SKIPPED");
    assert("KILLED"@[0] == 'K' && "SURVIVED"@.len() == 8 && "TIMEOUT"@[0] == 'T');
    assert("NO COVERAGE"@.len() == 11 && "ERROR"@.len() == 5 && "SKIPPED"@[0] == 'S');
    assert("SKIPPED"@.len() == 7 && "TIMEOUT"@.len() == 7 && "KILLED"@.len() == 6);
    reveal_strlit("status-killed");
    reveal_strlit("status-survived");
    reveal_strlit("status-timeout");
    reveal_strlit("status-no-coverage");
    reveal_strlit("status-error");
    reveal_strlit("status-skipped");
    assert("status-killed"@.len() == 13 && "status-survived"@.len() == 15);
    assert("status-timeout"@.len() == 14 && "status-no-coverage"@.len() == 18);
    assert("status-error"@.len() == 12 && "status-skipped"@.len() == 14);
    assert("status-timeout"@[7] == 't' && "status-skipped"@[7] == 's');
}

/// A line is shown as survived if one of its mutants survived, as killed if all
/// of them were killed, and as not covered otherwise.
pub proof fn law_lines_have_their_class(results: Seq<MutantResult>, i: int, j: int)
    requires
        0 <= i < results.len(),
        0 <= j < results.len(),
        same_line(results[i], results[j]),
    ensures
        results[j].status is Survived ==> line_class(results, i) == "survived"@,
        line_class(results, i) == "killed"@ ==> results[j].status is Killed,
        line_class(results, i) == line_class(results, j),
        (forall|k: int|
            0 <= k < results.len() && same_line(results[i], #[trigger] results[k])
                ==> results[k].status is Killed) ==> line_class(results, i) == "killed"@,
        (forall|k: int|
            0 <= k < results.len() && same_line(results[i], #[trigger] results[k])
                ==> results[k].status !is Survived && results[k].status !is Killed)
            ==> line_class(results, i) == "no-coverage"@,
{
    reveal_strlit("survived");
    reveal_strlit("killed");
    reveal_strlit("no-coverage");
    assert("survived"@.len() == 8 && "killed"@.len() == 6 && "no-coverage"@.len() == 11);
    assert(same_line(results[i], results[i]));
    assert forall|k: int|
        same_line(results[i], #[trigger] results[k]) == same_line(results[j], results[k]) by {}
    if line_survived(results, i) {
        let k = choose|k: int|
            0 <= k < results.len() && same_line(results[i], #[trigger] results[k])
                && results[k].status is Survived;
        assert(same_line(results[j], results[k]));
    }
    if line_survived(results, j) {
        let k = choose|k: int|
            0 <= k < results.len() && same_line(results[j], #[trigger] results[k])
                && results[k].status is Survived;
        assert(same_line(results[i], results[k]));
    }
    if line_killed(results, i) {
        assert forall|k: int|
            0 <= k < results.len() && same_line(
                results[j],
                #[trigger] results[k],
            ) implies results[k].status is Killed by {
            assert(same_line(results[i], results[k]));
        }
    }
    if line_killed(results, j) {
        assert forall|k: int|
            0 <= k < results.len() && same_line(
                results[i],
                #[trigger] results[k],
            ) implies results[k].status is Killed by {
            assert(same_line(results[j], results[k]));
        }
    }
}

/// The detail of a result shows its outcome, its operator, and its text before
/// and after the change.
pub proof fn law_details_show_the_mutant(result: MutantResult)
    ensures
        shows(detail(result), "["@ + status_label(result.status) + "]"@),
        shows(detail(result), "<span class=\""@ + status_class(result.status) + "\">"@),
        shows(detail(result), escaped(result.mutant.mutator_name@) + ": <code>"@),
        shows(
            detail(result),
            escaped(result.mutant.original_text@) + "</code> &rarr; <code>"@ + escaped(
                result.mutant.mutated_text@,
            ),
        ),
{
    reveal_strlit("<div class=\"mutation-detail\"><span class=\"");
    reveal_strlit("<div class=\"mutation-detail\">");
    reveal_strlit("<span class=\"");
    reveal_strlit("\">[");
    reveal_strlit("\">");
    reveal_strlit("[");
    reveal_strlit("]");
    reveal_strlit("]</span> ");
    reveal_strlit("</span> ");
    let head = "<div class=\"mutation-detail\">"@;
    let class = status_class(result.status);
    let label = status_label(result.status);
    let name = escaped(result.mutant.mutator_name@);
    let before = escaped(result.mutant.original_text@);
    let after = escaped(result.mutant.mutated_text@);
    let change = before + "</code> &rarr; <code>"@ + after;
    let end = "</code></div>\n"@;
    assert("<div class=\"mutation-detail\"><span class=\""@ =~= head + "<span class=\""@);
    assert("\">["@ =~= "\">"@ + "["@);
    assert("]</span> "@ =~= "]"@ + "</span> "@);
    let first = "<span class=\""@ + class + "\">"@;
    let second = "["@ + label + "]"@;
    let third = name + ": <code>"@;
    let all = detail(result);
    assert(all =~= head + first + second + "</span> "@ + third + change + end) by {
        assert(all == (head + "<span class=\""@) + class + ("\">"@ + "["@) + label + ("]"@
            + "</span> "@) + name + ": <code>"@ + before + "</code> &rarr; <code>"@ + after + end);
    }
    broadcast use lemma_shown_in_both;

}

/// A line is shown with its class, its number and its code.
pub proof fn law_headers_show_the_line(class: Seq<char>, line: int, code: Seq<char>)
    ensures
        line_header(class, line, code) == "<div class=\"line "@ + class + "\">"@
            + "<span class=\"line-num\">"@ + decimal::decimal(line) + "</span>"@ + "<code>"@
            + escaped(code) + "</code></div>\n"@,
{
    reveal_strlit("\"><span class=\"line-num\">");
    reveal_strlit("\">");
    reveal_strlit("<span class=\"line-num\">");
    reveal_strlit("</span><code>");
    reveal_strlit("</span>");
    reveal_strlit("<code>");
    assert("\"><span class=\"line-num\">"@ =~= "\">"@ + "<span class=\"line-num\">"@);
    assert("</span><code>"@ =~= "</span>"@ + "<code>"@);
    assert(line_header(class, line, code) =~= "<div class=\"line "@ + class + "\">"@
        + "<span class=\"line-num\">"@ + decimal::decimal(line) + "</span>"@ + "<code>"@ + escaped(
        code,
    ) + "</code></div>\n"@);
}

/// Results are listed by file, then by line, then in the order of the run.
pub proof fn law_results_are_listed_by_place(
    results: Seq<MutantResult>,
    list: Seq<usize>,
    p: int,
    q: int,
)
    requires
        is_listing(results, list),
        0 <= p < q < list.len(),
    ensures
        ({
            let a = results[list[p] as int];
            let b = results[list[q] as int];
            &&& list[p] != list[q]
            &&& !paths::path_less(b.mutant.file_path@, a.mutant.file_path@)
            &&& same_file(a, b) ==> a.mutant.line <= b.mutant.line
            &&& same_line(a, b) ==> list[p] < list[q]
        }),
{
    let a = results[list[p] as int];
    let b = results[list[q] as int];
    assert(is_listed_before(results, list[p] as int, list[q] as int));
    let x = paths::path_key(a.mutant.file_path@);
    let y = paths::path_key(b.mutant.file_path@);
    order::lemma_lex_total(x, y);
    order::lemma_lex_total(x, x);
}

} // verus!
