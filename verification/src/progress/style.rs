//! Terminal styling and formatting of progress output.
use crate::decimal;
use crate::double::Double;
use crate::duration::Duration;
use crate::mutation::mutant::MutantStatus;
use crate::progress::event::{MutantDisplay, SummaryInfo};
use crate::text::{
    lemma_row_is_shown, lemma_shown_in_both, lemma_shown_within, lemma_shows, shows,
};
use vstd::prelude::*;

verus! {

/// Version of the program, as shown in the banner.
pub const VERSION: &'static str = "0.1.0";

/// The terminal codes that switch a style on.
pub open spec fn style_codes(style: Seq<char>) -> Seq<char> {
    if style == "green.bold"@ {
        "\x1b[32m\x1b[1m"@
    } else if style == "red.bold"@ {
        "\x1b[31m\x1b[1m"@
    } else if style == "yellow.bold"@ {
        "\x1b[33m\x1b[1m"@
    } else if style == "cyan.bold"@ {
        "\x1b[36m\x1b[1m"@
    } else if style == "cyan"@ {
        "\x1b[36m"@
    } else {
        "\x1b[2m"@
    }
}

/// Whether a style is one that is used here.
pub open spec fn known_style(style: Seq<char>) -> bool {
    ||| style == "green.bold"@
    ||| style == "red.bold"@
    ||| style == "yellow.bold"@
    ||| style == "cyan.bold"@
    ||| style == "cyan"@
    ||| style == "dim"@
}

/// A text in a style: the codes that switch it on, the text, and the code
/// that switches it off.
pub open spec fn styled(text: Seq<char>, style: Seq<char>) -> Seq<char> {
    style_codes(style) + text + "\x1b[0m"@
}

/// Formats a `console::StyledObject` whose style comes from
/// `console::Style::from_dotted_str`, with styling forced on: the codes for
/// the color and the attribute, the text, and the reset code.
#[verifier::external_body]
pub(crate) fn paint(text: &str, style: &str) -> (r: String)
    requires
        known_style(style@),
    ensures
        r@ == styled(text@, style@),
{
    console::Style::from_dotted_str(style).force_styling(true).apply_to(text).to_string()
}

/// A text filled up with spaces to a width.
pub open spec fn padded(text: Seq<char>, width: nat) -> Seq<char>
    decreases width - text.len(),
{
    if text.len() < width {
        padded(text.push(' '), width)
    } else {
        text
    }
}

/// A text filled up with spaces to a width.
pub fn pad(text: &str, width: usize) -> (r: String)
    ensures
        r@ == padded(text@, width as nat),
{
    let mut out: String = text.to_owned();
    let mut n: usize = text.unicode_len();
    while n < width
        invariant
            out@.len() == n,
            padded(text@, width as nat) == padded(out@, width as nat),
        decreases width - n,
    {
        out.push(' ');
        n = n + 1;
    }
    out
}

/// How a duration is shown.
pub open spec fn duration_text(d: Duration) -> Seq<char> {
    if d.millis() < 1000 {
        decimal::decimal(d.millis()) + "ms"@
    } else if d.secs < 60 {
        decimal::decimal(d.secs as int) + "."@ + decimal::decimal(
            (d.nanos / 1_000_000 / 100) as int,
        ) + "s"@
    } else {
        decimal::decimal((d.secs / 60) as int) + "m "@ + decimal::decimal((d.secs % 60) as int)
            + "s"@
    }
}

/// Format a [`Duration`] for human-readable display.
///
/// - Sub-second: `"42ms"`
/// - Under a minute: `"4.2s"`
/// - Over a minute: `"2m 34s"`
pub fn format_duration(duration: Duration) -> (r: String)
    ensures
        r@ == duration_text(duration),
{
    let total_ms: u128 = duration.as_millis();
    if total_ms < 1000 {
        let mut out: String = decimal::decimal_u128(total_ms);
        out.append("ms");
        return out;
    }
    let secs: u64 = duration.as_secs();
    if secs < 60 {
        let mut out: String = decimal::decimal_u64(secs);
        out.append(".");
        out.append(decimal::decimal_u64((duration.subsec_millis() / 100) as u64).as_str());
        out.append("s");
        return out;
    }
    let mut out: String = decimal::decimal_u64(secs / 60);
    out.append("m ");
    out.append(decimal::decimal_u64(secs % 60).as_str());
    out.append("s");
    out
}

/// The tag for a status.
pub open spec fn status_tag(status: MutantStatus) -> Seq<char> {
    match status {
        MutantStatus::Killed => "KILLED"@,
        MutantStatus::Survived => "SURVIVED"@,
        MutantStatus::Timeout => "TIMEOUT"@,
        MutantStatus::NoCoverage => "NO_COV"@,
        MutantStatus::Error(_) => "ERROR"@,
        MutantStatus::Skipped { .. } => "SKIPPED"@,
    }
}

/// Format a status tag string (e.g. `"KILLED"`, `"SURVIVED"`).
pub fn format_status_tag(status: &MutantStatus) -> (r: &'static str)
    ensures
        r@ == status_tag(*status),
{
    match status {
        MutantStatus::Killed => "KILLED",
        MutantStatus::Survived => "SURVIVED",
        MutantStatus::Timeout => "TIMEOUT",
        MutantStatus::NoCoverage => "NO_COV",
        MutantStatus::Error(_) => "ERROR",
        MutantStatus::Skipped { .. } => "SKIPPED",
    }
}

/// The line for one mutant, without colors.
pub open spec fn mutant_line(index: int, total: int, summary: MutantDisplay) -> Seq<char> {
    "["@ + decimal::decimal(index + 1) + "/"@ + decimal::decimal(total) + "] "@ + padded(
        status_tag(summary.status),
        10,
    ) + " "@ + summary.file_path@ + ":"@ + decimal::decimal(summary.line as int) + "  "@
        + summary.mutator_name@ + "  `"@ + summary.original_text@ + "` -> `"@
        + summary.mutated_text@ + "`  ("@ + decimal::decimal(summary.duration.millis()) + "ms)"@
}

/// Format a single mutant result line for plain (uncolored) verbose output.
///
/// Produces lines like
/// `[42/847] KILLED     src/app.py:5  arithmetic_op  "+" -> "-"  (125ms)`,
/// with the texts in backticks.
pub fn format_mutant_line(index: usize, total: usize, summary: &MutantDisplay) -> (r: String)
    requires
        index < usize::MAX,
    ensures
        r@ == mutant_line(index as int, total as int, *summary),
{
    let mut out: String = "[".to_owned();
    out.append(decimal::decimal_usize(index + 1).as_str());
    out.append("/");
    out.append(decimal::decimal_usize(total).as_str());
    out.append("] ");
    out.append(pad(format_status_tag(&summary.status), 10).as_str());
    out.append(" ");
    out.append(summary.file_path.as_str());
    out.append(":");
    out.append(decimal::decimal_u64(summary.line as u64).as_str());
    out.append("  ");
    out.append(summary.mutator_name.as_str());
    out.append("  `");
    out.append(summary.original_text.as_str());
    out.append("` -> `");
    out.append(summary.mutated_text.as_str());
    out.append("`  (");
    out.append(decimal::decimal_u128(summary.duration.as_millis()).as_str());
    out.append("ms)");
    out
}

/// The icon for a status.
pub open spec fn status_icon(status: MutantStatus) -> Seq<char> {
    match status {
        MutantStatus::Killed => "✔"@,
        MutantStatus::Survived => "✘"@,
        MutantStatus::Error(_) => "✘"@,
        MutantStatus::Timeout => "✘"@,
        MutantStatus::NoCoverage => "∅"@,
        MutantStatus::Skipped { .. } => "∅"@,
    }
}

/// The style of the icon and the tag for a status: green for killed, red for
/// survived and errors, yellow for timeout, and dim where nothing was run.
pub open spec fn status_style(status: MutantStatus) -> Seq<char> {
    match status {
        MutantStatus::Killed => "green.bold"@,
        MutantStatus::Survived => "red.bold"@,
        MutantStatus::Error(_) => "red.bold"@,
        MutantStatus::Timeout => "yellow.bold"@,
        MutantStatus::NoCoverage => "dim"@,
        MutantStatus::Skipped { .. } => "dim"@,
    }
}

/// The icon and the style for a status.
fn status_icon_and_style(status: &MutantStatus) -> (r: (&'static str, &'static str))
    ensures
        r.0@ == status_icon(*status),
        r.1@ == status_style(*status),
{
    match status {
        MutantStatus::Killed => ("✔", "green.bold"),
        MutantStatus::Survived | MutantStatus::Error(_) => ("✘", "red.bold"),
        MutantStatus::Timeout => ("✘", "yellow.bold"),
        MutantStatus::NoCoverage | MutantStatus::Skipped { .. } => ("∅", "dim"),
    }
}

/// The line for one mutant, with colors.
pub open spec fn colored_mutant_line(index: int, total: int, summary: MutantDisplay) -> Seq<char> {
    let style = status_style(summary.status);
    "  ["@ + decimal::decimal(index + 1) + "/"@ + decimal::decimal(total) + "] "@ + styled(
        status_icon(summary.status),
        style,
    ) + " "@ + styled(padded(status_tag(summary.status), 10), style) + " "@ + styled(
        summary.file_path@ + ":"@ + decimal::decimal(summary.line as int),
        "cyan"@,
    ) + "  "@ + styled(summary.mutator_name@, "dim"@) + "  `"@ + summary.original_text@
        + "` -> `"@ + summary.mutated_text@ + "`  "@ + styled(
        "("@ + decimal::decimal(summary.duration.millis()) + "ms)"@,
        "dim"@,
    )
}

/// Format a single mutant result line with terminal colors.
///
/// Uses green for killed, red for survived, yellow for timeout,
/// and dim for no-coverage mutants.
pub fn format_colored_mutant_line(index: usize, total: usize, summary: &MutantDisplay) -> (r: String)
    requires
        index < usize::MAX,
    ensures
        r@ == colored_mutant_line(index as int, total as int, *summary),
{
    let (icon, style) = status_icon_and_style(&summary.status);
    let mut location: String = summary.file_path.clone();
    location.append(":");
    location.append(decimal::decimal_u64(summary.line as u64).as_str());
    let mut timing: String = "(".to_owned();
    timing.append(decimal::decimal_u128(summary.duration.as_millis()).as_str());
    timing.append("ms)");
    let mut out: String = "  [".to_owned();
    out.append(decimal::decimal_usize(index + 1).as_str());
    out.append("/");
    out.append(decimal::decimal_usize(total).as_str());
    out.append("] ");
    out.append(paint(icon, style).as_str());
    out.append(" ");
    out.append(paint(pad(format_status_tag(&summary.status), 10).as_str(), style).as_str());
    out.append(" ");
    out.append(paint(location.as_str(), "cyan").as_str());
    out.append("  ");
    out.append(paint(summary.mutator_name.as_str(), "dim").as_str());
    out.append("  `");
    out.append(summary.original_text.as_str());
    out.append("` -> `");
    out.append(summary.mutated_text.as_str());
    out.append("`  ");
    out.append(paint(timing.as_str(), "dim").as_str());
    out
}

/// The encoding of ninety.
pub const NINETY_BITS: u64 = 0x4056_8000_0000_0000;

/// The encoding of seventy.
pub const SEVENTY_BITS: u64 = 0x4051_8000_0000_0000;

/// The style of a score: green from ninety on, yellow from seventy on, else red.
pub open spec fn score_style(score: Double) -> Seq<char> {
    if score.reaches(Double { bits: NINETY_BITS }) {
        "green.bold"@
    } else if score.reaches(Double { bits: SEVENTY_BITS }) {
        "yellow.bold"@
    } else {
        "red.bold"@
    }
}

/// A score text, in the style of the score where colors are on.
pub open spec fn shown_score(text: Seq<char>, score: Double, colored: bool) -> Seq<char> {
    if colored {
        styled(text, score_style(score))
    } else {
        text
    }
}

/// Apply score-threshold coloring to the given score string.
///
/// Returns `score_str` unmodified when `colored` is false. Otherwise
/// applies green (from 90 %), yellow (70 to 90 %), or red (below 70 %).
pub fn styled_score(score_str: &str, score: Double, colored: bool) -> (r: String)
    ensures
        r@ == shown_score(score_str@, score, colored),
{
    if !colored {
        return score_str.to_owned();
    }
    if score.at_least(Double { bits: NINETY_BITS }) {
        paint(score_str, "green.bold")
    } else if score.at_least(Double { bits: SEVENTY_BITS }) {
        paint(score_str, "yellow.bold")
    } else {
        paint(score_str, "red.bold")
    }
}

/// The final scoreboard line.
pub open spec fn summary_line(info: SummaryInfo, colored: bool) -> Seq<char> {
    "  Mutation Score: "@ + shown_score(info.score.one_decimal_text() + "%"@, info.score, colored)
        + "  "@ + (if colored {
        styled("┃"@, "dim"@)
    } else {
        "|"@
    }) + "  Killed: "@ + decimal::decimal(info.killed as int) + "  Survived: "@ + decimal::decimal(
        info.survived as int,
    ) + "  Timeout: "@ + decimal::decimal(info.timeouts as int) + "  Errors: "@ + decimal::decimal(
        info.errors as int,
    )
}

/// Format the final summary scoreboard line.
///
/// The score is colored by threshold. When `colored` is false, produces a
/// plain-text line.
pub fn format_summary_line(info: &SummaryInfo, colored: bool) -> (r: String)
    ensures
        r@ == summary_line(*info, colored),
{
    let mut score: String = info.score.one_decimal();
    score.append("%");
    let mut out: String = "  Mutation Score: ".to_owned();
    out.append(styled_score(score.as_str(), info.score, colored).as_str());
    out.append("  ");
    if colored {
        out.append(paint("┃", "dim").as_str());
    } else {
        out.append("|");
    }
    out.append("  Killed: ");
    out.append(decimal::decimal_usize(info.killed).as_str());
    out.append("  Survived: ");
    out.append(decimal::decimal_usize(info.survived).as_str());
    out.append("  Timeout: ");
    out.append(decimal::decimal_usize(info.timeouts).as_str());
    out.append("  Errors: ");
    out.append(decimal::decimal_usize(info.errors).as_str());
    out
}

/// The startup banner.
pub open spec fn banner(colored: bool) -> Seq<char> {
    if colored {
        styled("fest"@, "cyan.bold"@) + " "@ + styled("v"@ + VERSION@, "dim"@)
            + " — mutation testing for Python"@
    } else {
        "fest v"@ + VERSION@ + " — mutation testing for Python"@
    }
}

/// Format the startup banner line.
pub fn format_banner(colored: bool) -> (r: String)
    ensures
        r@ == banner(colored),
{
    if colored {
        let mut version: String = "v".to_owned();
        version.append(VERSION);
        let mut out: String = paint("fest", "cyan.bold");
        out.append(" ");
        out.append(paint(version.as_str(), "dim").as_str());
        out.append(" — mutation testing for Python");
        out
    } else {
        let mut out: String = "fest v".to_owned();
        out.append(VERSION);
        out.append(" — mutation testing for Python");
        out
    }
}

/// A text is padded with spaces behind it to the width, and one that has the
/// width or more stays as it is.
pub proof fn law_padding_fills_with_spaces(text: Seq<char>, width: nat)
    ensures
        padded(text, width).len() == if text.len() < width {
            width
        } else {
            text.len()
        },
        padded(text, width).take(text.len() as int) == text,
        forall|i: int| text.len() <= i < padded(text, width).len() ==> #[trigger] padded(
            text,
            width,
        )[i] == ' ',
    decreases width - text.len(),
{
    if text.len() < width {
        let more = text.push(' ');
        law_padding_fills_with_spaces(more, width);
        let all = padded(text, width);
        assert(all == padded(more, width));
        assert forall|i: int| 0 <= i < more.len() implies all[i] == more[i] by {
            assert(all.take(more.len() as int)[i] == all[i]);
        }
        assert(all.take(text.len() as int) =~= text);
    } else {
        assert(text.take(text.len() as int) =~= text);
    }
}

/// A time under a second is told in milliseconds, one under a minute in seconds
/// and tenths, and a longer one in minutes and seconds. What is told falls
/// short of the time by less than one of the last unit.
pub proof fn law_times_are_told(d: Duration, minutes: int, seconds: int, tenths: int)
    requires
        d.nanos < 1_000_000_000,
        minutes >= 0,
        0 <= seconds < 60,
        0 <= tenths < 10,
    ensures
        d.secs == 0 ==> exists|ms: int|
            duration_text(d) == #[trigger] decimal::decimal(ms) + "ms"@ && ms * 1_000_000 <= d.nanos
                < (ms + 1) * 1_000_000,
        1 <= d.secs < 60 && d.secs == seconds && tenths * 100_000_000 <= d.nanos < (tenths + 1)
            * 100_000_000 ==> duration_text(d) == decimal::decimal(seconds) + "."@
            + decimal::decimal(tenths) + "s"@,
        d.secs >= 60 && d.secs == minutes * 60 + seconds ==> duration_text(d) == decimal::decimal(
            minutes,
        ) + "m "@ + decimal::decimal(seconds) + "s"@,
{
    if d.secs == 0 {
        let ms = d.millis();
        assert(ms * 1_000_000 <= d.nanos < (ms + 1) * 1_000_000);
        assert(duration_text(d) == decimal::decimal(ms) + "ms"@);
    }
    if 1 <= d.secs < 60 && tenths * 100_000_000 <= d.nanos < (tenths + 1) * 100_000_000 {
        assert(d.nanos / 1_000_000 / 100 == tenths);
    }
}

/// Every outcome has its tag, its icon and its style.
pub proof fn law_outcomes_have_their_tag(status: MutantStatus)
    ensures
        status is Killed ==> status_tag(status) == "KILLED"@ && status_icon(status) == "✔"@
            && status_style(status) == "green.bold"@,
        status is Survived ==> status_tag(status) == "SURVIVED"@ && status_icon(status) == "✘"@
            && status_style(status) == "red.bold"@,
        status is Timeout ==> status_tag(status) == "TIMEOUT"@ && status_icon(status) == "✘"@
            && status_style(status) == "yellow.bold"@,
        status is NoCoverage ==> status_tag(status) == "NO_COV"@ && status_icon(status) == "∅"@
            && status_style(status) == "dim"@,
        status is Error ==> status_tag(status) == "ERROR"@ && status_icon(status) == "✘"@
            && status_style(status) == "red.bold"@,
        status is Skipped ==> status_tag(status) == "SKIPPED"@ && status_icon(status) == "∅"@
            && status_style(status) == "dim"@,
{
}

/// The line of a mutant shows how far the run is, where the mutant is, and what
/// it changes.
pub proof fn law_mutant_lines_show_the_mutant(index: int, total: int, summary: MutantDisplay)
    ensures
        shows(
            mutant_line(index, total, summary),
            "["@ + decimal::decimal(index + 1) + "/"@ + decimal::decimal(total) + "] "@,
        ),
        shows(mutant_line(index, total, summary), padded(status_tag(summary.status), 10)),
        shows(
            mutant_line(index, total, summary),
            summary.file_path@ + ":"@ + decimal::decimal(summary.line as int),
        ),
        shows(mutant_line(index, total, summary), summary.mutator_name@),
        shows(
            mutant_line(index, total, summary),
            "`"@ + summary.original_text@ + "` -> `"@ + summary.mutated_text@ + "`"@,
        ),
        shows(
            mutant_line(index, total, summary),
            "("@ + decimal::decimal(summary.duration.millis()) + "ms)"@,
        ),
{
    reveal_strlit("  `");
    reveal_strlit("  ");
    reveal_strlit("`");
    reveal_strlit("`  (");
    reveal_strlit("(");
    assert("  `"@ =~= "  "@ + "`"@);
    assert("`  ("@ =~= "`"@ + "  "@ + "("@);
    let all = mutant_line(index, total, summary);
    let count = "["@ + decimal::decimal(index + 1) + "/"@ + decimal::decimal(total) + "] "@;
    let tag = padded(status_tag(summary.status), 10);
    let place = summary.file_path@ + ":"@ + decimal::decimal(summary.line as int);
    let change = "`"@ + summary.original_text@ + "` -> `"@ + summary.mutated_text@ + "`"@;
    let time = "("@ + decimal::decimal(summary.duration.millis()) + "ms)"@;
    let start = count + tag + " "@;
    let end = summary.mutator_name@ + "  "@ + change + "  "@ + time;
    assert(end =~= summary.mutator_name@ + ("  "@ + "`"@) + summary.original_text@ + "` -> `"@
        + summary.mutated_text@ + ("`"@ + "  "@ + "("@) + decimal::decimal(
        summary.duration.millis(),
    ) + "ms)"@);
    assert(all =~= start + place + "  "@ + end) by {
        assert(all == start + summary.file_path@ + ":"@ + decimal::decimal(summary.line as int)
            + "  "@ + summary.mutator_name@ + ("  "@ + "`"@) + summary.original_text@ + "` -> `"@
            + summary.mutated_text@ + ("`"@ + "  "@ + "("@) + decimal::decimal(
            summary.duration.millis(),
        ) + "ms)"@);
    }
    lemma_shows(all, Seq::empty(), count, tag + " "@ + place + "  "@ + end);
    lemma_shows(all, count, tag, " "@ + place + "  "@ + end);
    lemma_shows(all, start, place, "  "@ + end);
    let ahead = start + place + "  "@;
    lemma_shows(all, ahead, summary.mutator_name@, "  "@ + change + "  "@ + time);
    lemma_shows(all, ahead + summary.mutator_name@ + "  "@, change, "  "@ + time);
    lemma_shows(
        all,
        ahead + summary.mutator_name@ + "  "@ + change + "  "@,
        time,
        Seq::empty(),
    );
}

/// The summary shows the score and every count under its label.
pub proof fn law_summaries_show_the_counts(info: SummaryInfo, colored: bool)
    ensures
        shows(
            summary_line(info, colored),
            "  Mutation Score: "@ + shown_score(
                info.score.one_decimal_text() + "%"@,
                info.score,
                colored,
            ),
        ),
        shows(
            summary_line(info, colored),
            "  Killed: "@ + decimal::decimal(info.killed as int) + "  Survived: "@
                + decimal::decimal(info.survived as int) + "  Timeout: "@ + decimal::decimal(
                info.timeouts as int,
            ) + "  Errors: "@ + decimal::decimal(info.errors as int),
        ),
{
    let all = summary_line(info, colored);
    let score = "  Mutation Score: "@ + shown_score(
        info.score.one_decimal_text() + "%"@,
        info.score,
        colored,
    );
    let bar = if colored {
        styled("┃"@, "dim"@)
    } else {
        "|"@
    };
    let counts = "  Killed: "@ + decimal::decimal(info.killed as int) + "  Survived: "@
        + decimal::decimal(info.survived as int) + "  Timeout: "@ + decimal::decimal(
        info.timeouts as int,
    ) + "  Errors: "@ + decimal::decimal(info.errors as int);
    assert(all =~= score + "  "@ + bar + counts);
    lemma_shows(all, Seq::empty(), score, "  "@ + bar + counts);
    lemma_shows(all, score + "  "@ + bar, counts, Seq::empty());
}

/// Colors change how a text looks and not what it says: the text stands between
/// the codes of its style and the code that ends them.
pub proof fn law_styles_keep_the_text(text: Seq<char>, style: Seq<char>, score: Double)
    ensures
        shows(styled(text, style), text),
        shown_score(text, score, false) == text,
        shows(shown_score(text, score, true), text),
{
    lemma_shows(styled(text, style), style_codes(style), text, "\x1b[0m"@);
    let chosen = score_style(score);
    lemma_shows(styled(text, chosen), style_codes(chosen), text, "\x1b[0m"@);
}

/// A higher score never looks worse: green at ninety percent and above, yellow
/// at seventy and above, and red below.
pub proof fn law_scores_have_their_color(score: Double)
    ensures
        score.reaches(Double { bits: 0x4056_8000_0000_0000 }) ==> score_style(score)
            == "green.bold"@,
        !score.reaches(Double { bits: 0x4056_8000_0000_0000 }) && score.reaches(
            Double { bits: 0x4051_8000_0000_0000 },
        ) ==> score_style(score) == "yellow.bold"@,
        !score.reaches(Double { bits: 0x4056_8000_0000_0000 }) && !score.reaches(
            Double { bits: 0x4051_8000_0000_0000 },
        ) ==> score_style(score) == "red.bold"@,
{
}

/// The colored line of a mutant says the same as the plain one, in the style of
/// its outcome.
pub proof fn law_colored_lines_show_the_mutant(index: int, total: int, summary: MutantDisplay)
    ensures
        shows(
            colored_mutant_line(index, total, summary),
            "  ["@ + decimal::decimal(index + 1) + "/"@ + decimal::decimal(total) + "] "@,
        ),
        shows(
            colored_mutant_line(index, total, summary),
            styled(status_icon(summary.status), status_style(summary.status)) + " "@ + styled(
                padded(status_tag(summary.status), 10),
                status_style(summary.status),
            ),
        ),
        shows(
            colored_mutant_line(index, total, summary),
            summary.file_path@ + ":"@ + decimal::decimal(summary.line as int),
        ),
        shows(colored_mutant_line(index, total, summary), summary.mutator_name@),
        shows(
            colored_mutant_line(index, total, summary),
            summary.original_text@ + "` -> `"@ + summary.mutated_text@,
        ),
        shows(
            colored_mutant_line(index, total, summary),
            "("@ + decimal::decimal(summary.duration.millis()) + "ms)"@,
        ),
{
    broadcast use lemma_shown_in_both;

    let all = colored_mutant_line(index, total, summary);
    let style = status_style(summary.status);
    let count = "  ["@ + decimal::decimal(index + 1) + "/"@ + decimal::decimal(total) + "] "@;
    let icon = styled(status_icon(summary.status), style);
    let tag = styled(padded(status_tag(summary.status), 10), style);
    let place = summary.file_path@ + ":"@ + decimal::decimal(summary.line as int);
    let name = styled(summary.mutator_name@, "dim"@);
    let time = "("@ + decimal::decimal(summary.duration.millis()) + "ms)"@;
    lemma_shows(count, Seq::empty(), count, Seq::empty());
    lemma_row_is_shown(count, icon, " "@, tag);
    let start = count + icon + " "@ + tag + " "@ + styled(place, "cyan"@) + "  "@ + name + "  `"@;
    lemma_row_is_shown(start, summary.original_text@, "` -> `"@, summary.mutated_text@);
    law_styles_keep_the_text(place, "cyan"@, Double { bits: 0 });
    law_styles_keep_the_text(summary.mutator_name@, "dim"@, Double { bits: 0 });
    law_styles_keep_the_text(time, "dim"@, Double { bits: 0 });
    lemma_shown_within(all, styled(place, "cyan"@), place);
    lemma_shown_within(all, name, summary.mutator_name@);
    lemma_shown_within(all, styled(time, "dim"@), time);
}

/// The banner shows the name and the version of the program.
pub proof fn law_banners_show_the_version()
    ensures
        banner(false) == "fest v"@ + "0.1.0"@ + " — mutation testing for Python"@,
        shows(banner(true), styled("v"@ + "0.1.0"@, "dim"@)),
{
    lemma_shows(
        banner(true),
        styled("fest"@, "cyan.bold"@) + " "@,
        styled("v"@ + VERSION@, "dim"@),
        " — mutation testing for Python"@,
    );
}

} // verus!
