//! The `[tool.fest]` section in the text of a `pyproject.toml`.
//!
//! The section is replaced line by line, so that all else in the file keeps
//! its comments and its layout.
use crate::lines;
use crate::text;
use crate::text::texts;
use crate::toml_text;
use crate::toml_text::Toml;
use vstd::prelude::*;

verus! {

/// Whether a document has a `[tool.fest]` section.
pub open spec fn holds_section(document: Toml) -> bool {
    match toml_text::lookup(document, "tool"@) {
        Some(tool) => toml_text::lookup(tool, "fest"@) is Some,
        None => false,
    }
}

/// Whether a text has a `[tool.fest]` section. One that is not TOML has none.
pub open spec fn sets_section(content: Seq<char>) -> bool {
    match toml_text::parsed_toml(content) {
        Some(document) => holds_section(document),
        None => false,
    }
}

/// Whether a TOML document has a `[tool.fest]` section.
pub fn document_has_fest_section(document: &Toml) -> (r: bool)
    ensures
        r == holds_section(*document),
{
    match toml_text::find(document, "tool") {
        Some(tool) => toml_text::find(tool, "fest").is_some(),
        None => false,
    }
}

/// Whether a text has a `[tool.fest]` section.
pub fn text_has_fest_section(content: &str) -> (r: bool)
    ensures
        r == sets_section(content@),
{
    match toml_text::parse_toml(content) {
        Some(document) => document_has_fest_section(&document),
        None => false,
    }
}

/// Whether a line opens a table: it starts with a bracket and is TOML by
/// itself.
pub open spec fn is_header(line: Seq<char>) -> bool {
    &&& lines::trim_start(line).len() > 0
    &&& lines::trim_start(line)[0] == '['
    &&& toml_text::parsed_toml(line + "\n"@) is Some
}

/// Whether a line is empty or a comment.
pub open spec fn is_remark(line: Seq<char>) -> bool {
    lines::trim_start(line).len() == 0 || lines::trim_start(line)[0] == '#'
}

/// Whether nothing but empty lines and comments stands before the header of
/// another section.
pub open spec fn leads_away(list: Seq<Seq<char>>) -> bool
    decreases list.len(),
{
    if list.len() == 0 {
        false
    } else if is_remark(list[0]) {
        leads_away(list.drop_first())
    } else {
        is_header(list[0]) && !sets_section(list[0] + "\n"@)
    }
}

/// Whether a line belongs to the section, under the header that is in force:
/// the header opens it, or the line sets a part of it.
pub open spec fn in_section(header: Seq<char>, line: Seq<char>) -> bool {
    sets_section(header + "\n"@) || sets_section(header + "\n"@ + line + "\n"@)
}

/// The header in force on a line, after one that was in force before it.
pub open spec fn header_at(header: Seq<char>, line: Seq<char>) -> Seq<char> {
    if is_header(line) {
        line
    } else {
        header
    }
}

/// Whether the first line of a list goes with the section. Comments that lead
/// to another section stay.
pub open spec fn goes(list: Seq<Seq<char>>, header: Seq<char>) -> bool {
    in_section(header, list[0]) && !(is_remark(list[0]) && leads_away(list))
}

/// The lines outside of the section, of a list that starts under a header.
pub open spec fn outside_lines(list: Seq<Seq<char>>, header: Seq<char>) -> Seq<Seq<char>>
    decreases list.len(),
{
    if list.len() == 0 {
        Seq::empty()
    } else {
        let now = header_at(header, list[0]);
        let rest = outside_lines(list.drop_first(), now);
        if goes(list, now) {
            rest
        } else {
            seq![list[0]] + rest
        }
    }
}

/// A text without the newlines at its end.
pub open spec fn without_newlines(s: Seq<char>) -> Seq<char>
    decreases s.len(),
{
    if s.len() > 0 && s.last() == '\n' {
        without_newlines(s.drop_last())
    } else {
        s
    }
}

/// A text without its `[tool.fest]` section, and without newlines at its end.
pub open spec fn outside(content: Seq<char>) -> Seq<char> {
    without_newlines(lines::join(outside_lines(lines::split(content, '\n'), ""@), "\n"@))
}

/// A text with its `[tool.fest]` section replaced: the new one stands at the
/// end, after an empty line where anything is before it.
pub open spec fn with_section(content: Seq<char>, section: Seq<char>) -> Seq<char> {
    if outside(content).len() == 0 {
        section
    } else {
        outside(content) + "\n\n"@ + section
    }
}

/// Whether a line is empty or a comment.
fn line_is_remark(line: &str) -> (r: bool)
    ensures
        r == is_remark(line@),
{
    let list: Vec<char> = lines::chars(line);
    let at: usize = lines::skip_white(&list);
    at >= list.len() || list[at] == '#'
}

/// A line with the newline that ends it.
fn ended(line: &str) -> (r: String)
    ensures
        r@ == line@ + "\n"@,
{
    let mut out: String = line.to_owned();
    out.append("\n");
    out
}

/// Whether a line opens a table.
fn line_is_header(line: &str) -> (r: bool)
    ensures
        r == is_header(line@),
{
    let list: Vec<char> = lines::chars(line);
    let at: usize = lines::skip_white(&list);
    at < list.len() && list[at] == '[' && toml_text::parse_toml(ended(line).as_str()).is_some()
}

/// Whether nothing but empty lines and comments stands from a place on, before
/// the header of another section.
fn list_leads_away(list: &Vec<String>, from: usize) -> (r: bool)
    requires
        from <= list@.len(),
    ensures
        r == leads_away(texts(list@).skip(from as int)),
{
    let ghost all = texts(list@);
    let mut i: usize = from;
    while i < list.len()
        invariant
            from <= i <= list@.len(),
            all == texts(list@),
            leads_away(all.skip(from as int)) == leads_away(all.skip(i as int)),
        decreases list.len() - i,
    {
        let line: &str = list[i].as_str();
        assert(all.skip(i as int)[0] == line@);
        assert(all.skip(i as int).drop_first() =~= all.skip(i + 1));
        if !line_is_remark(line) {
            return line_is_header(line) && !text_has_fest_section(ended(line).as_str());
        }
        i = i + 1;
    }
    false
}

/// Whether a line belongs to the section, under the header that is in force.
fn line_in_section(header: &str, line: &str) -> (r: bool)
    ensures
        r == in_section(header@, line@),
{
    if text_has_fest_section(ended(header).as_str()) {
        return true;
    }
    text_has_fest_section(text::cat4(header, "\n", line, "\n").as_str())
}

/// The lines outside of the section.
fn keep_outside(list: &Vec<String>) -> (r: Vec<String>)
    ensures
        texts(r@) == outside_lines(texts(list@), ""@),
{
    let ghost all = texts(list@);
    let mut out: Vec<String> = Vec::new();
    let mut header: String = "".to_owned();
    let mut i: usize = 0;
    assert(all.skip(0) =~= all);
    assert(texts(out@) + outside_lines(all, ""@) =~= outside_lines(all, ""@));
    while i < list.len()
        invariant
            i <= list@.len(),
            all == texts(list@),
            texts(out@) + outside_lines(all.skip(i as int), header@) == outside_lines(all, ""@),
        decreases list.len() - i,
    {
        let line: &str = list[i].as_str();
        let ghost left = all.skip(i as int);
        assert(left[0] == line@);
        assert(left.drop_first() =~= all.skip(i + 1));
        if line_is_header(line) {
            header = line.to_owned();
        }
        let gone: bool = line_in_section(header.as_str(), line) && !(line_is_remark(line)
            && list_leads_away(list, i));
        if !gone {
            let ghost before = texts(out@);
            out.push(line.to_owned());
            assert(texts(out@) =~= before.push(line@));
            assert(before + (seq![line@] + outside_lines(all.skip(i + 1), header@)) =~= texts(out@)
                + outside_lines(all.skip(i + 1), header@));
        }
        i = i + 1;
    }
    assert(texts(out@) + outside_lines(all.skip(i as int), header@) =~= texts(out@));
    out
}

/// A text without the newlines at its end.
fn strip_newlines(s: &str) -> (r: String)
    ensures
        r@ == without_newlines(s@),
{
    let list: Vec<char> = lines::chars(s);
    let mut n: usize = list.len();
    assert(list@.take(n as int) =~= list@);
    while n > 0 && list[n - 1] == '\n'
        invariant
            n <= list@.len(),
            without_newlines(list@.take(n as int)) == without_newlines(list@),
        decreases n,
    {
        assert(list@.take(n as int).drop_last() =~= list@.take(n - 1));
        n = n - 1;
    }
    assert(list@.take(n as int) =~= list@.subrange(0, n as int));
    lines::text_of(&list, 0, n)
}

/// The text without its `[tool.fest]` section.
pub fn remove_section(content: &str) -> (r: String)
    ensures
        r@ == outside(content@),
{
    let kept: Vec<String> = keep_outside(&lines::split_text(content, '\n'));
    assert(texts(kept@).take(kept@.len() as int) =~= texts(kept@));
    strip_newlines(lines::join_texts(&kept, kept.len(), "\n").as_str())
}

/// The entries of a table. Other values have none.
pub open spec fn entries_of(value: Option<Toml>) -> Seq<(String, Toml)> {
    match value {
        Some(Toml::Table(entries)) => entries@,
        _ => Seq::empty(),
    }
}

/// Whether two documents are the same but for the `[tool.fest]` section.
pub open spec fn agree_outside(a: Toml, b: Toml) -> bool {
    &&& toml_text::same_table(entries_of(Some(a)), entries_of(Some(b)), Some("tool"@))
    &&& toml_text::same_table(
        entries_of(toml_text::lookup(a, "tool"@)),
        entries_of(toml_text::lookup(b, "tool"@)),
        Some("fest"@),
    )
}

/// Whether the section can be replaced: without its lines the text is TOML,
/// has no section, and says the same as before of all else.
pub open spec fn is_replaceable(content: Seq<char>) -> bool {
    match (toml_text::parsed_toml(content), toml_text::parsed_toml(outside(content))) {
        (Some(whole), Some(rest)) => !holds_section(rest) && agree_outside(whole, rest),
        _ => false,
    }
}

/// Whether two tables, where they are tables, are the same but for one name.
fn tables_agree(a: Option<&Toml>, b: Option<&Toml>, but: &str) -> (r: bool)
    ensures
        r == toml_text::same_table(
            entries_of(match a {
                Some(value) => Some(*value),
                None => None,
            }),
            entries_of(match b {
                Some(value) => Some(*value),
                None => None,
            }),
            Some(but@),
        ),
{
    let none: Vec<(String, Toml)> = Vec::new();
    assert(none@ =~= Seq::empty());
    let first: &Vec<(String, Toml)> = match a {
        Some(Toml::Table(entries)) => entries,
        _ => &none,
    };
    let second: &Vec<(String, Toml)> = match b {
        Some(Toml::Table(entries)) => entries,
        _ => &none,
    };
    toml_text::is_same_table(first, second, Some(but))
}

/// Replace the `[tool.fest]` section in the text of a `pyproject.toml`, unless
/// it cannot be told from the rest line by line.
pub fn replace_section(content: &str, section: &str) -> (r: Option<String>)
    ensures
        r is Some <==> is_replaceable(content@),
        r matches Some(new) ==> new@ == with_section(content@, section@),
{
    let rest: String = remove_section(content);
    let before: Toml = match toml_text::parse_toml(content) {
        Some(document) => document,
        None => return None,
    };
    let after: Toml = match toml_text::parse_toml(rest.as_str()) {
        Some(document) => document,
        None => return None,
    };
    if document_has_fest_section(&after) || !tables_agree(Some(&before), Some(&after), "tool")
        || !tables_agree(
        toml_text::find(&before, "tool"),
        toml_text::find(&after, "tool"),
        "fest",
    ) {
        return None;
    }
    if rest.as_str().unicode_len() == 0 {
        return Some(section.to_owned());
    }
    Some(text::cat3(rest.as_str(), "\n\n", section))
}

/// The last header among lines, or the one that was there before them.
pub open spec fn last_header(list: Seq<Seq<char>>, header: Seq<char>) -> Seq<char>
    decreases list.len(),
{
    if list.len() == 0 {
        header
    } else if is_header(list.last()) {
        list.last()
    } else {
        last_header(list.drop_last(), header)
    }
}

proof fn lemma_last_header(list: Seq<Seq<char>>, header: Seq<char>)
    requires
        list.len() > 0,
    ensures
        last_header(list, header) == last_header(list.drop_first(), header_at(header, list[0])),
    decreases list.len(),
{
    let rest = list.drop_first();
    if list.len() == 1 {
        assert(list.last() == list[0]);
        assert(list.drop_last() =~= Seq::<Seq<char>>::empty());
        assert(rest =~= Seq::<Seq<char>>::empty());
        assert(last_header(list.drop_last(), header) == header);
    } else if !is_header(list.last()) {
        lemma_last_header(list.drop_last(), header);
        assert(rest.last() == list.last());
        assert(list.drop_last().drop_first() =~= rest.drop_last());
        assert(list.drop_last()[0] == list[0]);
    } else {
        assert(rest.last() == list.last());
    }
}

proof fn lemma_leads_away_is_decided(a: Seq<Seq<char>>, b: Seq<Seq<char>>)
    requires
        a.len() > 0,
        !is_remark(a.last()),
    ensures
        leads_away(a + b) == leads_away(a),
    decreases a.len(),
{
    assert((a + b)[0] == a[0]);
    if is_remark(a[0]) {
        let rest = a.drop_first();
        assert(a.len() > 1);
        assert(rest.last() == a.last());
        lemma_leads_away_is_decided(rest, b);
        assert((a + b).drop_first() =~= rest + b);
    }
}

/// What is left of two runs of lines is what is left of the first, and then what
/// is left of the second under the last header of the first. The first ends
/// with a line that is no remark, since remarks go with what follows them.
pub proof fn law_lines_are_left_run_by_run(
    a: Seq<Seq<char>>,
    b: Seq<Seq<char>>,
    header: Seq<char>,
)
    requires
        a.len() > 0,
        !is_remark(a.last()),
    ensures
        outside_lines(a + b, header) == outside_lines(a, header) + outside_lines(
            b,
            last_header(a, header),
        ),
    decreases a.len(),
{
    let now = header_at(header, a[0]);
    assert((a + b)[0] == a[0]);
    lemma_leads_away_is_decided(a, b);
    lemma_last_header(a, header);
    let rest = a.drop_first();
    assert((a + b).drop_first() =~= rest + b);
    if a.len() == 1 {
        assert(rest =~= Seq::<Seq<char>>::empty());
        assert(rest + b =~= b);
        assert(outside_lines(rest, now) =~= Seq::<Seq<char>>::empty());
        assert(last_header(rest, now) == now);
    } else {
        assert(rest.last() == a.last());
        law_lines_are_left_run_by_run(rest, b, now);
    }
    assert(outside_lines(a + b, header) =~= outside_lines(a, header) + outside_lines(
        b,
        last_header(a, header),
    ));
}

/// One line that is no remark is left exactly when neither its header nor it
/// makes the section.
pub proof fn law_a_line_outside_is_left(line: Seq<char>, header: Seq<char>)
    requires
        !is_remark(line),
    ensures
        ({
            let under = if is_header(line) {
                line
            } else {
                header
            };
            let inside = sets_section(under + "\n"@) || sets_section(
                under + "\n"@ + line + "\n"@,
            );
            &&& inside ==> outside_lines(seq![line], header).len() == 0
            &&& !inside ==> outside_lines(seq![line], header) == seq![line]
        }),
{
    let list = seq![line];
    assert(list[0] == line);
    assert(list.drop_first() =~= Seq::<Seq<char>>::empty());
    assert(outside_lines(list.drop_first(), header_at(header, line)) =~= Seq::<Seq<char>>::empty());
    assert(outside_lines(list, header) =~= if in_section(header_at(header, line), line) {
        Seq::empty()
    } else {
        seq![line]
    });
}

/// Remarks inside the section go with it, unless a header that does not belong
/// to it follows them; remarks outside stay.
pub proof fn law_remarks_go_with_what_follows(
    remark: Seq<char>,
    line: Seq<char>,
    header: Seq<char>,
)
    requires
        is_remark(remark),
        !is_header(remark),
        !is_remark(line),
    ensures
        outside_lines(seq![remark] + seq![line], header) == (if in_section(header, remark) && !(
        is_header(line) && !sets_section(line + "\n"@)) {
            Seq::empty()
        } else {
            seq![remark]
        }) + outside_lines(seq![line], header),
{
    let list = seq![remark] + seq![line];
    assert(list[0] == remark);
    assert(list.drop_first() =~= seq![line]);
    assert(seq![line][0] == line);
    assert(leads_away(seq![line]) == (is_header(line) && !sets_section(line + "\n"@)));
    assert(leads_away(list) == leads_away(seq![line]));
    assert(outside_lines(list, header) =~= (if in_section(header, remark) && !(is_header(line)
        && !sets_section(line + "\n"@)) {
        Seq::empty()
    } else {
        seq![remark]
    }) + outside_lines(seq![line], header));
}

/// Line feeds are taken from the end of a text, all of them and nothing else.
pub proof fn law_line_feeds_are_taken_from_the_end(s: Seq<char>)
    ensures
        without_newlines(s.push('\n')) == without_newlines(s),
        s.len() == 0 || s.last() != '\n' ==> without_newlines(s) == s,
{
    assert(s.push('\n').drop_last() =~= s);
}

/// The section is put behind what is left of the file, with an empty line
/// between them, or stands alone where nothing is left.
pub proof fn law_the_section_comes_last(content: Seq<char>, section: Seq<char>)
    ensures
        outside(content).len() == 0 ==> with_section(content, section) == section,
        outside(content).len() > 0 ==> with_section(content, section) == outside(content)
            + "\n\n"@ + section && outside(content).last() != '\n',
{
    let s = lines::join(outside_lines(lines::split(content, '\n'), ""@), "\n"@);
    lemma_no_feed_at_the_end(s);
}

proof fn lemma_no_feed_at_the_end(s: Seq<char>)
    ensures
        without_newlines(s).len() > 0 ==> without_newlines(s).last() != '\n',
    decreases s.len(),
{
    if s.len() > 0 && s.last() == '\n' {
        lemma_no_feed_at_the_end(s.drop_last());
    }
}

/// A document holds the section if its table `tool` has an entry `fest`.
pub proof fn law_sections_are_found(document: Toml, tool: Toml)
    ensures
        toml_text::lookup(document, "tool"@) is None ==> !holds_section(document),
        toml_text::lookup(document, "tool"@) == Some(tool) ==> (holds_section(document)
            <==> toml_text::lookup(tool, "fest"@) is Some),
        forall|content: Seq<char>|
            toml_text::parsed_toml(content) == Some(document) ==> (#[trigger] sets_section(content)
                <==> holds_section(document)),
        forall|content: Seq<char>|
            toml_text::parsed_toml(content) is None ==> !#[trigger] sets_section(content),
{
}

/// A section can be replaced if the file parses without it, has none then, and
/// says the same as before of everything else.
pub proof fn law_replacing_keeps_everything_else(content: Seq<char>, whole: Toml, rest: Toml)
    requires
        toml_text::parsed_toml(content) == Some(whole),
        toml_text::parsed_toml(outside(content)) == Some(rest),
    ensures
        is_replaceable(content) ==> !holds_section(rest) && agree_outside(whole, rest),
        holds_section(rest) ==> !is_replaceable(content),
        !agree_outside(whole, rest) ==> !is_replaceable(content),
        !holds_section(rest) && agree_outside(whole, rest) ==> is_replaceable(content),
{
}

} // verus!
