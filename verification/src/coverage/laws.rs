//! What holds of coverage data, whichever way it was recorded.
use crate::coverage::json_parser::{
    field, file_lines, files_coverage, files_in, json_coverage, lines_of, named, report_files,
    with_file_lines, FileView, LineView,
};
use crate::coverage::map::tests_at;
use crate::coverage::sqlite_reader::{
    arc_coverage, attribution, bit_set, context_table, decoded, ends_with, file_table,
    law_arc_tests_are_sorted_once, law_decoded_lines_increase, law_numbits_hold_the_set_lines,
    line_bits_coverage, stripped, with_arc_end, with_lines, ArcRow, LineBitsRow, NameRow,
};
use crate::json::{law_the_first_member_is_found, list_items, object_members, string_lists};
use crate::numbers::{u32_value, NumberProblem};
use crate::order;
use crate::paths;
use vstd::prelude::*;

verus! {

/// The ids of a table of names are those of its rows, and each stands for the
/// name in the last row with it, seen from the project directory.
pub proof fn law_file_table_has_every_row(rows: Seq<NameRow>, project: Seq<char>, id: i64, k: int)
    ensures
        file_table(rows, project).contains_key(id) <==> exists|i: int|
            0 <= i < rows.len() && (#[trigger] rows[i]).id == id,
        0 <= k < rows.len() && rows[k].id == id && (forall|j: int|
            k < j < rows.len() ==> (#[trigger] rows[j]).id != id) ==> file_table(rows, project)[id]
            == paths::joined(project, rows[k].name@),
    decreases rows.len(),
{
    if rows.len() > 0 {
        let rest = rows.drop_last();
        law_file_table_has_every_row(rest, project, id, k);
        assert(rows[rows.len() - 1] == rows.last());
        if exists|i: int| 0 <= i < rest.len() && (#[trigger] rest[i]).id == id {
            let i = choose|i: int| 0 <= i < rest.len() && (#[trigger] rest[i]).id == id;
            assert(rows[i].id == id);
        }
        if exists|i: int| 0 <= i < rows.len() && (#[trigger] rows[i]).id == id {
            let i = choose|i: int| 0 <= i < rows.len() && (#[trigger] rows[i]).id == id;
            if i < rest.len() {
                assert(rest[i].id == id);
            }
        }
        if 0 <= k < rest.len() && rows[k].id == id && (forall|j: int|
            k < j < rows.len() ==> (#[trigger] rows[j]).id != id) {
            assert(rest[k] == rows[k]);
            assert forall|j: int| k < j < rest.len() implies (#[trigger] rest[j]).id != id by {
                assert(rest[j] == rows[j]);
            }
            assert(rows[rows.len() - 1].id != id);
        }
    }
}

/// With distinct ids, every row of the `file` table has its entry.
pub proof fn law_file_table_with_distinct_ids(rows: Seq<NameRow>, project: Seq<char>, i: int)
    requires
        0 <= i < rows.len(),
        forall|a: int, b: int|
            0 <= a < b < rows.len() ==> (#[trigger] rows[a]).id != (#[trigger] rows[b]).id,
    ensures
        file_table(rows, project).contains_key(rows[i].id),
        file_table(rows, project)[rows[i].id] == paths::joined(project, rows[i].name@),
{
    law_file_table_has_every_row(rows, project, rows[i].id, i);
}

/// The ids of the `context` table are those of its rows, and each stands for
/// the name in the last row with it, without the phase of the test.
pub proof fn law_context_table_has_every_row(rows: Seq<NameRow>, id: i64, k: int)
    ensures
        context_table(rows).contains_key(id) <==> exists|i: int|
            0 <= i < rows.len() && (#[trigger] rows[i]).id == id,
        0 <= k < rows.len() && rows[k].id == id && (forall|j: int|
            k < j < rows.len() ==> (#[trigger] rows[j]).id != id) ==> context_table(rows)[id]
            == stripped(rows[k].name@),
    decreases rows.len(),
{
    if rows.len() > 0 {
        let rest = rows.drop_last();
        law_context_table_has_every_row(rest, id, k);
        assert(rows[rows.len() - 1] == rows.last());
        if exists|i: int| 0 <= i < rest.len() && (#[trigger] rest[i]).id == id {
            let i = choose|i: int| 0 <= i < rest.len() && (#[trigger] rest[i]).id == id;
            assert(rows[i].id == id);
        }
        if exists|i: int| 0 <= i < rows.len() && (#[trigger] rows[i]).id == id {
            let i = choose|i: int| 0 <= i < rows.len() && (#[trigger] rows[i]).id == id;
            if i < rest.len() {
                assert(rest[i].id == id);
            }
        }
        if 0 <= k < rest.len() && rows[k].id == id && (forall|j: int|
            k < j < rows.len() ==> (#[trigger] rows[j]).id != id) {
            assert(rest[k] == rows[k]);
            assert forall|j: int| k < j < rest.len() implies (#[trigger] rest[j]).id != id by {
                assert(rest[j] == rows[j]);
            }
            assert(rows[rows.len() - 1].id != id);
        }
    }
}

/// A context loses the phase that it ends with, `|run`, `|setup` or
/// `|teardown`, and nothing else.
pub proof fn law_contexts_lose_their_phase(test: Seq<char>)
    ensures
        stripped(test + "|run"@) == test,
        stripped(test + "|setup"@) == test,
        stripped(test + "|teardown"@) == test,
        !ends_with(test, "|run"@) && !ends_with(test, "|setup"@) && !ends_with(test, "|teardown"@)
            ==> stripped(test) == test,
        forall|tail: Seq<char>|
            ends_with(#[trigger] (test + tail), tail),
{
    reveal_strlit("|run");
    reveal_strlit("|setup");
    reveal_strlit("|teardown");
    let n = test.len() as int;
    assert forall|tail: Seq<char>| ends_with(#[trigger] (test + tail), tail) by {
        assert((test + tail).skip(n) =~= tail);
    }
    let run = test + "|run"@;
    let setup = test + "|setup"@;
    let teardown = test + "|teardown"@;
    assert(ends_with(run, "|run"@));
    assert(run.take(n) =~= test);
    assert(setup.skip(n + 2)[0] == 'e');
    assert("|run"@[0] == '|');
    assert(!ends_with(setup, "|run"@));
    assert(ends_with(setup, "|setup"@));
    assert(setup.take(n) =~= test);
    assert(teardown.skip(n + 5)[0] == 'd');
    assert(!ends_with(teardown, "|run"@));
    assert(teardown.skip(n + 3)[0] == 'a');
    assert("|setup"@[0] == '|');
    assert(!ends_with(teardown, "|setup"@));
    assert(ends_with(teardown, "|teardown"@));
    assert(teardown.take(n) =~= test);
}

/// Whether a row says that a test covers a line of a file.
pub open spec fn row_covers(
    row: LineBitsRow,
    files: Map<i64, Seq<char>>,
    contexts: Map<i64, Seq<char>>,
    key: (Seq<u16>, u32),
) -> bool {
    &&& files.contains_key(row.file_id)
    &&& contexts.contains_key(row.context_id)
    &&& contexts[row.context_id].len() > 0
    &&& paths::path_key(files[row.file_id]) == key.0
    &&& key.1 / 8 < row.numbits@.len()
    &&& row.numbits@[(key.1 / 8) as int] & (1u8 << ((key.1 % 8) as u8)) != 0
}

/// The test of a row that covers a line.
pub open spec fn row_test(
    row: LineBitsRow,
    files: Map<i64, Seq<char>>,
    contexts: Map<i64, Seq<char>>,
    key: (Seq<u16>, u32),
) -> Option<Seq<char>> {
    if row_covers(row, files, contexts, key) {
        Some(contexts[row.context_id])
    } else {
        None
    }
}

/// Adding a test to lines of a file adds it once to each of them, at the end,
/// and changes no other line.
proof fn lemma_with_lines(
    map: Map<(Seq<u16>, u32), Seq<Seq<char>>>,
    file: Seq<u16>,
    list: Seq<u32>,
    test: Seq<char>,
    key: (Seq<u16>, u32),
)
    requires
        list.no_duplicates(),
    ensures
        tests_at(with_lines(map, file, list, test), key) == if key.0 == file && list.contains(
            key.1,
        ) {
            tests_at(map, key).push(test)
        } else {
            tests_at(map, key)
        },
        with_lines(map, file, list, test).contains_key(key) <==> map.contains_key(key) || key.0
            == file && list.contains(key.1),
    decreases list.len(),
{
    if list.len() > 0 {
        let rest = list.drop_last();
        assert forall|i: int, j: int|
            0 <= i < rest.len() && 0 <= j < rest.len() && i != j implies rest[i] != rest[j] by {
            assert(list[i] != list[j]);
        }
        lemma_with_lines(map, file, rest, test, key);
        assert(list[list.len() - 1] == list.last());
        if list.contains(key.1) && key.1 != list.last() {
            let i = choose|i: int| 0 <= i < list.len() && list[i] == key.1;
            assert(rest[i] == key.1);
        }
        if rest.contains(key.1) {
            let i = choose|i: int| 0 <= i < rest.len() && rest[i] == key.1;
            assert(list[i] == key.1);
            assert(list[i] != list[list.len() - 1]);
        }
    }
}

/// The tests of a line are those of the rows that say that they cover it, in
/// the order of the rows, and a line without any is not in the map.
pub proof fn law_rows_cover_their_lines(
    rows: Seq<LineBitsRow>,
    files: Map<i64, Seq<char>>,
    contexts: Map<i64, Seq<char>>,
    key: (Seq<u16>, u32),
)
    ensures
        tests_at(line_bits_coverage(rows, files, contexts), key) == rows.filter_map(
            |row: LineBitsRow| row_test(row, files, contexts, key),
        ),
        line_bits_coverage(rows, files, contexts).contains_key(key) <==> exists|i: int|
            0 <= i < rows.len() && row_covers(#[trigger] rows[i], files, contexts, key),
    decreases rows.len(),
{
    let f = |row: LineBitsRow| row_test(row, files, contexts, key);
    let map = line_bits_coverage(rows, files, contexts);
    if rows.len() == 0 {
        assert(rows.filter_map(f) =~= Seq::empty());
    } else {
        let rest = rows.drop_last();
        let row = rows.last();
        let init = line_bits_coverage(rest, files, contexts);
        law_rows_cover_their_lines(rest, files, contexts, key);
        let lines = decoded(row.numbits@);
        law_numbits_hold_the_set_lines(row.numbits@, key.1);
        assert forall|i: int, j: int|
            0 <= i < lines.len() && 0 <= j < lines.len() && i != j implies lines[i] != lines[j] by {
            if i < j {
                law_decoded_lines_increase(row.numbits@, i, j);
            } else {
                law_decoded_lines_increase(row.numbits@, j, i);
            }
        }
        if let Some((file, test)) = attribution(row.file_id, row.context_id, files, contexts) {
            lemma_with_lines(init, file, lines, test, key);
        }
        assert(bit_set(row.numbits@[(key.1 / 8) as int], (key.1 % 8) as u8) <==> row.numbits@[(
        key.1 / 8) as int] & (1u8 << ((key.1 % 8) as u8)) != 0);
        assert(rows[rows.len() - 1] == row);
        if row_covers(row, files, contexts, key) {
            assert(f(row) == Some(contexts[row.context_id]));
            assert(rows.filter_map(f) =~= rest.filter_map(f).push(contexts[row.context_id]));
        } else {
            assert(f(row) is None);
        }
        if exists|i: int|
            0 <= i < rest.len() && row_covers(#[trigger] rest[i], files, contexts, key) {
            let i = choose|i: int|
                0 <= i < rest.len() && row_covers(#[trigger] rest[i], files, contexts, key);
            assert(row_covers(rows[i], files, contexts, key));
        }
        if exists|i: int|
            0 <= i < rows.len() && row_covers(#[trigger] rows[i], files, contexts, key) {
            let i = choose|i: int|
                0 <= i < rows.len() && row_covers(#[trigger] rows[i], files, contexts, key);
            if i < rest.len() {
                assert(row_covers(rest[i], files, contexts, key));
            }
        }
    }
}

/// Whether an arc of a file starts or ends on a line, and was run by a test.
pub open spec fn arc_touches(
    row: ArcRow,
    files: Map<i64, Seq<char>>,
    contexts: Map<i64, Seq<char>>,
    key: (Seq<u16>, u32),
    test: Seq<char>,
) -> bool {
    &&& files.contains_key(row.file_id)
    &&& contexts.contains_key(row.context_id)
    &&& contexts[row.context_id] == test
    &&& test.len() > 0
    &&& paths::path_key(files[row.file_id]) == key.0
    &&& {
        ||| row.fromno > 0 && row.fromno as int % 0x1_0000_0000 == key.1
        ||| row.tono > 0 && row.tono as int % 0x1_0000_0000 == key.1
    }
}

proof fn lemma_arc_end(
    map: Map<(Seq<u16>, u32), Seq<Seq<char>>>,
    file: Seq<u16>,
    line: i64,
    test: Seq<char>,
    key: (Seq<u16>, u32),
    x: Seq<char>,
)
    requires
        forall|k: (Seq<u16>, u32)| order::strictly_sorted(#[trigger] tests_at(map, k)),
    ensures
        tests_at(with_arc_end(map, file, line, test), key).contains(x) <==> tests_at(
            map,
            key,
        ).contains(x) || key.0 == file && line > 0 && line as int % 0x1_0000_0000 == key.1 && x
            == test,
        forall|k: (Seq<u16>, u32)|
            order::strictly_sorted(#[trigger] tests_at(with_arc_end(map, file, line, test), k)),
{
    let at = (file, (line % 0x1_0000_0000) as u32);
    let after = with_arc_end(map, file, line, test);
    if line > 0 {
        assert(order::strictly_sorted(tests_at(map, at)));
        order::law_insertion_keeps_order(tests_at(map, at), test);
        assert(tests_at(after, at) == order::with_sorted(tests_at(map, at), test));
        assert forall|k: (Seq<u16>, u32)| order::strictly_sorted(
            #[trigger] tests_at(after, k),
        ) by {
            if k != at {
                assert(tests_at(after, k) == tests_at(map, k));
                assert(order::strictly_sorted(tests_at(map, k)));
            }
        }
        if key == at {
        } else {
            assert(tests_at(after, key) == tests_at(map, key));
        }
    }
}

/// A test covers the lines on which the arcs that it ran start and end, and no
/// others.
pub proof fn law_arcs_cover_their_ends(
    rows: Seq<ArcRow>,
    files: Map<i64, Seq<char>>,
    contexts: Map<i64, Seq<char>>,
    key: (Seq<u16>, u32),
    test: Seq<char>,
)
    ensures
        tests_at(arc_coverage(rows, files, contexts), key).contains(test) <==> exists|i: int|
            0 <= i < rows.len() && arc_touches(#[trigger] rows[i], files, contexts, key, test),
    decreases rows.len(),
{
    if rows.len() > 0 {
        let rest = rows.drop_last();
        let row = rows.last();
        let init = arc_coverage(rest, files, contexts);
        law_arcs_cover_their_ends(rest, files, contexts, key, test);
        assert forall|k: (Seq<u16>, u32)| order::strictly_sorted(#[trigger] tests_at(init, k)) by {
            law_arc_tests_are_sorted_once(rest, files, contexts, k);
        }
        if let Some((file, t)) = attribution(row.file_id, row.context_id, files, contexts) {
            lemma_arc_end(init, file, row.fromno, t, key, test);
            let mid = with_arc_end(init, file, row.fromno, t);
            lemma_arc_end(mid, file, row.tono, t, key, test);
        }
        assert(rows[rows.len() - 1] == row);
        if exists|i: int|
            0 <= i < rest.len() && arc_touches(#[trigger] rest[i], files, contexts, key, test) {
            let i = choose|i: int|
                0 <= i < rest.len() && arc_touches(#[trigger] rest[i], files, contexts, key, test);
            assert(arc_touches(rows[i], files, contexts, key, test));
        }
        if exists|i: int|
            0 <= i < rows.len() && arc_touches(#[trigger] rows[i], files, contexts, key, test) {
            let i = choose|i: int|
                0 <= i < rows.len() && arc_touches(#[trigger] rows[i], files, contexts, key, test);
            if i < rest.len() {
                assert(arc_touches(rest[i], files, contexts, key, test));
            }
        }
    } else {
        assert(!tests_at(arc_coverage(rows, files, contexts), key).contains(test));
    }
}

/// Of the contexts of a line, those with a name count, in their order.
pub proof fn law_named_contexts_count(contexts: Seq<Seq<char>>)
    ensures
        named(contexts) == contexts.filter(|c: Seq<char>| c != Seq::<char>::empty()),
    decreases contexts.len(),
{
    reveal(Seq::filter);
    if contexts.len() > 0 {
        law_named_contexts_count(contexts.drop_last());
        let last = contexts.last();
        if last.len() == 0 {
            assert(last =~= Seq::<char>::empty());
        }
    }
}

/// Whether a line of a report is told of in a coverage map.
pub open spec fn is_told(
    map: Map<(Seq<u16>, u32), Seq<Seq<char>>>,
    file: Seq<u16>,
    line: LineView,
) -> bool {
    &&& u32_value(line.line) matches Ok(n)
    &&& named(line.contexts).len() > 0 ==> map.contains_key((file, n))
}

/// Whether a coverage map has from a line of a report what it says of a place.
pub open spec fn tells(
    line: LineView,
    file: Seq<u16>,
    key: (Seq<u16>, u32),
    tests: Seq<Seq<char>>,
) -> bool {
    &&& key.0 == file
    &&& u32_value(line.line) == Ok::<u32, NumberProblem>(key.1)
    &&& tests == named(line.contexts)
    &&& tests.len() > 0
}

proof fn lemma_file_lines(
    map: Map<(Seq<u16>, u32), Seq<Seq<char>>>,
    file: Seq<u16>,
    lines: Seq<LineView>,
    key: (Seq<u16>, u32),
)
    ensures
        with_file_lines(map, file, lines) is Ok <==> forall|i: int|
            0 <= i < lines.len() ==> u32_value((#[trigger] lines[i]).line) is Ok,
        with_file_lines(map, file, lines) matches Ok(after) ==> {
            &&& map.contains_key(key) ==> after.contains_key(key)
            &&& forall|i: int| 0 <= i < lines.len() ==> is_told(after, file, #[trigger] lines[i])
            &&& after.contains_key(key) ==> (exists|i: int|
                0 <= i < lines.len() && tells(#[trigger] lines[i], file, key, after[key])) || (
            map.contains_key(key) && after[key] == map[key])
        },
    decreases lines.len(),
{
    if lines.len() > 0 {
        let rest = lines.drop_last();
        let last = lines.last();
        lemma_file_lines(map, file, rest, key);
        assert(lines[lines.len() - 1] == last);
        if with_file_lines(map, file, rest) is Ok && u32_value(last.line) is Ok {
            assert forall|i: int| 0 <= i < lines.len() implies u32_value(
                (#[trigger] lines[i]).line,
            ) is Ok by {
                if i < rest.len() {
                    assert(rest[i] == lines[i]);
                }
            }
        }
        if forall|i: int| 0 <= i < lines.len() ==> u32_value((#[trigger] lines[i]).line) is Ok {
            assert forall|i: int| 0 <= i < rest.len() implies u32_value(
                (#[trigger] rest[i]).line,
            ) is Ok by {
                assert(rest[i] == lines[i]);
            }
        }
        if let Ok(after) = with_file_lines(map, file, lines) {
            let init = with_file_lines(map, file, rest)->Ok_0;
            assert forall|i: int| 0 <= i < lines.len() implies is_told(
                after,
                file,
                #[trigger] lines[i],
            ) by {
                if i < rest.len() {
                    assert(rest[i] == lines[i]);
                    assert(is_told(init, file, rest[i]));
                }
            }
            if after.contains_key(key) {
                let n = u32_value(last.line)->Ok_0;
                if key == (file, n) && named(last.contexts).len() > 0 {
                    assert(tells(lines[lines.len() - 1], file, key, after[key]));
                } else {
                    assert(init.contains_key(key) && after[key] == init[key]);
                    if exists|i: int|
                        0 <= i < rest.len() && tells(#[trigger] rest[i], file, key, init[key]) {
                        let i = choose|i: int|
                            0 <= i < rest.len() && tells(#[trigger] rest[i], file, key, init[key]);
                        assert(tells(lines[i], file, key, after[key]));
                    }
                }
            }
        }
    }
}

/// Whether a coverage map has from a file of a report what it says of a place.
pub open spec fn file_tells(
    file: FileView,
    project: Seq<char>,
    key: (Seq<u16>, u32),
    tests: Seq<Seq<char>>,
) -> bool {
    exists|i: int|
        0 <= i < file.lines.len() && tells(
            #[trigger] file.lines[i],
            paths::path_key(paths::joined(project, file.path)),
            key,
            tests,
        )
}

/// Whether all lines of a file of a report are told of in a coverage map.
pub open spec fn file_is_told(
    map: Map<(Seq<u16>, u32), Seq<Seq<char>>>,
    project: Seq<char>,
    file: FileView,
) -> bool {
    forall|i: int|
        0 <= i < file.lines.len() ==> is_told(
            map,
            paths::path_key(paths::joined(project, file.path)),
            #[trigger] file.lines[i],
        )
}

/// A report becomes a coverage map unless a line number cannot be read. The map
/// tells of every line of every file that has a named test, and has nothing
/// that no line says.
pub proof fn law_reports_cover_their_lines(
    files: Seq<FileView>,
    project: Seq<char>,
    key: (Seq<u16>, u32),
)
    ensures
        files_coverage(files, project) is Ok <==> forall|i: int, j: int|
            0 <= i < files.len() && 0 <= j < files[i].lines.len() ==> u32_value(
                (#[trigger] files[i].lines[j]).line,
            ) is Ok,
        files_coverage(files, project) matches Ok(map) ==> {
            &&& forall|i: int|
                0 <= i < files.len() ==> file_is_told(map, project, #[trigger] files[i])
            &&& map.contains_key(key) ==> exists|i: int|
                0 <= i < files.len() && file_tells(#[trigger] files[i], project, key, map[key])
        },
    decreases files.len(),
{
    if files.len() > 0 {
        let rest = files.drop_last();
        let last = files.last();
        let at = paths::path_key(paths::joined(project, last.path));
        law_reports_cover_their_lines(rest, project, key);
        assert(files[files.len() - 1] == last);
        if let Ok(init) = files_coverage(rest, project) {
            lemma_file_lines(init, at, last.lines, key);
        }
        if files_coverage(files, project) is Ok {
            assert forall|i: int, j: int|
                0 <= i < files.len() && 0 <= j < files[i].lines.len() implies u32_value(
                (#[trigger] files[i].lines[j]).line,
            ) is Ok by {
                if i < rest.len() {
                    assert(rest[i] == files[i]);
                    assert(u32_value(rest[i].lines[j].line) is Ok);
                }
            }
        }
        if forall|i: int, j: int|
            0 <= i < files.len() && 0 <= j < files[i].lines.len() ==> u32_value(
                (#[trigger] files[i].lines[j]).line,
            ) is Ok {
            assert forall|i: int, j: int|
                0 <= i < rest.len() && 0 <= j < rest[i].lines.len() implies u32_value(
                (#[trigger] rest[i].lines[j]).line,
            ) is Ok by {
                assert(rest[i] == files[i]);
                assert(u32_value(files[i].lines[j].line) is Ok);
            }
            assert forall|j: int| 0 <= j < last.lines.len() implies u32_value(
                (#[trigger] last.lines[j]).line,
            ) is Ok by {
                assert(u32_value(files[files.len() - 1].lines[j].line) is Ok);
            }
        }
        if let Ok(map) = files_coverage(files, project) {
            let init = files_coverage(rest, project)->Ok_0;
            assert forall|i: int| 0 <= i < files.len() implies file_is_told(
                map,
                project,
                #[trigger] files[i],
            ) by {
                if i < rest.len() {
                    assert(rest[i] == files[i]);
                    assert(file_is_told(init, project, rest[i]));
                    let file = files[i];
                    let there = paths::path_key(paths::joined(project, file.path));
                    assert forall|j: int| 0 <= j < file.lines.len() implies is_told(
                        map,
                        there,
                        #[trigger] file.lines[j],
                    ) by {
                        assert(is_told(init, there, file.lines[j]));
                        let n = u32_value(file.lines[j].line)->Ok_0;
                        lemma_file_lines(init, at, last.lines, (there, n));
                    }
                } else {
                    assert forall|j: int| 0 <= j < last.lines.len() implies is_told(
                        map,
                        at,
                        #[trigger] last.lines[j],
                    ) by {}
                }
            }
            if map.contains_key(key) {
                if exists|j: int|
                    0 <= j < last.lines.len() && tells(#[trigger] last.lines[j], at, key, map[key]) {
                    assert(file_tells(files[files.len() - 1], project, key, map[key]));
                } else {
                    assert(init.contains_key(key) && init[key] == map[key]);
                    let i = choose|i: int|
                        0 <= i < rest.len() && file_tells(
                            #[trigger] rest[i],
                            project,
                            key,
                            init[key],
                        );
                    assert(file_tells(files[i], project, key, map[key]));
                }
            }
        }
    }
}

/// The files of a report are the members of `files`, each with the lines of
/// its data, unless the data of one is wrong.
pub proof fn law_report_has_every_file(members: Seq<(Seq<char>, Seq<char>)>)
    ensures
        files_in(members) is Ok <==> forall|i: int|
            0 <= i < members.len() ==> file_lines((#[trigger] members[i]).1) is Ok,
        files_in(members) matches Ok(files) ==> {
            &&& files.len() == members.len()
            &&& forall|i: int|
                0 <= i < members.len() ==> (#[trigger] files[i]).path == members[i].0
                    && file_lines(members[i].1) == Ok::<Seq<LineView>, Seq<char>>(files[i].lines)
        },
    decreases members.len(),
{
    if members.len() > 0 {
        let rest = members.drop_last();
        law_report_has_every_file(rest);
        assert(members[members.len() - 1] == members.last());
        if files_in(members) is Ok {
            assert forall|i: int| 0 <= i < members.len() implies file_lines(
                (#[trigger] members[i]).1,
            ) is Ok by {
                if i < rest.len() {
                    assert(rest[i] == members[i]);
                }
            }
        }
        if forall|i: int| 0 <= i < members.len() ==> file_lines((#[trigger] members[i]).1) is Ok {
            assert forall|i: int| 0 <= i < rest.len() implies file_lines(
                (#[trigger] rest[i]).1,
            ) is Ok by {
                assert(rest[i] == members[i]);
            }
        }
        if let Ok(files) = files_in(members) {
            let init = files_in(rest)->Ok_0;
            assert forall|i: int| 0 <= i < members.len() implies (#[trigger] files[i]).path
                == members[i].0 && file_lines(members[i].1) == Ok::<Seq<LineView>, Seq<char>>(
                files[i].lines,
            ) by {
                if i < rest.len() {
                    assert(files[i] == init[i]);
                    assert(rest[i] == members[i]);
                }
            }
        }
    }
}

/// Whether a line of a report has named tests for a line number.
pub open spec fn numbers(line: LineView, n: u32) -> bool {
    &&& u32_value(line.line) == Ok::<u32, NumberProblem>(n)
    &&& line.contexts.filter(|c: Seq<char>| c != Seq::<char>::empty()).len() > 0
}

/// Of the lines of a file with the same number the last one with named tests
/// counts, and what other files say stays.
pub proof fn law_the_last_line_of_a_number_counts(
    map: Map<(Seq<u16>, u32), Seq<Seq<char>>>,
    file: Seq<u16>,
    lines: Seq<LineView>,
    n: u32,
    k: int,
    other: (Seq<u16>, u32),
)
    requires
        with_file_lines(map, file, lines) is Ok,
    ensures
        ({
            let after = with_file_lines(map, file, lines)->Ok_0;
            &&& 0 <= k < lines.len() && numbers(lines[k], n) && (forall|j: int|
                k < j < lines.len() ==> !numbers(#[trigger] lines[j], n)) ==> after.contains_key(
                (file, n),
            ) && after[(file, n)] == lines[k].contexts.filter(
                |c: Seq<char>| c != Seq::<char>::empty(),
            )
            &&& other.0 != file || (forall|j: int|
                0 <= j < lines.len() ==> !numbers(#[trigger] lines[j], other.1)) ==> (
            after.contains_key(other) <==> map.contains_key(other)) && tests_at(after, other)
                == tests_at(map, other)
        }),
    decreases lines.len(),
{
    if lines.len() > 0 {
        let rest = lines.drop_last();
        let last = lines.last();
        law_the_last_line_of_a_number_counts(map, file, rest, n, k, other);
        law_named_contexts_count(last.contexts);
        assert(lines[lines.len() - 1] == last);
        if 0 <= k < rest.len() && numbers(lines[k], n) && (forall|j: int|
            k < j < lines.len() ==> !numbers(#[trigger] lines[j], n)) {
            assert(rest[k] == lines[k]);
            assert forall|j: int| k < j < rest.len() implies !numbers(#[trigger] rest[j], n) by {
                assert(rest[j] == lines[j]);
            }
            assert(!numbers(lines[lines.len() - 1], n));
        }
        if other.0 == file && (forall|j: int|
            0 <= j < lines.len() ==> !numbers(#[trigger] lines[j], other.1)) {
            assert forall|j: int| 0 <= j < rest.len() implies !numbers(
                #[trigger] rest[j],
                other.1,
            ) by {
                assert(rest[j] == lines[j]);
            }
            assert(!numbers(lines[lines.len() - 1], other.1));
        }
    }
}

/// A line whose number cannot be read is told of, the first of them in the
/// report.
pub proof fn law_the_first_bad_line_is_told_of(
    map: Map<(Seq<u16>, u32), Seq<Seq<char>>>,
    file: Seq<u16>,
    lines: Seq<LineView>,
    i: int,
)
    requires
        0 <= i < lines.len(),
        u32_value(lines[i].line) is Err,
        forall|j: int| 0 <= j < i ==> u32_value((#[trigger] lines[j]).line) is Ok,
    ensures
        with_file_lines(map, file, lines) == Err::<Map<(Seq<u16>, u32), Seq<Seq<char>>>, Seq<char>>(
            "invalid line number '"@ + lines[i].line + "' in coverage JSON: "@ + u32_value(
                lines[i].line,
            )->Err_0.text(),
        ),
    decreases lines.len(),
{
    let rest = lines.drop_last();
    if i < rest.len() {
        assert(rest[i] == lines[i]);
        assert forall|j: int| 0 <= j < i implies u32_value((#[trigger] rest[j]).line) is Ok by {
            assert(rest[j] == lines[j]);
        }
        law_the_first_bad_line_is_told_of(map, file, rest, i);
    } else {
        assert forall|j: int| 0 <= j < rest.len() implies u32_value(
            (#[trigger] rest[j]).line,
        ) is Ok by {
            assert(rest[j] == lines[j]);
        }
        lemma_file_lines(map, file, rest, (file, 0u32));
    }
}

/// Files are read one after the other: the coverage of a report with one file
/// more is that of the others with the lines of that file added, unless the
/// others have a bad line already.
pub proof fn law_files_are_added_in_their_order(
    files: Seq<FileView>,
    file: FileView,
    project: Seq<char>,
)
    ensures
        files_coverage(files.push(file), project) == match files_coverage(files, project) {
            Ok(map) => with_file_lines(
                map,
                paths::path_key(paths::joined(project, file.path)),
                file.lines,
            ),
            Err(problem) => Err(problem),
        },
        files_coverage(Seq::empty(), project) == Ok::<
            Map<(Seq<u16>, u32), Seq<Seq<char>>>,
            Seq<char>,
        >(Map::empty()),
{
    assert(files.push(file).drop_last() =~= files);
}

/// A field is the member of its name, or the only element of a list. A member
/// that is missing, a list of another length and anything else are told of.
pub proof fn law_fields_are_found(
    members: Seq<(Seq<char>, Seq<char>)>,
    items: Seq<Seq<char>>,
    problem: Seq<char>,
    other: Seq<char>,
    name: Seq<char>,
    i: int,
)
    ensures
        0 <= i < members.len() && members[i].0 == name && (forall|j: int|
            0 <= j < i ==> (#[trigger] members[j]).0 != name) ==> field(
            Ok(members),
            Err(other),
            name,
        ) == Ok::<Seq<char>, Seq<char>>(members[i].1),
        (forall|j: int| 0 <= j < members.len() ==> (#[trigger] members[j]).0 != name) ==> field(
            Ok(members),
            Err(other),
            name,
        ) == Err::<Seq<char>, Seq<char>>("missing field `"@ + name + "`"@),
        items.len() == 1 ==> field(Err(problem), Ok(items), name) == Ok::<Seq<char>, Seq<char>>(
            items[0],
        ),
        items.len() != 1 ==> field(Err(problem), Ok(items), name) == Err::<Seq<char>, Seq<char>>(
            "invalid length, expected one element"@,
        ),
        field(Err(problem), Err(other), name) == Err::<Seq<char>, Seq<char>>(problem),
{
    law_the_first_member_is_found(members, name, i);
}

/// The lines of a file are its members, one for one, each with its contexts.
pub proof fn law_lines_are_read_one_for_one(members: Seq<(Seq<char>, Seq<Seq<char>>)>, i: int)
    ensures
        lines_of(members).len() == members.len(),
        0 <= i < members.len() ==> lines_of(members)[i].line == members[i].0 && lines_of(
            members,
        )[i].contexts == members[i].1,
{
}

/// A report is read from its `files`, and each file from its `contexts`. What
/// cannot be read is told of with what it was read for.
pub proof fn law_reports_are_read(text: Seq<char>, project: Seq<char>, files: Seq<FileView>)
    ensures
        report_files(text) == Ok::<Seq<FileView>, Seq<char>>(files) ==> json_coverage(text, project)
            == files_coverage(files, project),
        report_files(text) matches Err(problem) ==> json_coverage(text, project) == Err::<
            Map<(Seq<u16>, u32), Seq<Seq<char>>>,
            Seq<char>,
        >("failed to parse coverage JSON: "@ + problem),
        field(object_members(text), list_items(text), "files"@) matches Err(problem)
            ==> report_files(text) == Err::<Seq<FileView>, Seq<char>>(problem),
        field(object_members(text), list_items(text), "files"@) matches Ok(inner) ==> (
        object_members(inner) matches Ok(members) ==> report_files(text) == files_in(members)),
        field(object_members(text), list_items(text), "contexts"@) matches Ok(inner) ==> (
        string_lists(inner) matches Ok(members) ==> file_lines(text) == Ok::<
            Seq<LineView>,
            Seq<char>,
        >(lines_of(members))),
{
}

} // verus!
