//! Coverage data from the rows of a coverage.py `.coverage` database.
//!
//! Older versions (before 7) store line data in the `line_bits` table as
//! packed bitsets. Newer versions store branch arcs in the `arc` table. Both
//! are supported; `line_bits` is preferred where it holds anything.
use crate::coverage::map::{tests_at, with_sorted_test, with_test, CoverageMap};
use crate::lines;
use crate::order;
use crate::paths;
use crate::text;
use std::collections::HashMap;
use vstd::prelude::*;

verus! {

/// A row of the `file` or the `context` table.
#[derive(Debug)]
pub struct NameRow {
    pub id: i64,
    pub name: String,
}

/// A row of the `line_bits` table.
#[derive(Debug)]
pub struct LineBitsRow {
    pub file_id: i64,
    pub context_id: i64,
    pub numbits: Vec<u8>,
}

/// A row of the `arc` table: a jump from one line to another.
#[derive(Debug)]
pub struct ArcRow {
    pub file_id: i64,
    pub context_id: i64,
    pub fromno: i64,
    pub tono: i64,
}

/// Whether `s` ends in `tail`.
pub open spec fn ends_with(s: Seq<char>, tail: Seq<char>) -> bool {
    s.len() >= tail.len() && s.skip(s.len() - tail.len()) == tail
}

/// A context name without the phase of the test that coverage.py appends.
pub open spec fn stripped(context: Seq<char>) -> Seq<char> {
    if ends_with(context, "|run"@) {
        context.take(context.len() - "|run"@.len())
    } else if ends_with(context, "|setup"@) {
        context.take(context.len() - "|setup"@.len())
    } else if ends_with(context, "|teardown"@) {
        context.take(context.len() - "|teardown"@.len())
    } else {
        context
    }
}

/// The text before `tail`, when `s` ends in it.
fn strip_tail(s: &str, tail: &str) -> (r: Option<String>)
    ensures
        r is Some <==> ends_with(s@, tail@),
        r matches Some(head) ==> head@ == s@.take(s@.len() - tail@.len()),
{
    let list: Vec<char> = lines::chars(s);
    let total: usize = list.len();
    let n: usize = tail.unicode_len();
    if total < n {
        return None;
    }
    let end: String = lines::text_of(&list, total - n, total);
    assert(end@ =~= s@.skip(s@.len() - tail@.len()));
    if !text::same(end.as_str(), tail) {
        return None;
    }
    let head: String = lines::text_of(&list, 0, total - n);
    assert(head@ =~= s@.take(s@.len() - tail@.len()));
    Some(head)
}

/// Strip the `|run`, `|setup`, or `|teardown` suffix that coverage.py stores
/// in raw context names.
pub fn strip_context_suffix(context: &str) -> (r: String)
    ensures
        r@ == stripped(context@),
{
    if let Some(head) = strip_tail(context, "|run") {
        return head;
    }
    if let Some(head) = strip_tail(context, "|setup") {
        return head;
    }
    if let Some(head) = strip_tail(context, "|teardown") {
        return head;
    }
    context.to_owned()
}

/// Whether a bit of a byte is set.
pub open spec fn bit_set(byte: u8, bit: u8) -> bool {
    byte & (1u8 << bit) != 0
}

/// The lines for the first `bits` bits of the byte at an index.
pub open spec fn byte_lines(index: int, byte: u8, bits: int) -> Seq<u32>
    decreases bits,
{
    if bits <= 0 {
        Seq::empty()
    } else {
        let init = byte_lines(index, byte, bits - 1);
        let line = index * 8 + bits - 1;
        if bit_set(byte, (bits - 1) as u8) && line <= u32::MAX {
            init.push(line as u32)
        } else {
            init
        }
    }
}

/// The lines whose bits are set in a blob: bit `j` of byte `i` stands for
/// line `i * 8 + j`.
pub open spec fn decoded(blob: Seq<u8>) -> Seq<u32>
    decreases blob.len(),
{
    if blob.len() == 0 {
        Seq::empty()
    } else {
        decoded(blob.drop_last()) + byte_lines(blob.len() - 1, blob.last(), 8)
    }
}

/// Decode a coverage.py `numbits` blob into a list of line numbers.
///
/// The format is a packed bitset: byte `i`, bit `j` (LSB = 0) corresponds to
/// line number `i * 8 + j`. Lines beyond 32 bits are left out.
pub fn decode_numbits(blob: &[u8]) -> (r: Vec<u32>)
    ensures
        r@ == decoded(blob@),
{
    let mut out: Vec<u32> = Vec::new();
    let mut i: usize = 0;
    while i < blob.len()
        invariant
            i <= blob@.len(),
            out@ == decoded(blob@.take(i as int)),
        decreases blob.len() - i,
    {
        let byte: u8 = blob[i];
        let ghost before = out@;
        let mut bit: u8 = 0;
        assert(out@ =~= before + byte_lines(i as int, byte, 0));
        while bit < 8
            invariant
                bit <= 8,
                out@ == before + byte_lines(i as int, byte, bit as int),
            decreases 8 - bit,
        {
            let line: u128 = i as u128 * 8 + bit as u128;
            let ghost so_far = out@;
            if byte & (1u8 << bit) != 0 && line <= u32::MAX as u128 {
                out.push(line as u32);
            }
            assert(out@ =~= before + byte_lines(i as int, byte, bit + 1));
            bit = bit + 1;
        }
        assert(blob@.take(i + 1).drop_last() =~= blob@.take(i as int));
        i = i + 1;
    }
    assert(blob@.take(i as int) =~= blob@);
    out
}

/// The bits of a blob are told apart: a line is decoded exactly when its bit
/// is set.
pub proof fn law_numbits_hold_the_set_lines(blob: Seq<u8>, line: u32)
    ensures
        decoded(blob).contains(line) <==> line / 8 < blob.len() && bit_set(
            blob[(line / 8) as int],
            (line % 8) as u8,
        ),
    decreases blob.len(),
{
    if blob.len() > 0 {
        let init = blob.drop_last();
        let n = blob.len() - 1;
        law_numbits_hold_the_set_lines(init, line);
        lemma_byte_lines(n, blob.last(), 8, line);
        let tail = byte_lines(n, blob.last(), 8);
        let all = decoded(blob);
        if decoded(init).contains(line) {
            let i = choose|i: int| 0 <= i < decoded(init).len() && decoded(init)[i] == line;
            assert(all[i] == line);
        }
        if tail.contains(line) {
            let i = choose|i: int| 0 <= i < tail.len() && tail[i] == line;
            assert(all[decoded(init).len() + i] == line);
        }
        if all.contains(line) {
            let i = choose|i: int| 0 <= i < all.len() && all[i] == line;
            if i < decoded(init).len() {
                assert(decoded(init)[i] == line);
            } else {
                assert(tail[i - decoded(init).len()] == line);
            }
        }
    }
}

/// Decoded lines strictly increase.
pub proof fn law_decoded_lines_increase(blob: Seq<u8>, i: int, j: int)
    requires
        0 <= i < j < decoded(blob).len(),
    ensures
        decoded(blob)[i] < decoded(blob)[j],
{
    lemma_decoded_lines_increase(blob);
}

/// Decoded lines strictly increase and stay within the blob.
proof fn lemma_decoded_lines_increase(blob: Seq<u8>)
    ensures
        forall|i: int, j: int|
            0 <= i < j < decoded(blob).len() ==> #[trigger] decoded(blob)[i]
                < #[trigger] decoded(blob)[j],
        forall|i: int|
            0 <= i < decoded(blob).len() ==> #[trigger] decoded(blob)[i] < blob.len() * 8,
    decreases blob.len(),
{
    if blob.len() > 0 {
        lemma_decoded_lines_increase(blob.drop_last());
        lemma_byte_lines_increase(blob.len() - 1, blob.last(), 8);
        let init = decoded(blob.drop_last());
        let tail = byte_lines(blob.len() - 1, blob.last(), 8);
        let all = decoded(blob);
        assert forall|i: int| 0 <= i < all.len() implies #[trigger] all[i] < blob.len() * 8 by {
            if i < init.len() {
                assert(all[i] == init[i]);
            } else {
                assert(all[i] == tail[i - init.len()]);
            }
        }
        assert forall|i: int, j: int| 0 <= i < j < all.len() implies #[trigger] all[i]
            < #[trigger] all[j] by {
            if j < init.len() {
                assert(all[i] == init[i] && all[j] == init[j]);
            } else if i < init.len() {
                assert(all[i] == init[i] && all[j] == tail[j - init.len()]);
            } else {
                assert(all[i] == tail[i - init.len()] && all[j] == tail[j - init.len()]);
            }
        }
    }
}

/// The lines of one byte strictly increase and stay within its eight.
proof fn lemma_byte_lines_increase(index: int, byte: u8, bits: int)
    requires
        0 <= bits <= 8,
        0 <= index,
    ensures
        ({
            let lines = byte_lines(index, byte, bits);
            &&& forall|i: int, j: int|
                0 <= i < j < lines.len() ==> #[trigger] lines[i] < #[trigger] lines[j]
            &&& forall|i: int|
                0 <= i < lines.len() ==> index * 8 <= #[trigger] lines[i] < index * 8 + bits
        }),
    decreases bits,
{
    if bits > 0 {
        lemma_byte_lines_increase(index, byte, bits - 1);
        let init = byte_lines(index, byte, bits - 1);
        let all = byte_lines(index, byte, bits);
        assert forall|i: int| 0 <= i < all.len() implies index * 8 <= #[trigger] all[i] < index * 8
            + bits by {
            if i < init.len() {
                assert(all[i] == init[i]);
            }
        }
        assert forall|i: int, j: int| 0 <= i < j < all.len() implies #[trigger] all[i]
            < #[trigger] all[j] by {
            assert(all[i] == init[i]);
            if j < init.len() {
                assert(all[j] == init[j]);
            }
        }
    }
}

/// The lines of one byte.
proof fn lemma_byte_lines(index: int, byte: u8, bits: int, line: u32)
    requires
        0 <= bits <= 8,
        0 <= index,
    ensures
        byte_lines(index, byte, bits).contains(line) <==> index == line / 8 && line % 8 < bits
            && bit_set(byte, (line % 8) as u8),
    decreases bits,
{
    if bits > 0 {
        lemma_byte_lines(index, byte, bits - 1, line);
        let init = byte_lines(index, byte, bits - 1);
        let all = byte_lines(index, byte, bits);
        let last = index * 8 + bits - 1;
        if init.contains(line) {
            let i = choose|i: int| 0 <= i < init.len() && init[i] == line;
            assert(all[i] == line);
        }
        if bit_set(byte, (bits - 1) as u8) && last <= u32::MAX {
            assert(all[init.len() as int] == last as u32);
        }
        if all.contains(line) {
            let i = choose|i: int| 0 <= i < all.len() && all[i] == line;
            if i < init.len() {
                assert(init[i] == line);
            }
        }
    }
}

/// The files of a database: by id, the path seen from the project directory.
/// Of rows with one id the last counts.
pub open spec fn file_table(rows: Seq<NameRow>, project: Seq<char>) -> Map<i64, Seq<char>>
    decreases rows.len(),
{
    if rows.len() == 0 {
        Map::empty()
    } else {
        file_table(rows.drop_last(), project).insert(
            rows.last().id,
            paths::joined(project, rows.last().name@),
        )
    }
}

/// The contexts of a database: by id, the name without its phase.
pub open spec fn context_table(rows: Seq<NameRow>) -> Map<i64, Seq<char>>
    decreases rows.len(),
{
    if rows.len() == 0 {
        Map::empty()
    } else {
        context_table(rows.drop_last()).insert(rows.last().id, stripped(rows.last().name@))
    }
}

/// The characters of the texts in a table.
pub open spec fn table_texts(table: Map<i64, String>) -> Map<i64, Seq<char>> {
    table.map_values(|t: String| t@)
}

/// Load the `file` table, mapping each file ID to its path.
pub fn load_file_table(rows: &[NameRow], project_dir: &str) -> (r: HashMap<i64, String>)
    ensures
        table_texts(r@) == file_table(rows@, project_dir@),
{
    let mut table: HashMap<i64, String> = HashMap::new();
    let mut i: usize = 0;
    assert(table_texts(table@) =~= file_table(rows@.take(0), project_dir@));
    while i < rows.len()
        invariant
            i <= rows@.len(),
            table_texts(table@) == file_table(rows@.take(i as int), project_dir@),
        decreases rows.len() - i,
    {
        let ghost before = table@;
        table.insert(rows[i].id, paths::join(project_dir, rows[i].name.as_str()));
        assert(rows@.take(i + 1).drop_last() =~= rows@.take(i as int));
        assert(table_texts(table@) =~= file_table(rows@.take(i + 1), project_dir@));
        i = i + 1;
    }
    assert(rows@.take(i as int) =~= rows@);
    table
}

/// Load the `context` table, mapping each context ID to its name with the
/// trailing `|run`, `|setup` or `|teardown` suffix stripped.
pub fn load_context_table(rows: &[NameRow]) -> (r: HashMap<i64, String>)
    ensures
        table_texts(r@) == context_table(rows@),
{
    let mut table: HashMap<i64, String> = HashMap::new();
    let mut i: usize = 0;
    assert(table_texts(table@) =~= context_table(rows@.take(0)));
    while i < rows.len()
        invariant
            i <= rows@.len(),
            table_texts(table@) == context_table(rows@.take(i as int)),
        decreases rows.len() - i,
    {
        table.insert(rows[i].id, strip_context_suffix(rows[i].name.as_str()));
        assert(rows@.take(i + 1).drop_last() =~= rows@.take(i as int));
        assert(table_texts(table@) =~= context_table(rows@.take(i + 1)));
        i = i + 1;
    }
    assert(rows@.take(i as int) =~= rows@);
    table
}

/// The file key and the test of a row, unless one is unknown or the row
/// belongs to no test.
pub open spec fn attribution(
    file_id: i64,
    context_id: i64,
    files: Map<i64, Seq<char>>,
    contexts: Map<i64, Seq<char>>,
) -> Option<(Seq<u16>, Seq<char>)> {
    if files.contains_key(file_id) && contexts.contains_key(context_id)
        && contexts[context_id].len() > 0 {
        Some((paths::path_key(files[file_id]), contexts[context_id]))
    } else {
        None
    }
}

/// A map with a test added at lines of a file.
pub open spec fn with_lines(
    map: Map<(Seq<u16>, u32), Seq<Seq<char>>>,
    key: Seq<u16>,
    list: Seq<u32>,
    test: Seq<char>,
) -> Map<(Seq<u16>, u32), Seq<Seq<char>>>
    decreases list.len(),
{
    if list.len() == 0 {
        map
    } else {
        with_test(with_lines(map, key, list.drop_last(), test), (key, list.last()), test)
    }
}

/// The coverage in the rows of `line_bits`.
pub open spec fn line_bits_coverage(
    rows: Seq<LineBitsRow>,
    files: Map<i64, Seq<char>>,
    contexts: Map<i64, Seq<char>>,
) -> Map<(Seq<u16>, u32), Seq<Seq<char>>>
    decreases rows.len(),
{
    if rows.len() == 0 {
        Map::empty()
    } else {
        let init = line_bits_coverage(rows.drop_last(), files, contexts);
        let row = rows.last();
        match attribution(row.file_id, row.context_id, files, contexts) {
            Some((key, test)) => with_lines(init, key, decoded(row.numbits@), test),
            None => init,
        }
    }
}

/// A map with a test put in its place at one end of an arc. Markers of entry
/// and exit are not positive and do not count.
pub open spec fn with_arc_end(
    map: Map<(Seq<u16>, u32), Seq<Seq<char>>>,
    key: Seq<u16>,
    line: i64,
    test: Seq<char>,
) -> Map<(Seq<u16>, u32), Seq<Seq<char>>> {
    if line > 0 {
        with_sorted_test(map, (key, (line % 0x1_0000_0000) as u32), test)
    } else {
        map
    }
}

/// The coverage in the rows of `arc`.
pub open spec fn arc_coverage(
    rows: Seq<ArcRow>,
    files: Map<i64, Seq<char>>,
    contexts: Map<i64, Seq<char>>,
) -> Map<(Seq<u16>, u32), Seq<Seq<char>>>
    decreases rows.len(),
{
    if rows.len() == 0 {
        Map::empty()
    } else {
        let init = arc_coverage(rows.drop_last(), files, contexts);
        let row = rows.last();
        match attribution(row.file_id, row.context_id, files, contexts) {
            Some((key, test)) => with_arc_end(
                with_arc_end(init, key, row.fromno, test),
                key,
                row.tono,
                test,
            ),
            None => init,
        }
    }
}

/// The path and the test of a row, unless one is unknown or the row belongs
/// to no test.
fn attribute<'t>(
    file_id: i64,
    context_id: i64,
    files: &'t HashMap<i64, String>,
    contexts: &'t HashMap<i64, String>,
) -> (r: Option<(&'t String, &'t String)>)
    ensures
        match attribution(file_id, context_id, table_texts(files@), table_texts(contexts@)) {
            Some((key, test)) => r matches Some(found) && paths::path_key(found.0@) == key
                && found.1@ == test,
            None => r is None,
        },
{
    match (files.get(&file_id), contexts.get(&context_id)) {
        (Some(path), Some(test)) => {
            if test.as_str().unicode_len() == 0 {
                None
            } else {
                Some((path, test))
            }
        },
        _ => None,
    }
}

/// Build a [`CoverageMap`] from the `line_bits` table (coverage.py before 7).
pub fn build_coverage_map_from_line_bits(
    rows: &[LineBitsRow],
    files: &HashMap<i64, String>,
    contexts: &HashMap<i64, String>,
) -> (r: CoverageMap)
    ensures
        r.wf(),
        r@ == line_bits_coverage(rows@, table_texts(files@), table_texts(contexts@)),
{
    let mut map: CoverageMap = CoverageMap::new();
    let mut i: usize = 0;
    assert(rows@.take(0) =~= Seq::empty());
    while i < rows.len()
        invariant
            i <= rows@.len(),
            map.wf(),
            map@ == line_bits_coverage(
                rows@.take(i as int),
                table_texts(files@),
                table_texts(contexts@),
            ),
        decreases rows.len() - i,
    {
        let row: &LineBitsRow = &rows[i];
        assert(rows@.take(i + 1).drop_last() =~= rows@.take(i as int));
        if let Some((path, test)) = attribute(row.file_id, row.context_id, files, contexts) {
            let list: Vec<u32> = decode_numbits(row.numbits.as_slice());
            let slot: usize = map.make_slot(path.as_str());
            let ghost key = paths::path_key(path@);
            let ghost before = map@;
            let mut k: usize = 0;
            assert(list@.take(0) =~= Seq::empty());
            while k < list.len()
                invariant
                    k <= list@.len(),
                    map.wf(),
                    map.is_slot(slot, key),
                    map@ == with_lines(before, key, list@.take(k as int), test@),
                decreases list.len() - k,
            {
                assert(list@.take(k + 1).drop_last() =~= list@.take(k as int));
                map.push_at(slot, list[k], test.clone(), Ghost(key));
                k = k + 1;
            }
            assert(list@.take(k as int) =~= list@);
        }
        i = i + 1;
    }
    assert(rows@.take(i as int) =~= rows@);
    map
}

/// Adds a test at one end of an arc.
fn push_arc_end(
    map: &mut CoverageMap,
    slot: usize,
    line: i64,
    test: &String,
    Ghost(key): Ghost<Seq<u16>>,
)
    requires
        old(map).wf(),
        old(map).is_slot(slot, key),
    ensures
        final(map).wf(),
        final(map).is_slot(slot, key),
        final(map)@ == with_arc_end(old(map)@, key, line, test@),
{
    if line > 0 {
        let short: u32 = (line as u64 % 0x1_0000_0000) as u32;
        map.insert_at(slot, short, test.clone(), Ghost(key));
    }
}

/// Build a [`CoverageMap`] from the `arc` table (coverage.py 7 and later).
///
/// Each arc row represents a branch from line `fromno` to line `tono`. Both
/// positive line numbers are treated as covered lines. Other values represent
/// entry and exit markers and are skipped. The tests of a line are sorted,
/// each listed once.
pub fn build_coverage_map_from_arcs(
    rows: &[ArcRow],
    files: &HashMap<i64, String>,
    contexts: &HashMap<i64, String>,
) -> (r: CoverageMap)
    ensures
        r.wf(),
        r@ == arc_coverage(rows@, table_texts(files@), table_texts(contexts@)),
{
    let mut map: CoverageMap = CoverageMap::new();
    let mut i: usize = 0;
    assert(rows@.take(0) =~= Seq::empty());
    while i < rows.len()
        invariant
            i <= rows@.len(),
            map.wf(),
            map@ == arc_coverage(rows@.take(i as int), table_texts(files@), table_texts(contexts@)),
        decreases rows.len() - i,
    {
        let row: &ArcRow = &rows[i];
        assert(rows@.take(i + 1).drop_last() =~= rows@.take(i as int));
        if let Some((path, test)) = attribute(row.file_id, row.context_id, files, contexts) {
            let slot: usize = map.make_slot(path.as_str());
            let ghost key = paths::path_key(path@);
            push_arc_end(&mut map, slot, row.fromno, test, Ghost(key));
            push_arc_end(&mut map, slot, row.tono, test, Ghost(key));
        }
        i = i + 1;
    }
    assert(rows@.take(i as int) =~= rows@);
    map
}

/// Build a [`CoverageMap`] from the rows of a database.
///
/// `from_bits` is what the `line_bits` table gave, and `arcs` the rows of the
/// `arc` table where there is one. Arcs count only where `line_bits` gave
/// nothing.
pub fn build_coverage_map(
    from_bits: CoverageMap,
    arcs: Option<&[ArcRow]>,
    files: &HashMap<i64, String>,
    contexts: &HashMap<i64, String>,
) -> (r: CoverageMap)
    requires
        from_bits.wf(),
    ensures
        r.wf(),
        r@ == if from_bits@ != Map::<(Seq<u16>, u32), Seq<Seq<char>>>::empty() {
            from_bits@
        } else {
            match arcs {
                Some(rows) => arc_coverage(rows@, table_texts(files@), table_texts(contexts@)),
                None => from_bits@,
            }
        },
{
    if !from_bits.is_empty() {
        return from_bits;
    }
    match arcs {
        Some(rows) => build_coverage_map_from_arcs(rows, files, contexts),
        None => from_bits,
    }
}

/// The tests of every line covered by arcs are sorted, each listed once.
pub proof fn law_arc_tests_are_sorted_once(
    rows: Seq<ArcRow>,
    files: Map<i64, Seq<char>>,
    contexts: Map<i64, Seq<char>>,
    key: (Seq<u16>, u32),
)
    ensures
        order::strictly_sorted(tests_at(arc_coverage(rows, files, contexts), key)),
    decreases rows.len(),
{
    if rows.len() > 0 {
        let init = arc_coverage(rows.drop_last(), files, contexts);
        let row = rows.last();
        if let Some((path, test)) = attribution(row.file_id, row.context_id, files, contexts) {
            let mid = with_arc_end(init, path, row.fromno, test);
            assert forall|k: (Seq<u16>, u32)| order::strictly_sorted(#[trigger] tests_at(init, k)) by {
                law_arc_tests_are_sorted_once(rows.drop_last(), files, contexts, k);
            }
            lemma_arc_end_sorted(init, path, row.fromno, test);
            lemma_arc_end_sorted(mid, path, row.tono, test);
            assert(order::strictly_sorted(
                tests_at(with_arc_end(mid, path, row.tono, test), key),
            ));
        } else {
            law_arc_tests_are_sorted_once(rows.drop_last(), files, contexts, key);
        }
    }
}

/// An end of an arc keeps the tests of every line sorted.
proof fn lemma_arc_end_sorted(
    map: Map<(Seq<u16>, u32), Seq<Seq<char>>>,
    path: Seq<u16>,
    line: i64,
    test: Seq<char>,
)
    requires
        forall|k: (Seq<u16>, u32)| order::strictly_sorted(#[trigger] tests_at(map, k)),
    ensures
        forall|k: (Seq<u16>, u32)|
            order::strictly_sorted(#[trigger] tests_at(with_arc_end(map, path, line, test), k)),
{
    if line > 0 {
        let at = (path, (line % 0x1_0000_0000) as u32);
        assert forall|k: (Seq<u16>, u32)|
            order::strictly_sorted(
                #[trigger] tests_at(with_arc_end(map, path, line, test), k),
            ) by {
            assert(order::strictly_sorted(tests_at(map, k)));
            order::law_insertion_keeps_order(tests_at(map, at), test);
        }
    }
}

} // verus!
