//! Lines of a source text: positions and suppression comments.
use crate::text;
use vstd::prelude::*;

verus! {

/// The number of newlines in a text.
pub open spec fn newlines(b: Seq<u8>) -> nat
    decreases b.len(),
{
    if b.len() == 0 {
        0
    } else if b.last() == 10 {
        newlines(b.drop_last()) + 1
    } else {
        newlines(b.drop_last())
    }
}

/// Where the last line of a text starts.
pub open spec fn line_start(b: Seq<u8>) -> int
    decreases b.len(),
{
    if b.len() == 0 {
        0
    } else if b.last() == 10 {
        b.len() as int
    } else {
        line_start(b.drop_last())
    }
}

/// Where the line that holds the offset `at` ends.
pub open spec fn line_end(b: Seq<u8>, at: int) -> int {
    match text::find_from(b, seq![10u8], at) {
        Some(i) => i,
        None => b.len() as int,
    }
}

/// The bytes before an offset, or all of them when it lies beyond the end.
pub open spec fn before(b: Seq<u8>, at: int) -> Seq<u8> {
    b.take(if at < b.len() {
        at
    } else {
        b.len() as int
    })
}

/// The 1-based line of an offset.
pub open spec fn line_of(b: Seq<u8>, at: int) -> int {
    1 + newlines(before(b, at)) as int
}

/// The 1-based column of an offset, in bytes.
pub open spec fn column_of(b: Seq<u8>, at: int) -> int {
    at - line_start(before(b, at)) + 1
}

/// A longer prefix of a text has no fewer newlines.
pub proof fn lemma_newlines_grow(b: Seq<u8>, i: int, j: int)
    requires
        0 <= i <= j <= b.len(),
    ensures
        newlines(b.take(i)) <= newlines(b.take(j)) <= newlines(b),
        newlines(b.take(j)) <= j,
        0 <= line_start(b.take(j)) <= j,
{
    assert(b.take(j).take(i) =~= b.take(i));
    lemma_newlines_step(b.take(j), i);
    lemma_newlines_step(b, j);
    lemma_prefix_measures(b.take(j));
}

/// A text has no fewer newlines than its prefixes.
proof fn lemma_newlines_step(b: Seq<u8>, j: int)
    requires
        0 <= j <= b.len(),
    ensures
        newlines(b.take(j)) <= newlines(b),
    decreases b.len() - j,
{
    if j < b.len() {
        assert(b.take(j + 1).drop_last() =~= b.take(j));
        lemma_newlines_step(b, j + 1);
    } else {
        assert(b.take(j) =~= b);
    }
}

/// Newlines and line starts lie within a text.
proof fn lemma_prefix_measures(b: Seq<u8>)
    ensures
        newlines(b) <= b.len(),
        0 <= line_start(b) <= b.len(),
    decreases b.len(),
{
    if b.len() > 0 {
        lemma_prefix_measures(b.drop_last());
    }
}

/// Compute 1-based line and column numbers from a byte offset into `source`.
///
/// Lines are told apart by newlines, and the column counts bytes, modulo 2^32.
pub fn line_column_from_offset(source: &str, byte_offset: usize) -> (r: (u32, u32))
    requires
        line_of(text::bytes(source@), byte_offset as int) <= u32::MAX,
    ensures
        r.0 == line_of(text::bytes(source@), byte_offset as int),
        r.1 == column_of(text::bytes(source@), byte_offset as int) % 0x1_0000_0000,
{
    let b: &[u8] = source.as_bytes();
    let total: usize = b.len();
    let stop: usize = if byte_offset < total {
        byte_offset
    } else {
        total
    };
    let mut line: u32 = 1;
    let mut start: usize = 0;
    let mut i: usize = 0;
    assert(b@.take(0) =~= Seq::<u8>::empty());
    while i < stop
        invariant
            i <= stop <= b@.len(),
            line == 1 + newlines(b@.take(i as int)),
            start == line_start(b@.take(i as int)),
            start <= i,
            1 + newlines(b@.take(stop as int)) <= u32::MAX,
        decreases stop - i,
    {
        assert(b@.take(i + 1).drop_last() =~= b@.take(i as int));
        if b[i] == 10 {
            proof {
                lemma_newlines_grow(b@.take(stop as int), i + 1, stop as int);
                assert(b@.take(stop as int).take(i + 1) =~= b@.take(i + 1));
            }
            line = line + 1;
            start = i + 1;
        }
        i = i + 1;
    }
    let wide: u128 = (byte_offset - start) as u128 + 1;
    (line, (wide % 0x1_0000_0000) as u32)
}

/// What suppresses mutations of a line.
pub open spec fn pragma() -> Seq<u8> {
    text::bytes("# pragma: no mutate"@)
}

/// Whether a line suppresses the mutations of the named operator. A pragma
/// with an operator in parentheses suppresses that operator alone, and one
/// with an unclosed parenthesis none.
pub open spec fn line_suppresses(line: Seq<u8>, operator: Seq<u8>) -> bool {
    match text::find_bytes(line, pragma()) {
        None => false,
        Some(at) => {
            let rest = line.skip(at + pragma().len());
            if rest.len() > 0 && rest[0] == 40 {
                match text::find_bytes(rest, seq![41u8]) {
                    Some(close) => rest.subrange(1, close) == operator,
                    None => false,
                }
            } else {
                true
            }
        },
    }
}

/// The line that holds an offset.
pub open spec fn line_at(b: Seq<u8>, at: int) -> Seq<u8> {
    b.subrange(line_start(b.take(at)), line_end(b, at))
}

/// Whether a mutation at an offset is suppressed by a comment on its line.
pub open spec fn suppressed(source: Seq<char>, at: int, operator: Seq<char>) -> bool {
    line_suppresses(line_at(text::bytes(source), at), text::bytes(operator))
}

/// Where the line that holds an offset starts.
fn find_line_start(b: &[u8], at: usize) -> (r: usize)
    requires
        at <= b@.len(),
    ensures
        r == line_start(b@.take(at as int)),
        r <= at,
{
    let mut i: usize = at;
    while i > 0
        invariant
            i <= at <= b@.len(),
            line_start(b@.take(at as int)) == line_start(b@.take(i as int)),
        decreases i,
    {
        assert(b@.take(i as int).drop_last() =~= b@.take(i - 1));
        if b[i - 1] == 10 {
            return i;
        }
        i = i - 1;
    }
    0
}

/// Where the line that holds an offset ends.
fn find_line_end(b: &[u8], at: usize) -> (r: usize)
    requires
        at <= b@.len(),
    ensures
        r == line_end(b@, at as int),
        at <= r <= b@.len(),
{
    let total: usize = b.len();
    let mut i: usize = at;
    while i < total
        invariant
            at <= i <= total,
            total == b@.len(),
            line_end(b@, at as int) == line_end(b@, i as int),
        decreases total - i,
    {
        let here: bool = b[i] == 10;
        assert(text::occurs_at(b@, seq![10u8], i as int) == here) by {
            let one = b@.subrange(i as int, i + 1);
            assert(one[0] == b@[i as int]);
            if here {
                assert(one =~= seq![10u8]);
            }
        }
        if here {
            return i;
        }
        i = i + 1;
    }
    total
}

/// Check whether a mutation at `byte_offset` in `source` is suppressed by a
/// pragma comment on the same line.
///
/// Supports two forms:
/// - `# pragma: no mutate` suppresses all mutations on that line.
/// - `# pragma: no mutate(operator_name)` suppresses only the named operator.
pub fn is_suppressed_by_pragma(source: &str, byte_offset: usize, mutator_name: &str) -> (r: bool)
    requires
        byte_offset <= text::bytes(source@).len(),
    ensures
        r == suppressed(source@, byte_offset as int, mutator_name@),
{
    let b: &[u8] = source.as_bytes();
    let lo: usize = find_line_start(b, byte_offset);
    let hi: usize = find_line_end(b, byte_offset);
    let mark: &[u8] = "# pragma: no mutate".as_bytes();
    let ghost line = line_at(b@, byte_offset as int);
    let at: usize = match text::find_in(b, mark, lo, hi) {
        Some(at) => at,
        None => { return false; },
    };
    let tail: usize = lo + at + mark.len();
    let ghost rest = line.skip(at + pragma().len());
    assert(rest =~= b@.subrange(tail as int, hi as int));
    if tail == hi || b[tail] != 40 {
        return true;
    }
    let paren: Vec<u8> = vec![41];
    assert(paren@ =~= seq![41u8]);
    match text::find_in(b, paren.as_slice(), tail, hi) {
        Some(close) => {
            let name: &[u8] = mutator_name.as_bytes();
            proof {
                text::lemma_find_from(rest, seq![41u8], 0);
                assert(close > 0) by {
                    if close == 0 {
                        assert(rest.subrange(0, 1)[0] == rest[0]);
                        assert(seq![41u8][0] == 41u8);
                    }
                }
                assert(rest.subrange(1, close as int) =~= b@.subrange(tail + 1, tail + close));
            }
            let whole: bool = name.len() == close - 1;
            if !whole {
                return false;
            }
            let equal: bool = text::starts_at(b, name, tail + 1);
            assert(tail + 1 + name@.len() == tail + close);
            equal
        },
        None => false,
    }
}

/// The line feeds of a text are counted, each once, wherever it is cut.
pub proof fn law_line_feeds_are_counted(a: Seq<u8>, b: Seq<u8>)
    ensures
        newlines(a + b) == newlines(a) + newlines(b),
        newlines(seq![10u8]) == 1,
        !a.contains(10) ==> newlines(a) == 0,
    decreases a.len() + b.len(),
{
    let feed = seq![10u8];
    assert(feed.drop_last() =~= Seq::<u8>::empty());
    assert(newlines(feed.drop_last()) == 0);
    if b.len() > 0 {
        law_line_feeds_are_counted(a, b.drop_last());
        assert((a + b).drop_last() =~= a + b.drop_last());
        assert((a + b).last() == b.last());
    } else {
        assert(a + b =~= a);
        if a.len() > 0 && !a.contains(10) {
            let init = a.drop_last();
            assert(!init.contains(10)) by {
                if init.contains(10) {
                    let k = choose|k: int| 0 <= k < init.len() && init[k] == 10;
                    assert(a.contains(a[k]));
                }
            }
            assert(a.contains(a.last()));
            law_line_feeds_are_counted(init, Seq::empty());
        }
    }
    if b.len() > 0 && !a.contains(10) {
        law_line_feeds_are_counted(a, Seq::empty());
    }
}

proof fn lemma_line_start(head: Seq<u8>, tail: Seq<u8>)
    requires
        head.len() == 0 || head.last() == 10,
        !tail.contains(10),
    ensures
        line_start(head + tail) == head.len(),
    decreases tail.len(),
{
    if tail.len() == 0 {
        assert(head + tail =~= head);
    } else {
        let less = tail.drop_last();
        assert(!less.contains(10)) by {
            if less.contains(10) {
                let k = choose|k: int| 0 <= k < less.len() && less[k] == 10;
                assert(tail.contains(tail[k]));
            }
        }
        lemma_line_start(head, less);
        assert(tail.contains(tail.last()));
        assert((head + tail).drop_last() =~= head + less);
        assert((head + tail).last() == tail.last());
    }
}

/// Lines and columns count from one. The line of a place is one more than the
/// line feeds before it, and its column is one more than the bytes between the
/// start of its line and it.
pub proof fn law_places_are_counted_from_one(b: Seq<u8>, start: int, at: int)
    requires
        0 <= start <= at <= b.len(),
        start == 0 || b[start - 1] == 10,
        !b.subrange(start, at).contains(10),
    ensures
        line_of(b, at) == newlines(b.take(start)) + 1,
        column_of(b, at) == at - start + 1,
        start == 0 ==> line_of(b, at) == 1,
        start > 0 ==> line_of(b, at) == line_of(b, start - 1) + 1,
{
    let head = b.take(start);
    let tail = b.subrange(start, at);
    assert(b.take(at) =~= head + tail);
    assert(before(b, at) =~= b.take(at));
    law_line_feeds_are_counted(head, tail);
    law_line_feeds_are_counted(tail, Seq::empty());
    lemma_line_start(head, tail);
    if start > 0 {
        assert(head =~= b.take(start - 1) + seq![10u8]);
        law_line_feeds_are_counted(b.take(start - 1), seq![10u8]);
        assert(before(b, start - 1) =~= b.take(start - 1));
    }
}

/// The line at a place goes from behind the line feed before it to the next
/// line feed, or to the ends of the text.
pub proof fn law_the_line_at_a_place(b: Seq<u8>, start: int, end: int, at: int)
    requires
        0 <= start <= at <= end <= b.len(),
        start == 0 || b[start - 1] == 10,
        end == b.len() || b[end] == 10,
        !b.subrange(start, end).contains(10),
    ensures
        line_at(b, at) == b.subrange(start, end),
{
    let line = b.subrange(start, end);
    let tail = b.subrange(start, at);
    assert(!tail.contains(10)) by {
        if tail.contains(10) {
            let k = choose|k: int| 0 <= k < tail.len() && tail[k] == 10;
            assert(line[k] == 10);
        }
    }
    lemma_line_start(b.take(start), tail);
    assert(b.take(at) =~= b.take(start) + tail);
    text::lemma_find_from(b, seq![10u8], at);
    assert forall|i: int| at <= i < end implies !text::occurs_at(b, seq![10u8], i) by {
        if text::occurs_at(b, seq![10u8], i) {
            assert(b.subrange(i, i + 1)[0] == seq![10u8][0]);
            assert(line[i - start] == 10);
        }
    }
    if end < b.len() {
        assert(b.subrange(end, end + 1) =~= seq![10u8]);
        assert(text::occurs_at(b, seq![10u8], end));
    }
}

/// Whether the pragma stands at a place of a line, and at no earlier one.
pub open spec fn first_pragma_at(line: Seq<u8>, at: int) -> bool {
    &&& text::occurs_at(line, text::bytes("# pragma: no mutate"@), at)
    &&& forall|i: int|
        0 <= i < at ==> !#[trigger] text::occurs_at(
            line,
            text::bytes("# pragma: no mutate"@),
            i,
        )
}

/// A line without the pragma suppresses no operator. One with a bare pragma
/// suppresses all of them. One with operator in brackets behind the pragma
/// suppresses the operator of that name alone, and an open bracket that is not
/// closed nothing.
pub proof fn law_pragmas_suppress(
    start: Seq<u8>,
    name: Seq<u8>,
    end: Seq<u8>,
    operator: Seq<u8>,
)
    requires
        !name.contains(41),
    ensures
        ({
            let mark = text::bytes("# pragma: no mutate"@);
            let open = start + mark + seq![40u8] + name;
            let closed = open + seq![41u8] + end;
            let bare = start + mark + end;
            &&& (forall|i: int| !#[trigger] text::occurs_at(start, mark, i)) ==> !line_suppresses(
                start,
                operator,
            )
            &&& first_pragma_at(bare, start.len() as int) && (end.len() == 0 || end[0] != 40)
                ==> line_suppresses(bare, operator)
            &&& first_pragma_at(closed, start.len() as int) ==> (line_suppresses(closed, operator)
                <==> name == operator)
            &&& first_pragma_at(open, start.len() as int) ==> !line_suppresses(open, operator)
        }),
{
    let mark = text::bytes("# pragma: no mutate"@);
    let n = start.len() as int;
    let open = start + mark + seq![40u8] + name;
    let closed = open + seq![41u8] + end;
    let bare = start + mark + end;
    text::lemma_find_from(start, mark, 0);
    text::lemma_find_from(bare, mark, 0);
    text::lemma_find_from(closed, mark, 0);
    text::lemma_find_from(open, mark, 0);
    assert(bare.skip(n + mark.len()) =~= end);
    let inner = seq![40u8] + name;
    assert(open.skip(n + mark.len()) =~= inner);
    let rest = inner + seq![41u8] + end;
    assert(closed.skip(n + mark.len()) =~= rest);
    text::lemma_find_from(inner, seq![41u8], 0);
    text::lemma_find_from(rest, seq![41u8], 0);
    assert forall|i: int| 0 <= i < inner.len() implies !#[trigger] text::occurs_at(
        inner,
        seq![41u8],
        i,
    ) by {
        assert(inner.subrange(i, i + 1)[0] == inner[i]);
        assert(seq![41u8][0] == 41);
        if i > 0 {
            assert(name.contains(name[i - 1]));
        }
    }
    assert forall|i: int| 0 <= i < inner.len() implies !#[trigger] text::occurs_at(
        rest,
        seq![41u8],
        i,
    ) by {
        assert(rest.subrange(i, i + 1)[0] == inner[i]);
        assert(seq![41u8][0] == 41);
        if i > 0 {
            assert(name.contains(name[i - 1]));
        }
    }
    assert(rest.subrange(inner.len() as int, inner.len() as int + 1) =~= seq![41u8]);
    assert(text::occurs_at(rest, seq![41u8], inner.len() as int));
    assert(rest.subrange(1, inner.len() as int) =~= name);
    assert(!text::occurs_at(inner, seq![41u8], inner.len() as int));
    if first_pragma_at(closed, n) {
        assert(text::find_bytes(closed, mark) == Some(n));
        assert(text::find_bytes(rest, seq![41u8]) == Some(inner.len() as int));
    }
    if first_pragma_at(open, n) {
        assert(text::find_bytes(open, mark) == Some(n));
        assert(text::find_bytes(inner, seq![41u8]) is None);
    }
    if first_pragma_at(bare, n) {
        assert(text::find_bytes(bare, mark) == Some(n));
    }
}

} // verus!
