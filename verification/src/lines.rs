//! Characters, lines and white space of a text.
use crate::text::texts;
use vstd::prelude::*;

verus! {

/// The characters of a text.
pub fn chars(s: &str) -> (r: Vec<char>)
    ensures
        r@ == s@,
{
    let mut out: Vec<char> = Vec::new();
    for c in it: s.chars()
        invariant
            out@ =~= it.seq().take(it.index()),
            it.seq() == s@,
    {
        out.push(c);
    }
    assert(out@ =~= s@);
    out
}

/// Appends the characters of a list from index `from` to index `to`.
pub fn push_range(list: &Vec<char>, from: usize, to: usize, out: &mut String)
    requires
        from <= to <= list@.len(),
    ensures
        final(out)@ == old(out)@ + list@.subrange(from as int, to as int),
{
    let mut i: usize = from;
    assert(out@ =~= old(out)@ + list@.subrange(from as int, i as int));
    while i < to
        invariant
            from <= i <= to <= list@.len(),
            out@ == old(out)@ + list@.subrange(from as int, i as int),
        decreases to - i,
    {
        out.push(list[i]);
        assert(out@ =~= old(out)@ + list@.subrange(from as int, i + 1));
        i = i + 1;
    }
}

/// The text made of a list of characters from index `from` to index `to`.
pub fn text_of(list: &Vec<char>, from: usize, to: usize) -> (r: String)
    requires
        from <= to <= list@.len(),
    ensures
        r@ == list@.subrange(from as int, to as int),
{
    let mut out: String = String::new();
    push_range(list, from, to, &mut out);
    assert(out@ =~= list@.subrange(from as int, to as int));
    out
}

/// Whether a character is white space, as Unicode has it.
pub open spec fn is_white(c: char) -> bool {
    let n = c as u32;
    ||| 0x9 <= n <= 0xd
    ||| n == 0x20
    ||| n == 0x85
    ||| n == 0xa0
    ||| n == 0x1680
    ||| 0x2000 <= n <= 0x200a
    ||| n == 0x2028
    ||| n == 0x2029
    ||| n == 0x202f
    ||| n == 0x205f
    ||| n == 0x3000
}

/// Whether a character is white space.
pub fn white(c: char) -> (r: bool)
    ensures
        r == is_white(c),
{
    let n: u32 = c as u32;
    (0x9 <= n && n <= 0xd) || n == 0x20 || n == 0x85 || n == 0xa0 || n == 0x1680 || (0x2000 <= n
        && n <= 0x200a) || n == 0x2028 || n == 0x2029 || n == 0x202f || n == 0x205f || n == 0x3000
}

/// A text without the white space that it starts with.
pub open spec fn trim_start(s: Seq<char>) -> Seq<char>
    decreases s.len(),
{
    if s.len() > 0 && is_white(s[0]) {
        trim_start(s.drop_first())
    } else {
        s
    }
}

/// The index of the first character that is not white space.
pub fn skip_white(list: &Vec<char>) -> (r: usize)
    ensures
        r <= list@.len(),
        trim_start(list@) == list@.skip(r as int),
{
    let mut i: usize = 0;
    assert(list@.skip(0) =~= list@);
    while i < list.len() && white(list[i])
        invariant
            i <= list@.len(),
            trim_start(list@) == trim_start(list@.skip(i as int)),
        decreases list.len() - i,
    {
        assert(list@.skip(i as int).drop_first() =~= list@.skip(i + 1));
        i = i + 1;
    }
    i
}

/// The first index at or after `from` that holds a newline, or the length.
pub open spec fn newline_from(s: Seq<char>, from: int) -> int
    decreases s.len() - from,
{
    if from < 0 || from >= s.len() || s[from] == '\n' {
        from
    } else {
        newline_from(s, from + 1)
    }
}

/// A line without the carriage return that ends it.
pub open spec fn without_return(line: Seq<char>) -> Seq<char> {
    if line.len() > 0 && line.last() == '\r' {
        line.drop_last()
    } else {
        line
    }
}

/// The lines of a text. A line ends at a newline, or at a carriage return
/// and a newline; the last one may end with the text.
pub open spec fn lines(s: Seq<char>) -> Seq<Seq<char>>
    decreases s.len(),
{
    let end = newline_from(s, 0);
    if s.len() == 0 {
        Seq::empty()
    } else if end < 0 || end >= s.len() {
        seq![s]
    } else {
        seq![without_return(s.take(end))] + lines(s.skip(end + 1))
    }
}

/// The lines of a text.
pub fn split_lines(s: &Vec<char>) -> (r: Vec<Vec<char>>)
    ensures
        r@.map_values(|line: Vec<char>| line@) == lines(s@),
{
    let mut out: Vec<Vec<char>> = Vec::new();
    let mut start: usize = 0;
    assert(s@.skip(0) =~= s@);
    assert(out@.map_values(|line: Vec<char>| line@) + lines(s@.skip(0)) =~= lines(s@));
    while start < s.len()
        invariant
            start <= s@.len(),
            out@.map_values(|line: Vec<char>| line@) + lines(s@.skip(start as int)) == lines(s@),
        decreases s.len() - start,
    {
        let ghost rest = s@.skip(start as int);
        let mut end: usize = start;
        while end < s.len() && s[end] != '\n'
            invariant
                start <= end <= s@.len(),
                rest == s@.skip(start as int),
                newline_from(rest, 0) == newline_from(rest, end - start),
            decreases s.len() - end,
        {
            assert(rest[end - start] == s@[end as int]);
            end = end + 1;
        }
        let terminated: bool = end < s.len();
        proof {
            if terminated {
                assert(rest[end - start] == s@[end as int]);
            }
            assert(newline_from(rest, 0) == end - start);
        }
        let stop: usize = if terminated && end > start && s[end - 1] == '\r' {
            end - 1
        } else {
            end
        };
        let mut line: Vec<char> = Vec::new();
        let mut k: usize = start;
        while k < stop
            invariant
                start <= k <= stop <= s@.len(),
                line@ == s@.subrange(start as int, k as int),
            decreases stop - k,
        {
            line.push(s[k]);
            assert(line@ =~= s@.subrange(start as int, k + 1));
            k = k + 1;
        }
        let ghost before = out@;
        let ghost added = line@;
        out.push(line);
        proof {
            assert(out@.map_values(|line: Vec<char>| line@) =~= before.map_values(
                |line: Vec<char>| line@,
            ).push(added));
            if terminated {
                assert(rest.take(end - start) =~= s@.subrange(start as int, end as int));
                assert(without_return(rest.take(end - start)) =~= added);
                assert(rest.skip(end - start + 1) =~= s@.skip(end + 1));
                assert(lines(rest) =~= seq![added] + lines(s@.skip(end + 1)));
                assert(out@.map_values(|line: Vec<char>| line@) + lines(s@.skip(end + 1))
                    =~= before.map_values(|line: Vec<char>| line@) + lines(rest));
            } else {
                assert(added =~= rest);
                assert(lines(rest) =~= seq![added]);
                assert(s@.skip(s@.len() as int) =~= Seq::empty());
                assert(lines(s@.skip(s@.len() as int)) =~= Seq::<Seq<char>>::empty());
                assert(out@.map_values(|line: Vec<char>| line@) + lines(s@.skip(s@.len() as int))
                    =~= before.map_values(|line: Vec<char>| line@) + lines(rest));
            }
        }
        start = if terminated {
            end + 1
        } else {
            end
        };
    }
    assert(s@.skip(start as int) =~= Seq::empty());
    assert(out@.map_values(|line: Vec<char>| line@) =~= lines(s@));
    out
}

/// Texts in a row with `gap` between them.
pub open spec fn join(parts: Seq<Seq<char>>, gap: Seq<char>) -> Seq<char>
    decreases parts.len(),
{
    if parts.len() == 0 {
        Seq::empty()
    } else if parts.len() == 1 {
        parts[0]
    } else {
        join(parts.drop_last(), gap) + gap + parts.last()
    }
}

/// The parts of a text between separators.
pub open spec fn split(s: Seq<char>, separator: char) -> Seq<Seq<char>>
    decreases s.len(),
{
    if s.len() == 0 {
        seq![Seq::empty()]
    } else {
        let init = split(s.drop_last(), separator);
        if s.last() == separator {
            init.push(Seq::empty())
        } else {
            init.drop_last().push(init.last().push(s.last()))
        }
    }
}

/// The parts of a text between separators.
pub fn split_text(s: &str, separator: char) -> (r: Vec<String>)
    ensures
        texts(r@) == split(s@, separator),
        r@.len() >= 1,
{
    let list: Vec<char> = chars(s);
    let mut out: Vec<String> = Vec::new();
    let mut part: String = String::new();
    let mut i: usize = 0;
    assert(list@.take(0) =~= Seq::<char>::empty());
    assert(texts(out@) =~= split(list@.take(0), separator).drop_last());
    assert(part@ =~= split(list@.take(0), separator).last());
    while i < list.len()
        invariant
            i <= list@.len(),
            split(list@.take(i as int), separator).len() >= 1,
            texts(out@) == split(list@.take(i as int), separator).drop_last(),
            part@ == split(list@.take(i as int), separator).last(),
        decreases list.len() - i,
    {
        let ghost before = split(list@.take(i as int), separator);
        let ghost after = split(list@.take(i + 1), separator);
        let ghost old_out = out@;
        assert(list@.take(i + 1).drop_last() =~= list@.take(i as int));
        let c: char = list[i];
        if c == separator {
            out.push(part);
            assert(texts(out@) =~= texts(old_out).push(before.last()));
            assert(texts(out@) =~= before);
            part = String::new();
            assert(after.drop_last() =~= before);
            assert(part@ =~= after.last());
        } else {
            part.push(c);
            assert(after.drop_last() =~= before.drop_last());
        }
        i = i + 1;
    }
    let ghost old_out = out@;
    let ghost last = part@;
    out.push(part);
    proof {
        assert(list@.take(i as int) =~= list@);
        let whole = split(s@, separator);
        assert(texts(out@) =~= texts(old_out).push(last));
        assert(whole =~= whole.drop_last().push(whole.last()));
    }
    out
}

/// The first `count` texts of a list in a row with `gap` between them.
pub fn join_texts(list: &Vec<String>, count: usize, gap: &str) -> (r: String)
    requires
        count <= list@.len(),
    ensures
        r@ == join(texts(list@).take(count as int), gap@),
{
    let mut out: String = String::new();
    let ghost all = texts(list@);
    let mut i: usize = 0;
    assert(out@ =~= join(all.take(0), gap@));
    while i < count
        invariant
            i <= count <= list@.len(),
            all == texts(list@),
            out@ == join(all.take(i as int), gap@),
        decreases count - i,
    {
        let ghost before = out@;
        if i > 0 {
            out.append(gap);
        }
        out.append(list[i].as_str());
        proof {
            let next = all.take(i + 1);
            assert(next.drop_last() =~= all.take(i as int));
            assert(next.last() == list@[i as int]@);
            if i == 0 {
                assert(before =~= Seq::<char>::empty());
                assert(out@ =~= next[0]);
            } else {
                assert(out@ =~= before + gap@ + next.last());
            }
        }
        i = i + 1;
    }
    out
}

/// The characters that count as white space.
pub proof fn law_white_space(c: char)
    ensures
        is_white(c) <==> set![
            0x9u32, 0xau32, 0xbu32, 0xcu32, 0xdu32, 0x20u32, 0x85u32, 0xa0u32, 0x1680u32,
            0x2000u32, 0x2001u32, 0x2002u32, 0x2003u32, 0x2004u32, 0x2005u32, 0x2006u32,
            0x2007u32, 0x2008u32, 0x2009u32, 0x200au32, 0x2028u32, 0x2029u32, 0x202fu32,
            0x205fu32, 0x3000u32,
        ].contains(c as u32),
{
}

/// Trimming takes white space from the start, all of it and nothing else.
pub proof fn law_trimming_takes_leading_white_space(white: Seq<char>, rest: Seq<char>)
    requires
        forall|i: int| 0 <= i < white.len() ==> is_white(#[trigger] white[i]),
        rest.len() == 0 || !is_white(rest[0]),
    ensures
        trim_start(white + rest) == rest,
    decreases white.len(),
{
    if white.len() == 0 {
        assert(white + rest =~= rest);
    } else {
        let tail = white.drop_first();
        assert forall|i: int| 0 <= i < tail.len() implies is_white(#[trigger] tail[i]) by {
            assert(tail[i] == white[i + 1]);
        }
        law_trimming_takes_leading_white_space(tail, rest);
        assert((white + rest).drop_first() =~= tail + rest);
        assert((white + rest)[0] == white[0]);
    }
}

proof fn lemma_newline_from(s: Seq<char>, from: int, end: int)
    requires
        0 <= from <= end <= s.len(),
        forall|i: int| from <= i < end ==> s[i] != '\n',
        end < s.len() ==> s[end] == '\n',
    ensures
        newline_from(s, from) == end,
    decreases end - from,
{
    if from < end {
        lemma_newline_from(s, from + 1, end);
    }
}

/// A text is cut at its line feeds. A carriage return before one goes with it,
/// and a text that ends with a line feed has no empty line behind it.
pub proof fn law_text_is_cut_at_line_feeds(line: Seq<char>, rest: Seq<char>)
    requires
        !line.contains('\n'),
    ensures
        lines(Seq::<char>::empty()).len() == 0,
        line.len() > 0 ==> lines(line) == seq![line],
        line.len() == 0 || line.last() != '\r' ==> lines(line.push('\n') + rest) == seq![line]
            + lines(rest),
        lines(line.push('\r').push('\n') + rest) == seq![line] + lines(rest),
{
    assert forall|i: int| 0 <= i < line.len() implies line[i] != '\n' by {
        assert(line.contains(line[i]));
    }
    if line.len() > 0 {
        lemma_newline_from(line, 0, line.len() as int);
    }
    let plain = line.push('\n') + rest;
    lemma_newline_from(plain, 0, line.len() as int);
    assert(plain.take(line.len() as int) =~= line);
    assert(plain.skip(line.len() as int + 1) =~= rest);
    let returned = line.push('\r').push('\n') + rest;
    lemma_newline_from(returned, 0, line.len() as int + 1);
    assert(returned.take(line.len() as int + 1) =~= line.push('\r'));
    assert(line.push('\r').drop_last() =~= line);
    assert(returned.skip(line.len() as int + 2) =~= rest);
}

/// Pieces joined in two parts are the two parts with the gap between them.
pub proof fn law_joining_goes_over_concatenation(
    a: Seq<Seq<char>>,
    b: Seq<Seq<char>>,
    gap: Seq<char>,
)
    requires
        a.len() > 0,
        b.len() > 0,
    ensures
        join(a + b, gap) == join(a, gap) + gap + join(b, gap),
        join(Seq::<Seq<char>>::empty(), gap) == Seq::<char>::empty(),
        join(seq![a[0]], gap) == a[0],
    decreases b.len(),
{
    let all = a + b;
    assert(all.drop_last() =~= a + b.drop_last());
    assert(all.last() == b.last());
    if b.len() == 1 {
        assert(a + b.drop_last() =~= a);
        assert(b[0] == b.last());
    } else {
        law_joining_goes_over_concatenation(a, b.drop_last(), gap);
        assert(join(all, gap) =~= join(a, gap) + gap + join(b, gap));
    }
}

/// The pieces of a text, joined with the separator, are the text. No piece holds
/// the separator.
pub proof fn law_pieces_make_the_text(s: Seq<char>, separator: char)
    ensures
        split(s, separator).len() > 0,
        join(split(s, separator), seq![separator]) == s,
        forall|i: int|
            0 <= i < split(s, separator).len() ==> !(#[trigger] split(s, separator)[i]).contains(
                separator,
            ),
        split(s, separator).len() == s.filter(|c: char| c == separator).len() + 1,
    decreases s.len(),
{
    reveal(Seq::filter);
    let gap = seq![separator];
    let all = split(s, separator);
    if s.len() == 0 {
        assert(!all[0].contains(separator));
    } else {
        let init = split(s.drop_last(), separator);
        law_pieces_make_the_text(s.drop_last(), separator);
        assert forall|i: int| 0 <= i < all.len() implies !(#[trigger] all[i]).contains(
            separator,
        ) by {
            if i < init.len() - 1 || s.last() == separator && i < init.len() {
                assert(all[i] == init[i]);
            } else if s.last() != separator {
                let piece = init.last();
                assert(!init[init.len() - 1].contains(separator));
                if all[i].contains(separator) {
                    let k = choose|k: int| 0 <= k < all[i].len() && all[i][k] == separator;
                    assert(k < piece.len());
                    assert(piece.contains(piece[k]));
                }
            }
        }
        if s.last() == separator {
            assert(all.drop_last() =~= init);
            assert(join(all, gap) =~= s.drop_last() + gap + Seq::<char>::empty());
            assert(s =~= s.drop_last() + gap);
        } else {
            assert(all.drop_last() =~= init.drop_last());
            assert(all.last() == init.last().push(s.last()));
            if init.len() == 1 {
                assert(all[0] == all.last());
                assert(init[0] == init.last());
                assert(s =~= s.drop_last().push(s.last()));
            } else {
                assert(join(all, gap) =~= join(init.drop_last(), gap) + gap + init.last().push(
                    s.last(),
                ));
                assert(s =~= (join(init.drop_last(), gap) + gap + init.last()).push(s.last()));
            }
        }
    }
}

/// A text without the separator is its own only piece, and the pieces of two
/// texts with the separator between them are those of the one and the other.
pub proof fn law_splitting_goes_over_separators(a: Seq<char>, b: Seq<char>, separator: char)
    ensures
        !a.contains(separator) ==> split(a, separator) == seq![a],
        split(a.push(separator) + b, separator) == split(a, separator) + split(b, separator),
    decreases a.len() + b.len(),
{
    if a.len() > 0 && !a.contains(separator) {
        let init = a.drop_last();
        assert(!init.contains(separator)) by {
            if init.contains(separator) {
                let k = choose|k: int| 0 <= k < init.len() && init[k] == separator;
                assert(a.contains(a[k]));
            }
        }
        law_splitting_goes_over_separators(init, Seq::empty(), separator);
        assert(a.contains(a.last()));
        assert(a =~= init.push(a.last()));
        assert(split(a, separator) =~= seq![a]);
    }
    if a.len() == 0 {
        assert(a =~= Seq::<char>::empty());
        assert(split(a, separator) =~= seq![a]);
    }
    let both = a.push(separator) + b;
    if b.len() == 0 {
        assert(both =~= a.push(separator));
        assert(both.drop_last() =~= a);
        assert(split(both, separator) =~= split(a, separator) + split(b, separator));
    } else {
        law_splitting_goes_over_separators(a, b.drop_last(), separator);
        law_pieces_make_the_text(b.drop_last(), separator);
        assert(both.drop_last() =~= a.push(separator) + b.drop_last());
        assert(both.last() == b.last());
        assert(split(both, separator) =~= split(a, separator) + split(b, separator));
    }
}

} // verus!
