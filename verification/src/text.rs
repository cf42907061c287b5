//! Byte-level views of UTF-8 text: spans, substring search and concatenation.
//!
//! Source positions are byte offsets, while the contents of a `str` are
//! specified as a sequence of characters. The functions here connect the two.
use vstd::prelude::*;
use vstd::utf8::{decode_utf8, encode_utf8, is_char_boundary};

verus! {

/// `str == str` compares the characters of both sides.
pub assume_specification[ <str as PartialEq>::eq ](a: &str, b: &str) -> (r: bool)
    ensures
        r == (a@ == b@),
;

/// `String::push` appends one character.
pub assume_specification[ String::push ](s: &mut String, c: char)
    ensures
        final(s)@ == old(s)@.push(c),
;

/// Whether two texts are the same.
pub fn same(a: &str, b: &str) -> (r: bool)
    ensures
        r == (a@ == b@),
{
    *a == *b
}

/// The characters of each text of a list.
pub open spec fn texts(list: Seq<String>) -> Seq<Seq<char>> {
    list.map_values(|t: String| t@)
}

/// A copy of a list of texts.
pub fn copy_texts(list: &Vec<String>) -> (r: Vec<String>)
    ensures
        r@ == list@,
{
    let mut out: Vec<String> = Vec::new();
    let mut i: usize = 0;
    while i < list.len()
        invariant
            i <= list@.len(),
            out@ == list@.take(i as int),
        decreases list.len() - i,
    {
        out.push(list[i].clone());
        assert(out@ =~= list@.take(i + 1));
        i = i + 1;
    }
    assert(out@ =~= list@);
    out
}

/// The UTF-8 bytes of a text.
pub open spec fn bytes(text: Seq<char>) -> Seq<u8> {
    encode_utf8(text)
}

/// Whether the byte range `start..end` cuts out whole characters of `text`.
pub open spec fn is_span(text: Seq<char>, start: int, end: int) -> bool {
    &&& 0 <= start <= end <= bytes(text).len()
    &&& is_char_boundary(bytes(text), start)
    &&& is_char_boundary(bytes(text), end)
}

/// The characters of `text` in the byte range `start..end`.
pub open spec fn span(text: Seq<char>, start: int, end: int) -> Seq<char> {
    decode_utf8(bytes(text).subrange(start, end))
}

/// Whether `needle` stands in `hay` at index `at`.
pub open spec fn occurs_at(hay: Seq<u8>, needle: Seq<u8>, at: int) -> bool {
    0 <= at && at + needle.len() <= hay.len() && hay.subrange(at, at + needle.len()) == needle
}

/// The first index at or after `from` at which `needle` stands in `hay`.
pub open spec fn find_from(hay: Seq<u8>, needle: Seq<u8>, from: int) -> Option<int>
    decreases hay.len() + 1 - from,
{
    if from < 0 || from + needle.len() > hay.len() {
        None
    } else if occurs_at(hay, needle, from) {
        Some(from)
    } else {
        find_from(hay, needle, from + 1)
    }
}

/// The first index at which `needle` stands in `hay`.
pub open spec fn find_bytes(hay: Seq<u8>, needle: Seq<u8>) -> Option<int> {
    find_from(hay, needle, 0)
}

/// A search result is the first occurrence, and no result means no occurrence.
pub proof fn lemma_find_from(hay: Seq<u8>, needle: Seq<u8>, from: int)
    requires
        0 <= from,
    ensures
        find_from(hay, needle, from) matches Some(i) ==> from <= i && occurs_at(hay, needle, i)
            && forall|j: int| from <= j < i ==> !occurs_at(hay, needle, j),
        find_from(hay, needle, from) is None ==> forall|j: int|
            from <= j ==> !occurs_at(hay, needle, j),
    decreases hay.len() + 1 - from,
{
    if from + needle.len() <= hay.len() && !occurs_at(hay, needle, from) {
        lemma_find_from(hay, needle, from + 1);
    }
}

/// The bytes of a text form valid UTF-8 and decode to the text.
pub proof fn lemma_bytes(text: Seq<char>)
    ensures
        vstd::utf8::valid_utf8(bytes(text)),
        decode_utf8(bytes(text)) == text,
        is_char_boundary(bytes(text), 0),
        is_char_boundary(bytes(text), bytes(text).len() as int),
{
    broadcast use vstd::utf8::encode_utf8_valid_utf8;
    broadcast use vstd::utf8::encode_utf8_decode_utf8;
    broadcast use vstd::utf8::is_char_boundary_start_end_of_seq;

}

/// The part of `source` in the byte range `start..end`, when that range
/// cuts out whole characters.
pub fn slice(source: &str, start: usize, end: usize) -> (r: Option<&str>)
    ensures
        r is Some <==> is_span(source@, start as int, end as int),
        r matches Some(part) ==> part@ == span(source@, start as int, end as int) && bytes(part@)
            == bytes(source@).subrange(start as int, end as int),
{
    let total: usize = source.as_bytes().len();
    proof {
        lemma_bytes(source@);
    }
    if start > end || end > total {
        return None;
    }
    if !source.is_char_boundary(start) || !source.is_char_boundary(end) {
        return None;
    }
    let head: &str = source.split_at(end).0;
    proof {
        lemma_boundary_of_prefix(bytes(source@), start as int, end as int);
    }
    let part: &str = head.split_at(start).1;
    proof {
        assert(bytes(part@) =~= bytes(source@).subrange(start as int, end as int));
        lemma_bytes(part@);
    }
    Some(part)
}

/// A character boundary inside a prefix of valid text is a boundary of the prefix.
pub proof fn lemma_boundary_of_prefix(all: Seq<u8>, start: int, end: int)
    requires
        vstd::utf8::valid_utf8(all),
        0 <= start <= end <= all.len(),
        is_char_boundary(all, start),
        is_char_boundary(all, end),
    ensures
        vstd::utf8::valid_utf8(all.subrange(0, end)),
        is_char_boundary(all.subrange(0, end), start),
{
    let head = all.subrange(0, end);
    vstd::utf8::valid_utf8_split(all, end);
    if start < end {
        vstd::utf8::is_char_boundary_iff_not_is_continuation_byte(all, start);
        vstd::utf8::is_char_boundary_iff_not_is_continuation_byte(head, start);
        assert(head[start] == all[start]);
    } else {
        vstd::utf8::is_char_boundary_start_end_of_seq(head);
    }
}

/// The index, counted from `lo`, of the first occurrence of `needle` in the
/// range `lo..hi` of `hay`.
pub fn find_in(hay: &[u8], needle: &[u8], lo: usize, hi: usize) -> (r: Option<usize>)
    requires
        lo <= hi <= hay@.len(),
    ensures
        r is Some <==> find_bytes(hay@.subrange(lo as int, hi as int), needle@) is Some,
        r matches Some(i) ==> find_bytes(hay@.subrange(lo as int, hi as int), needle@) == Some(
            i as int,
        ) && lo + i + needle@.len() <= hi,
{
    let ghost part = hay@.subrange(lo as int, hi as int);
    if needle.len() > hi - lo {
        return None;
    }
    let last: usize = hi - lo - needle.len();
    let mut i: usize = 0;
    while i <= last
        invariant
            lo <= hi <= hay@.len(),
            part == hay@.subrange(lo as int, hi as int),
            last + needle@.len() == hi - lo,
            i <= last + 1,
            find_bytes(part, needle@) == find_from(part, needle@, i as int),
        decreases last + 1 - i,
    {
        let here: bool = starts_at(hay, needle, lo + i);
        assert(part.subrange(i as int, i + needle@.len()) =~= hay@.subrange(
            lo + i,
            lo + i + needle@.len(),
        ));
        if here {
            return Some(i);
        }
        if i == last {
            assert(find_from(part, needle@, i + 1) is None);
            return None;
        }
        i = i + 1;
    }
    None
}

/// Whether `needle` stands somewhere in `hay`.
pub open spec fn has(hay: Seq<char>, needle: Seq<char>) -> bool {
    find_bytes(bytes(hay), bytes(needle)) is Some
}

/// Whether `needle` stands somewhere in `hay`.
pub fn contains(hay: &str, needle: &str) -> (r: bool)
    ensures
        r == has(hay@, needle@),
{
    find(hay, needle).is_some()
}

/// Three texts in a row.
pub fn cat3(a: &str, b: &str, c: &str) -> (r: String)
    ensures
        r@ == a@ + b@ + c@,
{
    let mut out: String = a.to_owned();
    out.append(b);
    out.append(c);
    out
}

/// Four texts in a row.
pub fn cat4(a: &str, b: &str, c: &str, d: &str) -> (r: String)
    ensures
        r@ == a@ + b@ + c@ + d@,
{
    let mut out: String = cat3(a, b, c);
    out.append(d);
    out
}

/// The index of the first occurrence of `needle` in `hay`.
pub fn find(hay: &str, needle: &str) -> (r: Option<usize>)
    ensures
        r is Some <==> find_bytes(bytes(hay@), bytes(needle@)) is Some,
        r matches Some(i) ==> find_bytes(bytes(hay@), bytes(needle@)) == Some(i as int) && i
            + bytes(needle@).len() <= bytes(hay@).len(),
{
    let h: &[u8] = hay.as_bytes();
    let n: &[u8] = needle.as_bytes();
    if n.len() > h.len() {
        return None;
    }
    let last: usize = h.len() - n.len();
    let mut i: usize = 0;
    while i <= last
        invariant
            h@ == bytes(hay@),
            n@ == bytes(needle@),
            last + n.len() == h.len(),
            i <= last + 1,
            find_bytes(h@, n@) == find_from(h@, n@, i as int),
        decreases last + 1 - i,
    {
        if starts_at(h, n, i) {
            return Some(i);
        }
        if i == last {
            assert(find_from(h@, n@, i + 1) is None);
            return None;
        }
        i = i + 1;
    }
    None
}

/// Whether `needle` stands in `hay` at index `at`.
pub fn starts_at(hay: &[u8], needle: &[u8], at: usize) -> (r: bool)
    requires
        at + needle@.len() <= hay@.len(),
    ensures
        r == occurs_at(hay@, needle@, at as int),
{
    let total: usize = hay.len();
    let mut k: usize = 0;
    while k < needle.len()
        invariant
            k <= needle.len(),
            total == hay@.len(),
            at + needle@.len() <= hay@.len(),
            forall|j: int| 0 <= j < k ==> hay@[at + j] == needle@[j],
        decreases needle.len() - k,
    {
        if hay[at + k] != needle[k] {
            proof {
                assert(hay@.subrange(at as int, at + needle@.len())[k as int] != needle@[k as int]);
            }
            return false;
        }
        k = k + 1;
    }
    assert(hay@.subrange(at as int, at + needle@.len()) =~= needle@);
    true
}

/// The bytes of two texts in a row are the bytes of one after the other's.
pub proof fn lemma_bytes_concat(a: Seq<char>, b: Seq<char>)
    ensures
        bytes(a + b) == bytes(a) + bytes(b),
    decreases a.len(),
{
    if a.len() == 0 {
        assert(a + b =~= b);
        assert(bytes(a) + bytes(b) =~= bytes(b));
    } else {
        assert((a + b).drop_first() =~= a.drop_first() + b);
        lemma_bytes_concat(a.drop_first(), b);
        assert(bytes(a + b) =~= bytes(a) + bytes(b));
    }
}

/// Texts with the same bytes are the same.
pub proof fn lemma_bytes_injective(a: Seq<char>, b: Seq<char>)
    requires
        bytes(a) == bytes(b),
    ensures
        a == b,
{
    lemma_bytes(a);
    lemma_bytes(b);
}

/// The bytes of a span are the bytes in its range.
pub proof fn lemma_span_bytes(text: Seq<char>, start: int, end: int)
    requires
        is_span(text, start, end),
    ensures
        bytes(span(text, start, end)) == bytes(text).subrange(start, end),
{
    lemma_bytes(text);
    let all = bytes(text);
    let head = all.subrange(0, end);
    lemma_boundary_of_prefix(all, start, end);
    vstd::utf8::valid_utf8_split(head, start);
    assert(head.subrange(start, head.len() as int) =~= all.subrange(start, end));
    vstd::utf8::decode_utf8_encode_utf8(all.subrange(start, end));
}

/// A text is made of the part before a span, the span and the part after it.
pub proof fn lemma_split_at_span(text: Seq<char>, start: int, end: int)
    requires
        is_span(text, start, end),
    ensures
        is_span(text, 0, start),
        is_span(text, end, bytes(text).len() as int),
        text == span(text, 0, start) + span(text, start, end) + span(
            text,
            end,
            bytes(text).len() as int,
        ),
{
    lemma_bytes(text);
    let n = bytes(text).len() as int;
    lemma_span_bytes(text, 0, start);
    lemma_span_bytes(text, start, end);
    lemma_span_bytes(text, end, n);
    let a = span(text, 0, start);
    let b = span(text, start, end);
    let c = span(text, end, n);
    lemma_bytes_concat(a, b);
    lemma_bytes_concat(a + b, c);
    assert(bytes(a + b + c) =~= bytes(text));
    lemma_bytes_injective(a + b + c, text);
}

/// In a text made of three parts, the middle part is a span.
pub proof fn lemma_middle_is_span(a: Seq<char>, b: Seq<char>, c: Seq<char>)
    ensures
        is_span(a + b + c, bytes(a).len() as int, (bytes(a).len() + bytes(b).len()) as int),
        span(a + b + c, bytes(a).len() as int, (bytes(a).len() + bytes(b).len()) as int) == b,
        span(a + b + c, 0, bytes(a).len() as int) == a,
        span(
            a + b + c,
            (bytes(a).len() + bytes(b).len()) as int,
            bytes(a + b + c).len() as int,
        ) == c,
{
    let all = a + b + c;
    let i = bytes(a).len() as int;
    let j = i + bytes(b).len() as int;
    lemma_bytes_concat(a, b);
    lemma_bytes_concat(a + b, c);
    lemma_bytes(a);
    lemma_bytes(b);
    lemma_bytes(c);
    lemma_bytes(all);
    vstd::utf8::valid_utf8_concat(bytes(b), bytes(c));
    lemma_boundary_of_concat(bytes(a), bytes(b) + bytes(c));
    assert(bytes(a) + (bytes(b) + bytes(c)) =~= bytes(all));
    vstd::utf8::valid_utf8_concat(bytes(a), bytes(b));
    lemma_boundary_of_concat(bytes(a) + bytes(b), bytes(c));
    assert(bytes(all).subrange(i, j) =~= bytes(b));
    assert(bytes(all).subrange(0, i) =~= bytes(a));
    assert(bytes(all).subrange(j, bytes(all).len() as int) =~= bytes(c));
}

/// The joint of two valid texts is a character boundary.
pub proof fn lemma_boundary_of_concat(a: Seq<u8>, b: Seq<u8>)
    requires
        vstd::utf8::valid_utf8(a),
        vstd::utf8::valid_utf8(b),
    ensures
        vstd::utf8::valid_utf8(a + b),
        is_char_boundary(a + b, a.len() as int),
{
    vstd::utf8::valid_utf8_concat(a, b);
    vstd::utf8::is_char_boundary_start_end_of_seq(a + b);
    if b.len() > 0 {
        vstd::utf8::is_char_boundary_start_end_of_seq(b);
        vstd::utf8::is_char_boundary_iff_not_is_continuation_byte(b, 0);
        vstd::utf8::is_char_boundary_iff_not_is_continuation_byte(a + b, a.len() as int);
        assert((a + b)[a.len() as int] == b[0]);
    }
}

/// A valid text that starts another valid text ends at a character boundary
/// of it.
pub proof fn lemma_boundary_after_prefix(all: Seq<u8>, prefix: Seq<u8>)
    requires
        vstd::utf8::valid_utf8(all),
        vstd::utf8::valid_utf8(prefix),
        prefix.len() <= all.len(),
        all.subrange(0, prefix.len() as int) == prefix,
    ensures
        is_char_boundary(all, prefix.len() as int),
    decreases prefix.len(),
{
    if prefix.len() > 0 {
        let rest_all = vstd::utf8::pop_first_scalar(all);
        let rest = vstd::utf8::pop_first_scalar(prefix);
        let n = vstd::utf8::length_of_first_scalar(prefix);
        assert(forall|i: int| 0 <= i < prefix.len() ==> prefix[i] == all[i]) by {
            assert forall|i: int| 0 <= i < prefix.len() implies prefix[i] == all[i] by {
                assert(all.subrange(0, prefix.len() as int)[i] == all[i]);
            }
        }
        assert(vstd::utf8::length_of_first_scalar(all) == n);
        assert(rest_all.subrange(0, rest.len() as int) =~= rest);
        lemma_boundary_after_prefix(rest_all, rest);
    } else {
        vstd::utf8::is_char_boundary_start_end_of_seq(all);
    }
}

/// A part of a text that has the bytes of another text is a span of it.
pub proof fn lemma_occurrence_is_span(text: Seq<char>, part: Seq<char>, at: int)
    requires
        occurs_at(bytes(text), bytes(part), at),
        is_char_boundary(bytes(text), at),
    ensures
        is_span(text, at, at + bytes(part).len()),
        span(text, at, at + bytes(part).len()) == part,
{
    let all = bytes(text);
    let n = all.len() as int;
    lemma_bytes(text);
    lemma_bytes(part);
    vstd::utf8::valid_utf8_split(all, at);
    let tail = all.subrange(at, n);
    let k = bytes(part).len() as int;
    assert(tail.subrange(0, k) =~= all.subrange(at, at + k));
    lemma_boundary_after_prefix(tail, bytes(part));
    if at + k < n {
        vstd::utf8::is_char_boundary_iff_not_is_continuation_byte(tail, k);
        vstd::utf8::is_char_boundary_iff_not_is_continuation_byte(all, at + k);
        assert(tail[k] == all[at + k]);
    }
}

/// An occurrence of a non-empty text inside a span starts at a character
/// boundary.
pub proof fn lemma_found_is_span(text: Seq<char>, start: int, end: int, part: Seq<char>, at: int)
    requires
        is_span(text, start, end),
        occurs_at(bytes(text).subrange(start, end), bytes(part), at),
        part.len() > 0,
    ensures
        is_span(text, start + at, start + at + bytes(part).len()),
        span(text, start + at, start + at + bytes(part).len()) == part,
{
    let all = bytes(text);
    lemma_bytes(text);
    lemma_bytes(part);
    let k = bytes(part).len() as int;
    let region = all.subrange(start, end);
    assert(region.subrange(at, at + k) =~= all.subrange(start + at, start + at + k));
    assert(k > 0) by {
        if k == 0 {
            assert(bytes(part) =~= bytes(Seq::<char>::empty()));
            lemma_bytes_injective(part, Seq::empty());
        }
    }
    assert(bytes(part)[0] == all[start + at]) by {
        assert(all.subrange(start + at, start + at + k)[0] == all[start + at]);
    }
    vstd::utf8::is_char_boundary_iff_not_is_continuation_byte(bytes(part), 0);
    vstd::utf8::is_char_boundary_iff_not_is_continuation_byte(all, start + at);
    lemma_occurrence_is_span(text, part, start + at);
}

/// Whether a piece stands somewhere in a text.
pub open spec fn shows(text: Seq<char>, piece: Seq<char>) -> bool {
    exists|before: Seq<char>, after: Seq<char>| text == #[trigger] around(before, piece, after)
}

/// A piece with what stands before and behind it.
pub open spec fn around(before: Seq<char>, piece: Seq<char>, after: Seq<char>) -> Seq<char> {
    before + piece + after
}

/// A piece with texts on both sides of it is shown.
pub proof fn lemma_shows(text: Seq<char>, before: Seq<char>, piece: Seq<char>, after: Seq<char>)
    requires
        text =~= before + piece + after,
    ensures
        shows(text, piece),
{
    assert(text == around(before, piece, after));
}

/// What is shown in the first of two texts, or is the second, is shown in both
/// together.
pub broadcast proof fn lemma_shown_in_both(a: Seq<char>, b: Seq<char>, piece: Seq<char>)
    requires
        shows(a, piece) || b == piece,
    ensures
        #[trigger] shows(a + b, piece),
{
    if b == piece {
        lemma_shows(a + b, a, piece, Seq::empty());
    } else {
        let (before, after) = choose|before: Seq<char>, after: Seq<char>|
            a == #[trigger] around(before, piece, after);
        lemma_shows(a + b, before, piece, after + b);
    }
}

/// What is shown in a piece is shown wherever the piece is.
pub proof fn lemma_shown_within(text: Seq<char>, piece: Seq<char>, part: Seq<char>)
    requires
        shows(text, piece),
        shows(piece, part),
    ensures
        shows(text, part),
{
    let (a, b) = choose|a: Seq<char>, b: Seq<char>| text == #[trigger] around(a, piece, b);
    let (c, d) = choose|c: Seq<char>, d: Seq<char>| piece == #[trigger] around(c, part, d);
    lemma_shows(text, a + c, part, d + b);
}

/// A text has another if that stands somewhere in it.
pub proof fn law_having_is_showing(text: Seq<char>, piece: Seq<char>)
    ensures
        has(text, piece) <==> shows(text, piece),
{
    let t = bytes(text);
    let p = bytes(piece);
    lemma_find_from(t, p, 0);
    if shows(text, piece) {
        let (a, b) = choose|a: Seq<char>, b: Seq<char>| text == #[trigger] around(a, piece, b);
        lemma_bytes_concat(a + piece, b);
        lemma_bytes_concat(a, piece);
        let at = bytes(a).len() as int;
        assert(t.subrange(at, at + p.len()) =~= p);
        assert(occurs_at(t, p, at));
    }
    if has(text, piece) {
        if piece.len() == 0 {
            lemma_shows(text, Seq::empty(), piece, text);
        } else {
            let at = find_bytes(t, p)->0;
            lemma_bytes(text);
            assert(t.subrange(0, t.len() as int) =~= t);
            lemma_found_is_span(text, 0, t.len() as int, piece, at);
            lemma_split_at_span(text, at, at + p.len());
            lemma_shows(
                text,
                span(text, 0, at),
                piece,
                span(text, at + p.len(), t.len() as int),
            );
        }
    }
}

/// Three texts in a row are shown behind another.
pub proof fn lemma_row_is_shown(a: Seq<char>, x: Seq<char>, y: Seq<char>, z: Seq<char>)
    ensures
        shows(a + x + y + z, x + y + z),
{
    lemma_shows(a + x + y + z, a, x + y + z, Seq::empty());
}

} // verus!
