//! The two shapes of mutation that the built-in operators propose.
use crate::ast::Module;
use crate::mutation::mutator::{all_faithful, edits, lemma_edits_push, Edit, Mutation};
use crate::mutation::walk::{law_suite_edits_are_faithful, suite_edits, walk_suite, Rule};
use crate::text;
use vstd::prelude::*;

verus! {

/// Replacing the byte range `start..end`, when it cuts out whole characters.
pub open spec fn range_edit(
    source: Seq<char>,
    start: int,
    end: int,
    replacement: Seq<char>,
) -> Seq<Edit> {
    if text::is_span(source, start, end) {
        seq![
            Edit {
                offset: start,
                length: end - start,
                original: text::span(source, start, end),
                replacement,
            },
        ]
    } else {
        Seq::empty()
    }
}

/// Replacing the first occurrence of `token`, which is not empty, in the byte
/// range `start..end`.
pub open spec fn token_edit(
    source: Seq<char>,
    start: int,
    end: int,
    token: Seq<char>,
    replacement: Seq<char>,
) -> Seq<Edit> {
    if text::is_span(source, start, end) && token.len() > 0 {
        match text::find_bytes(text::bytes(source).subrange(start, end), text::bytes(token)) {
            Some(at) => seq![
                Edit {
                    offset: start + at,
                    length: text::bytes(token).len() as int,
                    original: token,
                    replacement,
                },
            ],
            None => Seq::empty(),
        }
    } else {
        Seq::empty()
    }
}

/// A replaced range names the text that stands there.
pub broadcast proof fn lemma_range_edit_is_faithful(
    source: Seq<char>,
    start: int,
    end: int,
    replacement: Seq<char>,
)
    ensures
        all_faithful(source, #[trigger] range_edit(source, start, end, replacement)),
{
}

/// A replaced token names the text that stands there.
pub broadcast proof fn lemma_token_edit_is_faithful(
    source: Seq<char>,
    start: int,
    end: int,
    token: Seq<char>,
    replacement: Seq<char>,
)
    ensures
        all_faithful(source, #[trigger] token_edit(source, start, end, token, replacement)),
{
    if text::is_span(source, start, end) && token.len() > 0 {
        let region = text::bytes(source).subrange(start, end);
        text::lemma_find_from(region, text::bytes(token), 0);
        if let Some(at) = text::find_bytes(region, text::bytes(token)) {
            text::lemma_found_is_span(source, start, end, token, at);
        }
    }
}

/// Appends the mutation of [`range_edit`].
pub fn push_range(
    source: &str,
    start: usize,
    end: usize,
    replacement: &str,
    out: &mut Vec<Mutation>,
)
    ensures
        edits(final(out)@) == edits(old(out)@) + range_edit(
            source@,
            start as int,
            end as int,
            replacement@,
        ),
{
    broadcast use lemma_edits_push;

    if let Some(original) = text::slice(source, start, end) {
        out.push(
            Mutation {
                byte_offset: start,
                byte_length: end - start,
                original_text: original.to_owned(),
                replacement_text: replacement.to_owned(),
            },
        );
    }
    assert(edits(out@) =~= edits(old(out)@) + range_edit(
        source@,
        start as int,
        end as int,
        replacement@,
    ));
}

/// Appends the mutation of [`token_edit`].
pub fn push_token(
    source: &str,
    start: usize,
    end: usize,
    token: &str,
    replacement: &str,
    out: &mut Vec<Mutation>,
)
    ensures
        edits(final(out)@) == edits(old(out)@) + token_edit(
            source@,
            start as int,
            end as int,
            token@,
            replacement@,
        ),
{
    broadcast use lemma_edits_push;

    let region: Option<&str> = if token.is_empty() {
        None
    } else {
        text::slice(source, start, end)
    };
    if let Some(region) = region {
        if let Some(at) = text::find(region, token) {
            let length: usize = token.as_bytes().len();
            out.push(
                Mutation {
                    byte_offset: start + at,
                    byte_length: length,
                    original_text: token.to_owned(),
                    replacement_text: replacement.to_owned(),
                },
            );
        }
    }
    assert(edits(out@) =~= edits(old(out)@) + token_edit(
        source@,
        start as int,
        end as int,
        token@,
        replacement@,
    ));
}

/// All mutations that `rule` proposes in a module.
pub fn find_all<R: Rule>(rule: &R, source: &str, ast: &Module) -> (r: Vec<Mutation>)
    ensures
        edits(r@) == suite_edits(*rule, ast.body@, source@),
        all_faithful(source@, edits(r@)),
{
    let mut out: Vec<Mutation> = Vec::new();
    walk_suite(rule, &ast.body, source, &mut out);
    assert(edits(out@) =~= suite_edits(*rule, ast.body@, source@));
    proof {
        law_suite_edits_are_faithful(*rule, ast.body@, source@);
    }
    out
}

/// Whether a text stands at a place among bytes.
pub open spec fn stands_at(b: Seq<u8>, token: Seq<u8>, at: int) -> bool {
    &&& 0 <= at
    &&& at + token.len() <= b.len()
    &&& forall|k: int| 0 <= k < token.len() ==> #[trigger] token[k] == b[at + k]
}

/// Whether an edit replaces the byte range `start..end` and names its text.
pub open spec fn replaces_range(
    source: Seq<char>,
    start: int,
    end: int,
    replacement: Seq<char>,
    e: Edit,
) -> bool {
    &&& text::is_span(source, start, end)
    &&& e.offset == start
    &&& e.length == end - start
    &&& text::bytes(e.original) == text::bytes(source).subrange(start, end)
    &&& e.replacement == replacement
}

/// Whether an edit replaces a token where it first stands in `start..end`.
pub open spec fn replaces_token(
    source: Seq<char>,
    start: int,
    end: int,
    token: Seq<char>,
    replacement: Seq<char>,
    e: Edit,
) -> bool {
    &&& text::is_span(source, start, end)
    &&& token.len() > 0
    &&& start <= e.offset
    &&& e.offset + e.length <= end
    &&& e.length == text::bytes(token).len()
    &&& stands_at(text::bytes(source), text::bytes(token), e.offset)
    &&& forall|at: int|
        start <= at < e.offset ==> !#[trigger] stands_at(
            text::bytes(source),
            text::bytes(token),
            at,
        )
    &&& e.original == token
    &&& e.replacement == replacement
}

/// A range edit is the one edit that replaces the range and names its text.
pub proof fn law_range_edit_replaces_the_range(
    source: Seq<char>,
    start: int,
    end: int,
    replacement: Seq<char>,
    e: Edit,
)
    ensures
        range_edit(source, start, end, replacement).contains(e) <==> replaces_range(
            source,
            start,
            end,
            replacement,
            e,
        ),
        range_edit(source, start, end, replacement).len() <= 1,
{
    let list = range_edit(source, start, end, replacement);
    if text::is_span(source, start, end) {
        text::lemma_span_bytes(source, start, end);
        assert(list[0].original == text::span(source, start, end));
        if list.contains(e) {
            assert(e == list[0]);
        }
        if replaces_range(source, start, end, replacement, e) {
            text::lemma_bytes_injective(e.original, text::span(source, start, end));
            assert(list[0] == e);
        }
    }
}

/// A text stands at a place in a range as it does in the whole.
proof fn lemma_stands_in_range(b: Seq<u8>, token: Seq<u8>, start: int, end: int, at: int)
    requires
        0 <= start <= end <= b.len(),
    ensures
        text::occurs_at(b.subrange(start, end), token, at) <==> 0 <= at && start + at + token.len()
            <= end && stands_at(b, token, start + at),
{
    let part = b.subrange(start, end);
    if 0 <= at && at + token.len() <= part.len() {
        let there = part.subrange(at, at + token.len());
        if there == token {
            assert forall|k: int| 0 <= k < token.len() implies #[trigger] token[k] == b[start + at
                + k] by {
                assert(there[k] == b[start + at + k]);
            }
        }
        if stands_at(b, token, start + at) {
            assert(there =~= token);
        }
    }
}

/// A token edit is the one edit that replaces the first such token of the
/// range.
pub proof fn law_token_edit_replaces_the_first(
    source: Seq<char>,
    start: int,
    end: int,
    token: Seq<char>,
    replacement: Seq<char>,
    e: Edit,
)
    ensures
        token_edit(source, start, end, token, replacement).contains(e) <==> replaces_token(
            source,
            start,
            end,
            token,
            replacement,
            e,
        ),
        token_edit(source, start, end, token, replacement).len() <= 1,
{
    let list = token_edit(source, start, end, token, replacement);
    if text::is_span(source, start, end) && token.len() > 0 {
        let b = text::bytes(source);
        let t = text::bytes(token);
        let part = b.subrange(start, end);
        text::lemma_find_from(part, t, 0);
        if list.contains(e) {
            let at = text::find_bytes(part, t)->0;
            assert(e == list[0]);
            lemma_stands_in_range(b, t, start, end, at);
            assert forall|k: int| start <= k < e.offset implies !#[trigger] stands_at(b, t, k) by {
                lemma_stands_in_range(b, t, start, end, k - start);
            }
        }
        if replaces_token(source, start, end, token, replacement, e) {
            lemma_stands_in_range(b, t, start, end, e.offset - start);
            match text::find_bytes(part, t) {
                Some(at) => {
                    lemma_stands_in_range(b, t, start, end, at);
                    if at < e.offset - start {
                        assert(stands_at(b, t, start + at));
                    }
                    assert(at == e.offset - start);
                    assert(list[0] == e);
                },
                None => {},
            }
        }
    }
}

} // verus!
