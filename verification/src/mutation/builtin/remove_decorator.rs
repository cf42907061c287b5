//! Decorator removal mutator.
//!
//! Removes a decorator, from `@` to the end of its line, together with the line
//! break.
use crate::ast::{Decorator, Module, StmtKind};
use crate::mutation::mutator::{
    all_faithful, edits, Edit, Mutation, MutationContext, Mutator,
};
use crate::mutation::occurs::{blocks_but_tails, lemma_walk_by_relation, occurs, own_edits, Place};
use crate::mutation::propose::{
    find_all, law_range_edit_replaces_the_range, lemma_range_edit_is_faithful, push_range,
    range_edit, replaces_range,
};
use crate::mutation::walk::{blocks_only, suite_edits, Node, Reach, Rule};
use crate::text;
use vstd::prelude::*;

verus! {

/// Mutator that removes decorators.
#[derive(Debug)]
pub struct RemoveDecorator;

/// The offset after a line break that starts at `offset`, else `offset`.
pub open spec fn after_newline(bytes: Seq<u8>, offset: int) -> int {
    if 0 <= offset < bytes.len() && bytes[offset] == 10 {
        offset + 1
    } else if 0 <= offset && offset + 1 < bytes.len() && bytes[offset] == 13 && bytes[offset + 1]
        == 10 {
        offset + 2
    } else {
        offset
    }
}

/// The offset after a line break that starts at `offset`, else `offset`.
pub fn skip_trailing_newline(source: &str, offset: usize) -> (r: usize)
    ensures
        r == after_newline(text::bytes(source@), offset as int),
{
    let bytes: &[u8] = source.as_bytes();
    if offset < bytes.len() {
        if bytes[offset] == 10 {
            return offset + 1;
        }
        if bytes[offset] == 13 && bytes.len() - offset > 1 && bytes[offset + 1] == 10 {
            return offset + 2;
        }
    }
    offset
}

/// The offset of the first line break at or after `offset`, else that of the
/// end.
pub open spec fn line_end(bytes: Seq<u8>, offset: int) -> int
    decreases bytes.len() - offset,
{
    if 0 <= offset < bytes.len() && bytes[offset] != 10 && bytes[offset] != 13 {
        line_end(bytes, offset + 1)
    } else {
        offset
    }
}

/// The offset of the first line break at or after `offset`, else that of the
/// end.
fn find_line_end(source: &str, offset: usize) -> (r: usize)
    ensures
        r == line_end(text::bytes(source@), offset as int),
{
    let bytes: &[u8] = source.as_bytes();
    let mut at: usize = offset;
    while at < bytes.len() && bytes[at] != 10 && bytes[at] != 13
        invariant
            bytes@ == text::bytes(source@),
            line_end(bytes@, at as int) == line_end(bytes@, offset as int),
        decreases bytes.len() - at,
    {
        at = at + 1;
    }
    at
}

/// The removals of decorators.
pub open spec fn removals(source: Seq<char>, decorators: Seq<Decorator>) -> Seq<Edit>
    decreases decorators.len(),
{
    if decorators.len() == 0 {
        Seq::empty()
    } else {
        let last = decorators.last();
        removals(source, decorators.drop_last()) + range_edit(
            source,
            last.span.start as int,
            after_newline(
                text::bytes(source),
                line_end(text::bytes(source), last.span.end as int),
            ),
            ""@,
        )
    }
}

proof fn lemma_removals_are_faithful(source: Seq<char>, decorators: Seq<Decorator>)
    ensures
        all_faithful(source, removals(source, decorators)),
    decreases decorators.len(),
{
    broadcast use lemma_range_edit_is_faithful;

    if decorators.len() > 0 {
        lemma_removals_are_faithful(source, decorators.drop_last());
    }
}

/// Appends the removals of decorators.
fn collect_decorator_mutations(
    decorators: &Vec<Decorator>,
    source: &str,
    out: &mut Vec<Mutation>,
)
    ensures
        edits(final(out)@) == edits(old(out)@) + removals(source@, decorators@),
{
    let mut i: usize = 0;
    assert(edits(out@) =~= edits(old(out)@) + removals(source@, decorators@.take(0)));
    while i < decorators.len()
        invariant
            i <= decorators.len(),
            edits(out@) == edits(old(out)@) + removals(source@, decorators@.take(i as int)),
        decreases decorators.len() - i,
    {
        let line: usize = find_line_end(source, decorators[i].span.end);
        let end: usize = skip_trailing_newline(source, line);
        push_range(source, decorators[i].span.start, end, "", out);
        proof {
            let next = decorators@.take(i + 1);
            assert(next.drop_last() =~= decorators@.take(i as int));
            assert(edits(out@) =~= edits(old(out)@) + removals(source@, next));
        }
        i = i + 1;
    }
    assert(decorators@.take(i as int) =~= decorators@);
}

impl Rule for RemoveDecorator {
    open spec fn reach(&self) -> Reach {
        Reach {
            for_orelse: true,
            with_body: true,
            ..blocks_only()
        }
    }

    open spec fn edits_at(&self, node: Node<'_>, source: Seq<char>) -> Seq<Edit> {
        match node {
            Node::Statement(s) => match s.kind {
                StmtKind::FunctionDef(f) => removals(source, f.decorators@),
                StmtKind::ClassDef(c) => removals(source, c.decorators@),
                _ => Seq::empty(),
            },
            _ => Seq::empty(),
        }
    }

    proof fn edits_at_are_faithful(&self, node: Node<'_>, source: Seq<char>) {
        if let Node::Statement(s) = node {
            match s.kind {
                StmtKind::FunctionDef(f) => lemma_removals_are_faithful(source, f.decorators@),
                StmtKind::ClassDef(c) => lemma_removals_are_faithful(source, c.decorators@),
                _ => {},
            }
        }
    }

    fn get_reach(&self) -> (r: Reach) {
        Reach {
            for_orelse: true,
            with_body: true,
            ..Reach::blocks()
        }
    }

    fn propose(&self, node: Node<'_>, source: &str, out: &mut Vec<Mutation>) {
        if let Node::Statement(s) = node {
            match &s.kind {
                StmtKind::FunctionDef(f) => {
                    collect_decorator_mutations(&f.decorators, source, out);
                    return;
                },
                StmtKind::ClassDef(c) => {
                    collect_decorator_mutations(&c.decorators, source, out);
                    return;
                },
                _ => {},
            }
        }
        assert(edits(out@) =~= edits(old(out)@) + self.edits_at(node, source@));
    }
}

impl Mutator for RemoveDecorator {
    open spec fn label(&self) -> Seq<char> {
        "remove_decorator"@
    }

    open spec fn finds(
        &self,
        source: Seq<char>,
        ast: Module,
        ctx: MutationContext<'_>,
        found: Seq<Edit>,
    ) -> bool {
        found == suite_edits(*self, ast.body@, source)
    }

    fn name(&self) -> (r: &str) {
        "remove_decorator"
    }

    fn find_mutations(&self, source: &str, ast: &Module, _ctx: &MutationContext<'_>) -> (r: Vec<
        Mutation,
    >) {
        find_all(self, source, ast)
    }
}

/// Whether a place is where the line after that of `from` starts, or the end of
/// a text without another line.
pub open spec fn starts_next_line(b: Seq<u8>, from: int, to: int) -> bool {
    exists|m: int|
        {
            &&& from <= m <= b.len()
            &&& #[trigger] has_no_break(b, from, m)
            &&& {
                ||| m == b.len() && to == m
                ||| m < b.len() && b[m] == 10 && to == m + 1
                ||| m + 1 < b.len() && b[m] == 13 && b[m + 1] == 10 && to == m + 2
                ||| m < b.len() && b[m] == 13 && !(m + 1 < b.len() && b[m + 1] == 10) && to == m
            }
        }
}

/// Whether there is no line break in a range.
pub open spec fn has_no_break(b: Seq<u8>, from: int, to: int) -> bool {
    forall|i: int| from <= i < to ==> #[trigger] b[i] != 10 && b[i] != 13
}

/// A line ends at its first line break, or with the text.
proof fn lemma_line_end(b: Seq<u8>, from: int)
    requires
        0 <= from <= b.len(),
    ensures
        from <= line_end(b, from) <= b.len(),
        has_no_break(b, from, line_end(b, from)),
        line_end(b, from) < b.len() ==> b[line_end(b, from)] == 10 || b[line_end(b, from)] == 13,
    decreases b.len() - from,
{
    if from < b.len() && b[from] != 10 && b[from] != 13 {
        lemma_line_end(b, from + 1);
    }
}

proof fn lemma_next_line(b: Seq<u8>, from: int, to: int)
    requires
        0 <= from <= b.len(),
    ensures
        after_newline(b, line_end(b, from)) == to <==> starts_next_line(b, from, to),
{
    lemma_line_end(b, from);
    let m = line_end(b, from);
    if after_newline(b, m) == to {
        assert(has_no_break(b, from, m));
    }
    if starts_next_line(b, from, to) {
        let k = choose|k: int|
            {
                &&& from <= k <= b.len()
                &&& #[trigger] has_no_break(b, from, k)
                &&& {
                    ||| k == b.len() && to == k
                    ||| k < b.len() && b[k] == 10 && to == k + 1
                    ||| k + 1 < b.len() && b[k] == 13 && b[k + 1] == 10 && to == k + 2
                    ||| k < b.len() && b[k] == 13 && !(k + 1 < b.len() && b[k + 1] == 10) && to
                        == k
                }
            };
        if k < m {
            assert(b[k] != 10 && b[k] != 13);
        }
        if m < k {
            assert(b[m] != 10 && b[m] != 13);
        }
    }
}

/// Whether an edit drops one of the decorators of a definition: from its `@` to
/// the start of the line after it.
pub open spec fn drops_one(source: Seq<char>, decorators: Seq<Decorator>, e: Edit) -> bool {
    exists|k: int|
        {
            &&& 0 <= k < decorators.len()
            &&& drops(source, #[trigger] decorators[k], e)
        }
}

/// Whether an edit drops a decorator.
pub open spec fn drops(source: Seq<char>, d: Decorator, e: Edit) -> bool {
    &&& d.span.end <= text::bytes(source).len()
    &&& starts_next_line(text::bytes(source), d.span.end as int, e.offset + e.length)
    &&& replaces_range(source, d.span.start as int, e.offset + e.length, ""@, e)
}

/// Whether an edit drops a decorator of a function or a class.
pub open spec fn drops_decorator(source: Seq<char>, p: Place, e: Edit) -> bool {
    &&& p matches Place::Statement(s)
    &&& match s.kind {
        StmtKind::FunctionDef(f) => drops_one(source, f.decorators@, e),
        StmtKind::ClassDef(c) => drops_one(source, c.decorators@, e),
        _ => false,
    }
}

proof fn lemma_drops(source: Seq<char>, d: Decorator, e: Edit)
    ensures
        ({
            let b = text::bytes(source);
            let end = after_newline(b, line_end(b, d.span.end as int));
            range_edit(source, d.span.start as int, end, ""@).contains(e) <==> drops(source, d, e)
        }),
{
    let b = text::bytes(source);
    let end = after_newline(b, line_end(b, d.span.end as int));
    law_range_edit_replaces_the_range(source, d.span.start as int, end, ""@, e);
    if d.span.end <= b.len() {
        lemma_next_line(b, d.span.end as int, e.offset + e.length);
        lemma_next_line(b, d.span.end as int, end);
    }
}

proof fn lemma_removals(source: Seq<char>, decorators: Seq<Decorator>, e: Edit)
    ensures
        removals(source, decorators).contains(e) <==> drops_one(source, decorators, e),
        removals(source, decorators).len() <= decorators.len(),
    decreases decorators.len(),
{
    if decorators.len() > 0 {
        let n = decorators.len() - 1;
        let rest = decorators.drop_last();
        let init = removals(source, rest);
        let b = text::bytes(source);
        let end = after_newline(b, line_end(b, decorators[n].span.end as int));
        let last = range_edit(source, decorators[n].span.start as int, end, ""@);
        lemma_removals(source, rest, e);
        lemma_drops(source, decorators[n], e);
        law_range_edit_replaces_the_range(
            source,
            decorators[n].span.start as int,
            end,
            ""@,
            e,
        );
        let all = init + last;
        if all.contains(e) {
            let i = choose|i: int| 0 <= i < all.len() && all[i] == e;
            if i < init.len() {
                assert(init[i] == e);
                let k = choose|k: int| 0 <= k < rest.len() && drops(source, #[trigger] rest[k], e);
                assert(decorators[k] == rest[k]);
            } else {
                assert(last[i - init.len()] == e);
                assert(drops(source, decorators[n], e));
            }
        }
        if drops_one(source, decorators, e) {
            let k = choose|k: int|
                0 <= k < decorators.len() && drops(source, #[trigger] decorators[k], e);
            if k < n {
                assert(drops(source, rest[k], e));
                let i = choose|i: int| 0 <= i < init.len() && init[i] == e;
                assert(all[i] == e);
            } else {
                let i = choose|i: int| 0 <= i < last.len() && last[i] == e;
                assert(all[init.len() + i] == e);
            }
        }
    }
}

/// Every decorator of every definition that the walk visits is dropped, each on
/// its own and to the end of its line, and nothing else is changed.
pub proof fn law_every_decorator_is_dropped(
    source: Seq<char>,
    ast: Module,
    ctx: MutationContext<'_>,
    found: Seq<Edit>,
    e: Edit,
)
    requires
        RemoveDecorator.finds(source, ast, ctx, found),
    ensures
        found.contains(e) <==> exists|p: Place| #[trigger]
            occurs(p, ast.body@, blocks_but_tails()) && drops_decorator(source, p, e),
{
    let rule = RemoveDecorator;
    assert(rule.reach() == blocks_but_tails());
    assert forall|p: Place| (#[trigger] own_edits(rule, p, source)).contains(e) <==> drops_decorator(
        source, p, e,
    ) by {
        if let Place::Statement(s) = p {
            match s.kind {
                StmtKind::FunctionDef(f) => lemma_removals(source, f.decorators@, e),
                StmtKind::ClassDef(c) => lemma_removals(source, c.decorators@, e),
                _ => {},
            }
        }
    }
    lemma_walk_by_relation(
        rule,
        ast.body@,
        source,
        e,
        blocks_but_tails(),
        |p: Place| drops_decorator(source, p, e),
    );
}

} // verus!
