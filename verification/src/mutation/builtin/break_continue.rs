//! Break and continue mutator.
//!
//! Replaces `break` by `continue` and `continue` by `break`.
use crate::ast::{Module, StmtKind};
use crate::mutation::mutator::{edits, Edit, Mutation, MutationContext, Mutator};
use crate::mutation::occurs::{all_blocks, lemma_walk_by_relation, occurs, own_edits, Place};
use crate::mutation::propose::{
    find_all, law_range_edit_replaces_the_range, lemma_range_edit_is_faithful, push_range,
    range_edit, replaces_range,
};
use crate::mutation::walk::{blocks_only, suite_edits, Node, Reach, Rule};
use vstd::prelude::*;

verus! {

/// Mutator that swaps `break` and `continue`.
#[derive(Debug)]
pub struct BreakContinue;

impl Rule for BreakContinue {
    open spec fn reach(&self) -> Reach {
        Reach {
            while_orelse: true,
            for_orelse: true,
            try_tail: true,
            with_body: true,
            ..blocks_only()
        }
    }

    open spec fn edits_at(&self, node: Node<'_>, source: Seq<char>) -> Seq<Edit> {
        match node {
            Node::Statement(s) => match s.kind {
                StmtKind::Break => range_edit(
                    source,
                    s.span.start as int,
                    s.span.end as int,
                    "continue"@,
                ),
                StmtKind::Continue => range_edit(
                    source,
                    s.span.start as int,
                    s.span.end as int,
                    "break"@,
                ),
                _ => Seq::empty(),
            },
            _ => Seq::empty(),
        }
    }

    proof fn edits_at_are_faithful(&self, node: Node<'_>, source: Seq<char>) {
        broadcast use lemma_range_edit_is_faithful;

    }

    fn get_reach(&self) -> (r: Reach) {
        Reach {
            while_orelse: true,
            for_orelse: true,
            try_tail: true,
            with_body: true,
            ..Reach::blocks()
        }
    }

    fn propose(&self, node: Node<'_>, source: &str, out: &mut Vec<Mutation>) {
        if let Node::Statement(s) = node {
            match &s.kind {
                StmtKind::Break => {
                    push_range(source, s.span.start, s.span.end, "continue", out);
                    return;
                },
                StmtKind::Continue => {
                    push_range(source, s.span.start, s.span.end, "break", out);
                    return;
                },
                _ => {},
            }
        }
        assert(edits(out@) =~= edits(old(out)@) + self.edits_at(node, source@));
    }
}

impl Mutator for BreakContinue {
    open spec fn label(&self) -> Seq<char> {
        "break_continue"@
    }

    open spec fn finds(
        &self,
        source: Seq<char>,
        ast: Module,
        ctx: MutationContext<'_>,
        found: Seq<Edit>,
    ) -> bool {
        found == suite_edits(*self, ast.body@, source)
    }

    fn name(&self) -> (r: &str) {
        "break_continue"
    }

    fn find_mutations(&self, source: &str, ast: &Module, _ctx: &MutationContext<'_>) -> (r: Vec<
        Mutation,
    >) {
        find_all(self, source, ast)
    }
}

/// Whether an edit replaces a `break` by `continue`, or a `continue` by
/// `break`.
pub open spec fn replaces_jump(source: Seq<char>, p: Place, e: Edit) -> bool {
    &&& p matches Place::Statement(s)
    &&& replaces_range(source, s.span.start as int, s.span.end as int, e.replacement, e)
    &&& {
        ||| s.kind is Break && e.replacement == "continue"@
        ||| s.kind is Continue && e.replacement == "break"@
    }
}

/// Every `break` and every `continue`, in whatever block it stands, is replaced
/// by the other, and nothing else is.
pub proof fn law_every_jump_is_replaced(
    source: Seq<char>,
    ast: Module,
    ctx: MutationContext<'_>,
    found: Seq<Edit>,
    e: Edit,
)
    requires
        BreakContinue.finds(source, ast, ctx, found),
    ensures
        found.contains(e) <==> exists|p: Place| #[trigger]
            occurs(p, ast.body@, all_blocks()) && replaces_jump(source, p, e),
        forall|p: Place| (#[trigger] own_edits(BreakContinue, p, source)).len() <= 1,
{
    let reach = all_blocks();
    assert(BreakContinue.reach() == reach);
    assert forall|p: Place| (#[trigger] own_edits(BreakContinue, p, source)).contains(e) <==> replaces_jump(
        source,
        p,
        e,
    ) by {
        if let Place::Statement(s) = p {
            law_range_edit_replaces_the_range(
                source,
                s.span.start as int,
                s.span.end as int,
                "continue"@,
                e,
            );
            law_range_edit_replaces_the_range(
                source,
                s.span.start as int,
                s.span.end as int,
                "break"@,
                e,
            );
        }
    }
    lemma_walk_by_relation(
        BreakContinue,
        ast.body@,
        source,
        e,
        reach,
        |p: Place| replaces_jump(source, p, e),
    );
    assert forall|p: Place| (#[trigger] own_edits(BreakContinue, p, source)).len() <= 1 by {
        if let Place::Statement(s) = p {
            law_range_edit_replaces_the_range(
                source,
                s.span.start as int,
                s.span.end as int,
                "continue"@,
                e,
            );
            law_range_edit_replaces_the_range(
                source,
                s.span.start as int,
                s.span.end as int,
                "break"@,
                e,
            );
        }
    }
}

} // verus!
