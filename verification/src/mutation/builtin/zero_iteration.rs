//! Zero-iteration loop mutator.
//!
//! Replaces the iterable of a `for` by `[]` and the test of a `while` by
//! `False`.
use crate::ast::{Module, StmtKind};
use crate::mutation::mutator::{edits, Edit, Mutation, MutationContext, Mutator};
use crate::mutation::occurs::{all_blocks, lemma_walk_by_relation, occurs, own_edits, Place};
use crate::mutation::propose::{
    find_all, law_range_edit_replaces_the_range, lemma_range_edit_is_faithful, push_range,
    range_edit, replaces_range,
};
use crate::mutation::walk::{blocks_only, suite_edits, Node, Reach, Rule};
use vstd::prelude::*;

verus! {

/// Mutator that makes loops run zero times.
#[derive(Debug)]
pub struct ZeroIterationLoop;

impl Rule for ZeroIterationLoop {
    open spec fn reach(&self) -> Reach {
        Reach {
            while_orelse: true,
            for_orelse: true,
            try_tail: true,
            with_body: true,
            ..blocks_only()
        }
    }

    open spec fn edits_at(&self, node: Node<'_>, source: Seq<char>) -> Seq<Edit> {
        match node {
            Node::Statement(s) => match s.kind {
                StmtKind::For { target, iter, body, orelse } => range_edit(
                    source,
                    iter.span.start as int,
                    iter.span.end as int,
                    "[]"@,
                ),
                StmtKind::While { test, body, orelse } => range_edit(
                    source,
                    test.span.start as int,
                    test.span.end as int,
                    "False"@,
                ),
                _ => Seq::empty(),
            },
            _ => Seq::empty(),
        }
    }

    proof fn edits_at_are_faithful(&self, node: Node<'_>, source: Seq<char>) {
        broadcast use lemma_range_edit_is_faithful;

    }

    fn get_reach(&self) -> (r: Reach) {
        Reach {
            while_orelse: true,
            for_orelse: true,
            try_tail: true,
            with_body: true,
            ..Reach::blocks()
        }
    }

    fn propose(&self, node: Node<'_>, source: &str, out: &mut Vec<Mutation>) {
        if let Node::Statement(s) = node {
            match &s.kind {
                StmtKind::For { target: _, iter, body: _, orelse: _ } => {
                    push_range(source, iter.span.start, iter.span.end, "[]", out);
                    return;
                },
                StmtKind::While { test, body: _, orelse: _ } => {
                    push_range(source, test.span.start, test.span.end, "False", out);
                    return;
                },
                _ => {},
            }
        }
        assert(edits(out@) =~= edits(old(out)@) + self.edits_at(node, source@));
    }
}

impl Mutator for ZeroIterationLoop {
    open spec fn label(&self) -> Seq<char> {
        "zero_iteration_loop"@
    }

    open spec fn finds(
        &self,
        source: Seq<char>,
        ast: Module,
        ctx: MutationContext<'_>,
        found: Seq<Edit>,
    ) -> bool {
        found == suite_edits(*self, ast.body@, source)
    }

    fn name(&self) -> (r: &str) {
        "zero_iteration_loop"
    }

    fn find_mutations(&self, source: &str, ast: &Module, _ctx: &MutationContext<'_>) -> (r: Vec<
        Mutation,
    >) {
        find_all(self, source, ast)
    }
}

/// Whether an edit replaces the iterable of a `for` by `[]`, or the test of a
/// `while` by `False`.
pub open spec fn empties_loop(source: Seq<char>, p: Place, e: Edit) -> bool {
    &&& p matches Place::Statement(s)
    &&& match s.kind {
        StmtKind::For { target, iter, body, orelse } => replaces_range(
            source,
            iter.span.start as int,
            iter.span.end as int,
            "[]"@,
            e,
        ),
        StmtKind::While { test, body, orelse } => replaces_range(
            source,
            test.span.start as int,
            test.span.end as int,
            "False"@,
            e,
        ),
        _ => false,
    }
}

/// Every loop, in whatever block it stands, is made to run zero times, and
/// nothing else is changed.
pub proof fn law_every_loop_is_emptied(
    source: Seq<char>,
    ast: Module,
    ctx: MutationContext<'_>,
    found: Seq<Edit>,
    e: Edit,
)
    requires
        ZeroIterationLoop.finds(source, ast, ctx, found),
    ensures
        found.contains(e) <==> exists|p: Place| #[trigger]
            occurs(p, ast.body@, all_blocks()) && empties_loop(source, p, e),
        forall|p: Place| (#[trigger] own_edits(ZeroIterationLoop, p, source)).len() <= 1,
{
    let reach = all_blocks();
    assert(ZeroIterationLoop.reach() == reach);
    assert forall|p: Place| (#[trigger] own_edits(ZeroIterationLoop, p, source)).contains(e) <==> empties_loop(
        source,
        p,
        e,
    ) by {
        if let Place::Statement(s) = p {
            match s.kind {
                StmtKind::For { target, iter, body, orelse } => law_range_edit_replaces_the_range(
                    source,
                    iter.span.start as int,
                    iter.span.end as int,
                    "[]"@,
                    e,
                ),
                StmtKind::While { test, body, orelse } => law_range_edit_replaces_the_range(
                    source,
                    test.span.start as int,
                    test.span.end as int,
                    "False"@,
                    e,
                ),
                _ => {},
            }
        }
    }
    lemma_walk_by_relation(
        ZeroIterationLoop,
        ast.body@,
        source,
        e,
        reach,
        |p: Place| empties_loop(source, p, e),
    );
    assert forall|p: Place| (#[trigger] own_edits(ZeroIterationLoop, p, source)).len() <= 1 by {
        if let Place::Statement(s) = p {
            match s.kind {
                StmtKind::For { target, iter, body, orelse } => law_range_edit_replaces_the_range(
                    source,
                    iter.span.start as int,
                    iter.span.end as int,
                    "[]"@,
                    e,
                ),
                StmtKind::While { test, body, orelse } => law_range_edit_replaces_the_range(
                    source,
                    test.span.start as int,
                    test.span.end as int,
                    "False"@,
                    e,
                ),
                _ => {},
            }
        }
    }
}

} // verus!
