//! Exception swallowing mutator.
//!
//! Replaces the body of an `except` clause by `pass`, unless it is one `pass`
//! already.
use crate::ast::{Module, Statement, StmtKind};
use crate::mutation::mutator::{edits, Edit, Mutation, MutationContext, Mutator};
use crate::mutation::occurs::{blocks_but_while_else, lemma_walk_by_relation, occurs, own_edits, Place};
use crate::mutation::propose::{
    find_all, law_range_edit_replaces_the_range, lemma_range_edit_is_faithful, push_range,
    range_edit, replaces_range,
};
use crate::mutation::walk::{blocks_only, suite_edits, Node, Reach, Rule};
use vstd::prelude::*;

verus! {

/// Mutator that empties `except` clauses.
#[derive(Debug)]
pub struct ExceptionSwallow;

/// Whether a body consists of a single `pass`.
pub open spec fn pass_only(body: Seq<Statement>) -> bool {
    body.len() == 1 && body[0].kind is Pass
}

/// Whether a body consists of a single `pass`.
fn is_pass_only(body: &Vec<Statement>) -> (r: bool)
    ensures
        r == pass_only(body@),
{
    if body.len() != 1 {
        return false;
    }
    match &body[0].kind {
        StmtKind::Pass => true,
        _ => false,
    }
}

impl Rule for ExceptionSwallow {
    open spec fn reach(&self) -> Reach {
        Reach {
            for_orelse: true,
            try_tail: true,
            with_body: true,
            ..blocks_only()
        }
    }

    open spec fn edits_at(&self, node: Node<'_>, source: Seq<char>) -> Seq<Edit> {
        match node {
            Node::Handler(h) => if h.body@.len() == 0 || pass_only(h.body@) {
                Seq::empty()
            } else {
                range_edit(
                    source,
                    h.body@[0].span.start as int,
                    h.body@.last().span.end as int,
                    "pass"@,
                )
            },
            _ => Seq::empty(),
        }
    }

    proof fn edits_at_are_faithful(&self, node: Node<'_>, source: Seq<char>) {
        broadcast use lemma_range_edit_is_faithful;

    }

    fn get_reach(&self) -> (r: Reach) {
        Reach {
            for_orelse: true,
            try_tail: true,
            with_body: true,
            ..Reach::blocks()
        }
    }

    fn propose(&self, node: Node<'_>, source: &str, out: &mut Vec<Mutation>) {
        if let Node::Handler(h) = node {
            if h.body.len() > 0 && !is_pass_only(&h.body) {
                let start: usize = h.body[0].span.start;
                let end: usize = h.body[h.body.len() - 1].span.end;
                push_range(source, start, end, "pass", out);
                return;
            }
        }
        assert(edits(out@) =~= edits(old(out)@) + self.edits_at(node, source@));
    }
}

impl Mutator for ExceptionSwallow {
    open spec fn label(&self) -> Seq<char> {
        "exception_swallow"@
    }

    open spec fn finds(
        &self,
        source: Seq<char>,
        ast: Module,
        ctx: MutationContext<'_>,
        found: Seq<Edit>,
    ) -> bool {
        found == suite_edits(*self, ast.body@, source)
    }

    fn name(&self) -> (r: &str) {
        "exception_swallow"
    }

    fn find_mutations(&self, source: &str, ast: &Module, _ctx: &MutationContext<'_>) -> (r: Vec<
        Mutation,
    >) {
        find_all(self, source, ast)
    }
}

/// Whether an edit replaces the body of an exception handler, from its first
/// statement to its last, by `pass`. A body that is a `pass` already stays.
pub open spec fn swallows(source: Seq<char>, p: Place, e: Edit) -> bool {
    &&& p matches Place::Handler(h)
    &&& h.body@.len() > 0
    &&& !(h.body@.len() == 1 && h.body@[0].kind is Pass)
    &&& replaces_range(
        source,
        h.body@[0].span.start as int,
        h.body@[h.body@.len() - 1].span.end as int,
        "pass"@,
        e,
    )
}

/// The body of every exception handler is replaced by `pass`, unless it is one
/// already, and nothing else is changed.
pub proof fn law_every_handler_is_emptied(
    source: Seq<char>,
    ast: Module,
    ctx: MutationContext<'_>,
    found: Seq<Edit>,
    e: Edit,
)
    requires
        ExceptionSwallow.finds(source, ast, ctx, found),
    ensures
        found.contains(e) <==> exists|p: Place| #[trigger]
            occurs(p, ast.body@, blocks_but_while_else()) && swallows(source, p, e),
        forall|p: Place| (#[trigger] own_edits(ExceptionSwallow, p, source)).len() <= 1,
{
    let reach = blocks_but_while_else();
    assert(ExceptionSwallow.reach() == reach);
    assert forall|p: Place| (#[trigger] own_edits(ExceptionSwallow, p, source)).contains(e) <==> swallows(
        source,
        p,
        e,
    ) by {
        if let Place::Handler(h) = p {
            if h.body@.len() > 0 {
                law_range_edit_replaces_the_range(
                    source,
                    h.body@[0].span.start as int,
                    h.body@[h.body@.len() - 1].span.end as int,
                    "pass"@,
                    e,
                );
            }
        }
    }
    lemma_walk_by_relation(
        ExceptionSwallow,
        ast.body@,
        source,
        e,
        reach,
        |p: Place| swallows(source, p, e),
    );
    assert forall|p: Place| (#[trigger] own_edits(ExceptionSwallow, p, source)).len() <= 1 by {
        if let Place::Handler(h) = p {
            if h.body@.len() > 0 {
                law_range_edit_replaces_the_range(
                    source,
                    h.body@[0].span.start as int,
                    h.body@[h.body@.len() - 1].span.end as int,
                    "pass"@,
                    e,
                );
            }
        }
    }
}

} // verus!
