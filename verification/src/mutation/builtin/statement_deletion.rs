//! Statement deletion mutator.
//!
//! Replaces a simple statement by `pass`.
use crate::ast::{Module, Statement, StmtKind};
use crate::mutation::mutator::{edits, Edit, Mutation, MutationContext, Mutator};
use crate::mutation::occurs::{blocks_but_while_else, lemma_walk_by_relation, occurs, own_edits, Place};
use crate::mutation::propose::{
    find_all, law_range_edit_replaces_the_range, lemma_range_edit_is_faithful, push_range,
    range_edit, replaces_range,
};
use crate::mutation::walk::{blocks_only, suite_edits, Node, Reach, Rule};
use vstd::prelude::*;

verus! {

/// Mutator that deletes simple statements.
#[derive(Debug)]
pub struct StatementDeletion;

/// Whether a statement may be replaced by `pass`: an expression, an
/// assignment of any kind, `return`, `del`, `raise` or `assert`.
pub open spec fn deletable(stmt: Statement) -> bool {
    ||| stmt.kind is Expr
    ||| stmt.kind is Assign
    ||| stmt.kind is AugAssign
    ||| stmt.kind is AnnAssign
    ||| stmt.kind is Return
    ||| stmt.kind is Delete
    ||| stmt.kind is Raise
    ||| stmt.kind is Assert
}

/// Whether a statement may be replaced by `pass`.
pub fn is_deletable(stmt: &Statement) -> (r: bool)
    ensures
        r == deletable(*stmt),
{
    match &stmt.kind {
        StmtKind::Expr { .. } => true,
        StmtKind::Assign { .. } => true,
        StmtKind::AugAssign { .. } => true,
        StmtKind::AnnAssign { .. } => true,
        StmtKind::Return { .. } => true,
        StmtKind::Delete { .. } => true,
        StmtKind::Raise { .. } => true,
        StmtKind::Assert { .. } => true,
        _ => false,
    }
}

impl Rule for StatementDeletion {
    open spec fn reach(&self) -> Reach {
        Reach {
            for_orelse: true,
            try_tail: true,
            with_body: true,
            ..blocks_only()
        }
    }

    open spec fn edits_at(&self, node: Node<'_>, source: Seq<char>) -> Seq<Edit> {
        match node {
            Node::Statement(s) => if deletable(*s) {
                range_edit(source, s.span.start as int, s.span.end as int, "pass"@)
            } else {
                Seq::empty()
            },
            _ => Seq::empty(),
        }
    }

    proof fn edits_at_are_faithful(&self, node: Node<'_>, source: Seq<char>) {
        broadcast use lemma_range_edit_is_faithful;

    }

    fn get_reach(&self) -> (r: Reach) {
        Reach {
            for_orelse: true,
            try_tail: true,
            with_body: true,
            ..Reach::blocks()
        }
    }

    fn propose(&self, node: Node<'_>, source: &str, out: &mut Vec<Mutation>) {
        if let Node::Statement(s) = node {
            if is_deletable(s) {
                push_range(source, s.span.start, s.span.end, "pass", out);
                return;
            }
        }
        assert(edits(out@) =~= edits(old(out)@) + self.edits_at(node, source@));
    }
}

impl Mutator for StatementDeletion {
    open spec fn label(&self) -> Seq<char> {
        "statement_deletion"@
    }

    open spec fn finds(
        &self,
        source: Seq<char>,
        ast: Module,
        ctx: MutationContext<'_>,
        found: Seq<Edit>,
    ) -> bool {
        found == suite_edits(*self, ast.body@, source)
    }

    fn name(&self) -> (r: &str) {
        "statement_deletion"
    }

    fn find_mutations(&self, source: &str, ast: &Module, _ctx: &MutationContext<'_>) -> (r: Vec<
        Mutation,
    >) {
        find_all(self, source, ast)
    }
}

/// Whether an edit replaces a whole statement by `pass`. Definitions, blocks,
/// imports, jumps and `pass` itself stay.
pub open spec fn deletes(source: Seq<char>, p: Place, e: Edit) -> bool {
    &&& p matches Place::Statement(s)
    &&& match s.kind {
        StmtKind::Expr { .. } => true,
        StmtKind::Assign { .. } => true,
        StmtKind::AugAssign { .. } => true,
        StmtKind::AnnAssign { .. } => true,
        StmtKind::Return { .. } => true,
        StmtKind::Delete { .. } => true,
        StmtKind::Raise { .. } => true,
        StmtKind::Assert { .. } => true,
        _ => false,
    }
    &&& replaces_range(source, s.span.start as int, s.span.end as int, "pass"@, e)
}

/// Every statement that can go, in whatever block it stands, is replaced by
/// `pass`, and nothing else is changed.
pub proof fn law_every_plain_statement_is_deleted(
    source: Seq<char>,
    ast: Module,
    ctx: MutationContext<'_>,
    found: Seq<Edit>,
    e: Edit,
)
    requires
        StatementDeletion.finds(source, ast, ctx, found),
    ensures
        found.contains(e) <==> exists|p: Place| #[trigger]
            occurs(p, ast.body@, blocks_but_while_else()) && deletes(source, p, e),
        forall|p: Place| (#[trigger] own_edits(StatementDeletion, p, source)).len() <= 1,
{
    let reach = blocks_but_while_else();
    assert(StatementDeletion.reach() == reach);
    assert forall|p: Place| (#[trigger] own_edits(StatementDeletion, p, source)).contains(e) <==> deletes(
        source,
        p,
        e,
    ) by {
        if let Place::Statement(s) = p {
            law_range_edit_replaces_the_range(
                source,
                s.span.start as int,
                s.span.end as int,
                "pass"@,
                e,
            );
        }
    }
    lemma_walk_by_relation(
        StatementDeletion,
        ast.body@,
        source,
        e,
        reach,
        |p: Place| deletes(source, p, e),
    );
    assert forall|p: Place| (#[trigger] own_edits(StatementDeletion, p, source)).len() <= 1 by {
        if let Place::Statement(s) = p {
            law_range_edit_replaces_the_range(
                source,
                s.span.start as int,
                s.span.end as int,
                "pass"@,
                e,
            );
        }
    }
}

} // verus!
