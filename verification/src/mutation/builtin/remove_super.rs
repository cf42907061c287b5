//! Super call removal mutator.
//!
//! Replaces a statement that only calls `super()`, or a method reached from
//! it, by `pass`.
use crate::ast::{ExprKind, Expression, Module, StmtKind};
use crate::mutation::mutator::{edits, Edit, Mutation, MutationContext, Mutator};
use crate::mutation::occurs::{blocks_but_tails, lemma_walk_by_relation, occurs, own_edits, Place};
use crate::mutation::propose::{
    find_all, law_range_edit_replaces_the_range, lemma_range_edit_is_faithful, push_range,
    range_edit, replaces_range,
};
use crate::mutation::walk::{blocks_only, suite_edits, Node, Reach, Rule};
use crate::text::same;
use vstd::prelude::*;

verus! {

/// Mutator that removes calls of `super()`.
#[derive(Debug)]
pub struct RemoveSuperCall;

/// Whether an expression is a call of `super`, or of an attribute of such a
/// call.
pub open spec fn super_call(expr: Expression) -> bool
    decreases expr,
{
    match expr.kind {
        ExprKind::Call { func, args, keywords } => match func.kind {
            ExprKind::Attribute { value, attr } => super_call(*value),
            ExprKind::Name { id } => id@ == "super"@,
            _ => false,
        },
        _ => false,
    }
}

/// Whether an expression is a call of `super`, or of an attribute of such a
/// call.
pub fn is_super_call(expr: &Expression) -> (r: bool)
    ensures
        r == super_call(*expr),
    decreases *expr,
{
    match &expr.kind {
        ExprKind::Call { func, args: _, keywords: _ } => match &func.kind {
            ExprKind::Attribute { value, attr: _ } => is_super_call(value),
            ExprKind::Name { id } => same(id.as_str(), "super"),
            _ => false,
        },
        _ => false,
    }
}

impl Rule for RemoveSuperCall {
    open spec fn reach(&self) -> Reach {
        Reach {
            for_orelse: true,
            with_body: true,
            ..blocks_only()
        }
    }

    open spec fn edits_at(&self, node: Node<'_>, source: Seq<char>) -> Seq<Edit> {
        match node {
            Node::Statement(s) => match s.kind {
                StmtKind::Expr { value } => if super_call(value) {
                    range_edit(source, s.span.start as int, s.span.end as int, "pass"@)
                } else {
                    Seq::empty()
                },
                _ => Seq::empty(),
            },
            _ => Seq::empty(),
        }
    }

    proof fn edits_at_are_faithful(&self, node: Node<'_>, source: Seq<char>) {
        broadcast use lemma_range_edit_is_faithful;

    }

    fn get_reach(&self) -> (r: Reach) {
        Reach {
            for_orelse: true,
            with_body: true,
            ..Reach::blocks()
        }
    }

    fn propose(&self, node: Node<'_>, source: &str, out: &mut Vec<Mutation>) {
        if let Node::Statement(s) = node {
            if let StmtKind::Expr { value } = &s.kind {
                if is_super_call(value) {
                    push_range(source, s.span.start, s.span.end, "pass", out);
                    return;
                }
            }
        }
        assert(edits(out@) =~= edits(old(out)@) + self.edits_at(node, source@));
    }
}

impl Mutator for RemoveSuperCall {
    open spec fn label(&self) -> Seq<char> {
        "remove_super_call"@
    }

    open spec fn finds(
        &self,
        source: Seq<char>,
        ast: Module,
        ctx: MutationContext<'_>,
        found: Seq<Edit>,
    ) -> bool {
        found == suite_edits(*self, ast.body@, source)
    }

    fn name(&self) -> (r: &str) {
        "remove_super_call"
    }

    fn find_mutations(&self, source: &str, ast: &Module, _ctx: &MutationContext<'_>) -> (r: Vec<
        Mutation,
    >) {
        find_all(self, source, ast)
    }
}

/// A call is a `super()` call when it calls the name `super`, or a method of
/// such a call; nothing else is one.
pub proof fn law_super_calls(expr: Expression)
    ensures
        expr.kind !is Call ==> !super_call(expr),
        expr.kind matches ExprKind::Call { func, args, keywords } ==> (super_call(expr) <==> {
            ||| func.kind matches ExprKind::Name { id } && id@ == "super"@
            ||| func.kind matches ExprKind::Attribute { value, attr } && super_call(*value)
        }),
{
}

/// Whether an edit replaces a statement that is a `super()` call by `pass`.
pub open spec fn removes_super(source: Seq<char>, p: Place, e: Edit) -> bool {
    &&& p matches Place::Statement(s)
    &&& s.kind matches StmtKind::Expr { value }
    &&& super_call(value)
    &&& replaces_range(source, s.span.start as int, s.span.end as int, "pass"@, e)
}

/// Every statement that is a `super()` call is replaced by `pass`, and nothing
/// else is changed.
pub proof fn law_every_super_call_is_removed(
    source: Seq<char>,
    ast: Module,
    ctx: MutationContext<'_>,
    found: Seq<Edit>,
    e: Edit,
)
    requires
        RemoveSuperCall.finds(source, ast, ctx, found),
    ensures
        found.contains(e) <==> exists|p: Place| #[trigger]
            occurs(p, ast.body@, blocks_but_tails()) && removes_super(source, p, e),
        forall|p: Place| (#[trigger] own_edits(RemoveSuperCall, p, source)).len() <= 1,
{
    let reach = blocks_but_tails();
    assert(RemoveSuperCall.reach() == reach);
    assert forall|p: Place| (#[trigger] own_edits(RemoveSuperCall, p, source)).contains(e) <==> removes_super(
        source,
        p,
        e,
    ) by {
        if let Place::Statement(s) = p {
            law_range_edit_replaces_the_range(
                source,
                s.span.start as int,
                s.span.end as int,
                "pass"@,
                e,
            );
        }
    }
    lemma_walk_by_relation(
        RemoveSuperCall,
        ast.body@,
        source,
        e,
        reach,
        |p: Place| removes_super(source, p, e),
    );
    assert forall|p: Place| (#[trigger] own_edits(RemoveSuperCall, p, source)).len() <= 1 by {
        if let Place::Statement(s) = p {
            law_range_edit_replaces_the_range(
                source,
                s.span.start as int,
                s.span.end as int,
                "pass"@,
                e,
            );
        }
    }
}

} // verus!
