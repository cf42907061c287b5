//! Return value mutator.
//!
//! Replaces a returned `True` or `False` by the other, and any other returned
//! value by `None`.
use crate::ast::{ExprKind, Expression, Module, StmtKind};
use crate::mutation::mutator::{edits, Edit, Mutation, MutationContext, Mutator};
use crate::mutation::occurs::{all_blocks, lemma_walk_by_relation, occurs, own_edits, Place};
use crate::mutation::propose::{
    find_all, law_range_edit_replaces_the_range, lemma_range_edit_is_faithful, push_range,
    range_edit, replaces_range,
};
use crate::mutation::walk::{blocks_only, suite_edits, Node, Reach, Rule};
use vstd::prelude::*;

verus! {

/// Mutator that replaces returned values.
#[derive(Debug)]
pub struct ReturnValue;

/// What takes the place of a returned value.
pub open spec fn replacement(value: Expression) -> Seq<char> {
    match value.kind {
        ExprKind::BooleanLiteral { value } => if value {
            "False"@
        } else {
            "True"@
        },
        _ => "None"@,
    }
}

/// What takes the place of a returned value.
fn replacement_for(value: &Expression) -> (r: &'static str)
    ensures
        r@ == replacement(*value),
{
    if let ExprKind::BooleanLiteral { value } = &value.kind {
        if *value {
            "False"
        } else {
            "True"
        }
    } else {
        "None"
    }
}

impl Rule for ReturnValue {
    open spec fn reach(&self) -> Reach {
        Reach {
            while_orelse: true,
            for_orelse: true,
            try_tail: true,
            with_body: true,
            ..blocks_only()
        }
    }

    open spec fn edits_at(&self, node: Node<'_>, source: Seq<char>) -> Seq<Edit> {
        match node {
            Node::Statement(s) => match s.kind {
                StmtKind::Return { value: Some(v) } => range_edit(
                    source,
                    v.span.start as int,
                    v.span.end as int,
                    replacement(v),
                ),
                _ => Seq::empty(),
            },
            _ => Seq::empty(),
        }
    }

    proof fn edits_at_are_faithful(&self, node: Node<'_>, source: Seq<char>) {
        broadcast use lemma_range_edit_is_faithful;

    }

    fn get_reach(&self) -> (r: Reach) {
        Reach {
            while_orelse: true,
            for_orelse: true,
            try_tail: true,
            with_body: true,
            ..Reach::blocks()
        }
    }

    fn propose(&self, node: Node<'_>, source: &str, out: &mut Vec<Mutation>) {
        if let Node::Statement(s) = node {
            if let StmtKind::Return { value: Some(v) } = &s.kind {
                push_range(source, v.span.start, v.span.end, replacement_for(v), out);
                return;
            }
        }
        assert(edits(out@) =~= edits(old(out)@) + self.edits_at(node, source@));
    }
}

impl Mutator for ReturnValue {
    open spec fn label(&self) -> Seq<char> {
        "return_value"@
    }

    open spec fn finds(
        &self,
        source: Seq<char>,
        ast: Module,
        ctx: MutationContext<'_>,
        found: Seq<Edit>,
    ) -> bool {
        found == suite_edits(*self, ast.body@, source)
    }

    fn name(&self) -> (r: &str) {
        "return_value"
    }

    fn find_mutations(&self, source: &str, ast: &Module, _ctx: &MutationContext<'_>) -> (r: Vec<
        Mutation,
    >) {
        find_all(self, source, ast)
    }
}

/// Whether an edit replaces the value of a `return`: `True` and `False` by each
/// other, and any other value by `None`.
pub open spec fn replaces_returned(source: Seq<char>, p: Place, e: Edit) -> bool {
    &&& p matches Place::Statement(s)
    &&& s.kind matches StmtKind::Return { value: Some(v) }
    &&& replaces_range(source, v.span.start as int, v.span.end as int, e.replacement, e)
    &&& match v.kind {
        ExprKind::BooleanLiteral { value: true } => e.replacement == "False"@,
        ExprKind::BooleanLiteral { value: false } => e.replacement == "True"@,
        _ => e.replacement == "None"@,
    }
}

/// The value of every `return`, in whatever block it stands, is replaced, and
/// nothing else is.
pub proof fn law_every_returned_value_is_replaced(
    source: Seq<char>,
    ast: Module,
    ctx: MutationContext<'_>,
    found: Seq<Edit>,
    e: Edit,
)
    requires
        ReturnValue.finds(source, ast, ctx, found),
    ensures
        found.contains(e) <==> exists|p: Place| #[trigger]
            occurs(p, ast.body@, all_blocks()) && replaces_returned(source, p, e),
        forall|p: Place| (#[trigger] own_edits(ReturnValue, p, source)).len() <= 1,
{
    let reach = all_blocks();
    assert(ReturnValue.reach() == reach);
    assert forall|p: Place| (#[trigger] own_edits(ReturnValue, p, source)).contains(e) <==> replaces_returned(
        source,
        p,
        e,
    ) by {
        if let Place::Statement(s) = p {
            if let StmtKind::Return { value: Some(v) } = s.kind {
                law_range_edit_replaces_the_range(
                    source,
                    v.span.start as int,
                    v.span.end as int,
                    replacement(v),
                    e,
                );
            }
        }
    }
    lemma_walk_by_relation(
        ReturnValue,
        ast.body@,
        source,
        e,
        reach,
        |p: Place| replaces_returned(source, p, e),
    );
    assert forall|p: Place| (#[trigger] own_edits(ReturnValue, p, source)).len() <= 1 by {
        if let Place::Statement(s) = p {
            if let StmtKind::Return { value: Some(v) } = s.kind {
                law_range_edit_replaces_the_range(
                    source,
                    v.span.start as int,
                    v.span.end as int,
                    replacement(v),
                    e,
                );
            }
        }
    }
}

} // verus!
