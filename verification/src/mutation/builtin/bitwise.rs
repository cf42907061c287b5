//! Bitwise operator mutator.
//!
//! Swaps bitwise operators: `&` for `|`, `|` and `^` for `&`, and the two
//! shifts for each other.
use crate::ast::{ExprKind, Module};
use crate::mutation::mutator::{edits, Edit, Mutation, MutationContext, Mutator};
use crate::mutation::occurs::{all_blocks, lemma_walk_by_relation, occurs, own_edits, Place};
use crate::mutation::propose::{
    find_all, law_token_edit_replaces_the_first, lemma_token_edit_is_faithful, push_token,
    replaces_token, token_edit,
};
use crate::mutation::walk::{blocks_only, suite_edits, Node, Reach, Rule};
use crate::text::same;
use vstd::prelude::*;

verus! {

/// Mutator that swaps bitwise operators.
#[derive(Debug)]
pub struct BitwiseOp;

/// The operator that takes the place of `op`.
pub open spec fn swapped(op: Seq<char>) -> Option<Seq<char>> {
    if op == "&"@ {
        Some("|"@)
    } else if op == "|"@ || op == "^"@ {
        Some("&"@)
    } else if op == "<<"@ {
        Some(">>"@)
    } else if op == ">>"@ {
        Some("<<"@)
    } else {
        None
    }
}

/// A swap changes the operator.
pub proof fn law_swap_changes_the_operator(op: Seq<char>)
    ensures
        swapped(op) matches Some(new) ==> new != op,
{
    reveal_strlit("&");
    reveal_strlit("|");
    reveal_strlit("^");
    reveal_strlit("<<");
    reveal_strlit(">>");
    assert("&"@[0] == '&' && "|"@[0] == '|' && "^"@[0] == '^');
    assert("<<"@[0] == '<' && ">>"@[0] == '>');
}

/// The operator that takes the place of `op`.
pub fn swapped_bitwise(op: &str) -> (r: Option<&'static str>)
    ensures
        r is Some <==> swapped(op@) is Some,
        r matches Some(new) ==> swapped(op@) == Some(new@),
{
    if same(op, "&") {
        Some("|")
    } else if same(op, "|") || same(op, "^") {
        Some("&")
    } else if same(op, "<<") {
        Some(">>")
    } else if same(op, ">>") {
        Some("<<")
    } else {
        None
    }
}

impl Rule for BitwiseOp {
    open spec fn reach(&self) -> Reach {
        Reach {
            expr_stmt: true,
            assign: true,
            aug_assign: true,
            return_value: true,
            if_test: true,
            while_test: true,
            call_func: true,
            ..blocks_only()
        }
    }

    open spec fn edits_at(&self, node: Node<'_>, source: Seq<char>) -> Seq<Edit> {
        match node {
            Node::Expression(e) => match e.kind {
                ExprKind::BinOp { left, op, right } => match swapped(op@) {
                    Some(new) => token_edit(
                        source,
                        left.span.end as int,
                        right.span.start as int,
                        op@,
                        new,
                    ),
                    None => Seq::empty(),
                },
                _ => Seq::empty(),
            },
            _ => Seq::empty(),
        }
    }

    proof fn edits_at_are_faithful(&self, node: Node<'_>, source: Seq<char>) {
        broadcast use lemma_token_edit_is_faithful;

    }

    fn get_reach(&self) -> (r: Reach) {
        Reach {
            expr_stmt: true,
            assign: true,
            aug_assign: true,
            return_value: true,
            if_test: true,
            while_test: true,
            call_func: true,
            ..Reach::blocks()
        }
    }

    fn propose(&self, node: Node<'_>, source: &str, out: &mut Vec<Mutation>) {
        if let Node::Expression(e) = node {
            if let ExprKind::BinOp { left, op, right } = &e.kind {
                if let Some(new) = swapped_bitwise(op) {
                    push_token(source, left.span.end, right.span.start, op, new, out);
                    return;
                }
            }
        }
        assert(edits(out@) =~= edits(old(out)@) + self.edits_at(node, source@));
    }
}

impl Mutator for BitwiseOp {
    open spec fn label(&self) -> Seq<char> {
        "bitwise_op"@
    }

    open spec fn finds(
        &self,
        source: Seq<char>,
        ast: Module,
        ctx: MutationContext<'_>,
        found: Seq<Edit>,
    ) -> bool {
        found == suite_edits(*self, ast.body@, source)
    }

    fn name(&self) -> (r: &str) {
        "bitwise_op"
    }

    fn find_mutations(&self, source: &str, ast: &Module, _ctx: &MutationContext<'_>) -> (r: Vec<
        Mutation,
    >) {
        find_all(self, source, ast)
    }
}

/// Which bitwise operator takes the place of which.
pub open spec fn is_swap(op: Seq<char>, new: Seq<char>) -> bool {
    ||| op == "&"@ && new == "|"@
    ||| op == "|"@ && new == "&"@
    ||| op == "^"@ && new == "&"@
    ||| op == "<<"@ && new == ">>"@
    ||| op == ">>"@ && new == "<<"@
}

/// An operator is swapped for the one of the table, and only those of the
/// table are swapped.
pub proof fn law_swaps_are_those_of_the_table(op: Seq<char>, new: Seq<char>)
    ensures
        swapped(op) == Some(new) <==> is_swap(op, new),
{
    reveal_strlit("&");
    reveal_strlit("<<");
    reveal_strlit(">>");
    reveal_strlit("^");
    reveal_strlit("|");
    assert("&"@[0] != "|"@[0]);
    assert("&"@[0] != "^"@[0]);
    assert("&"@.len() != "<<"@.len());
    assert("&"@.len() != ">>"@.len());
    assert("|"@[0] != "^"@[0]);
    assert("|"@.len() != "<<"@.len());
    assert("|"@.len() != ">>"@.len());
    assert("^"@.len() != "<<"@.len());
    assert("^"@.len() != ">>"@.len());
    assert("<<"@[0] != ">>"@[0]);
}

/// Whether an edit swaps the operator of a binary operation, where it stands
/// between the operands.
pub open spec fn swaps_operator(source: Seq<char>, p: Place, e: Edit) -> bool {
    &&& p matches Place::Expression(x)
    &&& x.kind matches ExprKind::BinOp { left, op, right }
    &&& is_swap(op@, e.replacement)
    &&& replaces_token(
        source,
        left.span.end as int,
        right.span.start as int,
        op@,
        e.replacement,
        e,
    )
}

/// What the walk enters: the values of expression statements, assignments and
/// `return`, the tests of `if` and `while`, and the callees of calls.
pub open spec fn visited() -> Reach {
    Reach {
        expr_stmt: true,
        assign: true,
        aug_assign: true,
        return_value: true,
        if_test: true,
        while_test: true,
        call_func: true,
        while_orelse: false,
        for_orelse: false,
        try_tail: false,
        with_body: false,
        ..all_blocks()
    }
}

/// The operator of every bitwise operation that the walk visits is swapped, and
/// nothing else is changed.
pub proof fn law_every_bitwise_operator_is_swapped(
    source: Seq<char>,
    ast: Module,
    ctx: MutationContext<'_>,
    found: Seq<Edit>,
    e: Edit,
)
    requires
        BitwiseOp.finds(source, ast, ctx, found),
    ensures
        found.contains(e) <==> exists|p: Place| #[trigger]
            occurs(p, ast.body@, visited()) && swaps_operator(source, p, e),
        forall|p: Place| (#[trigger] own_edits(BitwiseOp, p, source)).len() <= 1,
{
    let rule = BitwiseOp;
    assert(rule.reach() == visited());
    assert forall|p: Place| (#[trigger] own_edits(rule, p, source)).contains(e) <==> swaps_operator(
        source, p, e,
    ) by {
        if let Place::Expression(x) = p {
            if let ExprKind::BinOp { left, op, right } = x.kind {
                law_swaps_are_those_of_the_table(op@, e.replacement);
                if let Some(new) = swapped(op@) {
                    law_token_edit_replaces_the_first(
                        source,
                        left.span.end as int,
                        right.span.start as int,
                        op@,
                        new,
                        e,
                    );
                }
            }
        }
    }
    lemma_walk_by_relation(
        rule,
        ast.body@,
        source,
        e,
        visited(),
        |p: Place| swaps_operator(source, p, e),
    );
    assert forall|p: Place| (#[trigger] own_edits(BitwiseOp, p, source)).len() <= 1 by {
        if let Place::Expression(x) = p {
            if let ExprKind::BinOp { left, op, right } = x.kind {
                law_swaps_are_those_of_the_table(op@, e.replacement);
                if let Some(new) = swapped(op@) {
                    law_token_edit_replaces_the_first(
                        source,
                        left.span.end as int,
                        right.span.start as int,
                        op@,
                        new,
                        e,
                    );
                }
            }
        }
    }
}

} // verus!
