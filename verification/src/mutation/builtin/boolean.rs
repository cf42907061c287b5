//! Boolean operator mutator.
//!
//! Swaps `and` and `or`, and removes `not`.
use crate::ast::{ExprKind, Expression, Module};
use crate::mutation::mutator::{
    all_faithful, edits, Edit, Mutation, MutationContext, Mutator,
};
use crate::mutation::occurs::{all_blocks, lemma_walk_by_relation, occurs, own_edits, Place};
use crate::mutation::propose::{
    find_all, law_range_edit_replaces_the_range, law_token_edit_replaces_the_first,
    lemma_range_edit_is_faithful, lemma_token_edit_is_faithful, push_range, push_token, range_edit,
    replaces_range, replaces_token, token_edit,
};
use crate::mutation::walk::{blocks_only, suite_edits, Node, Reach, Rule};
use crate::text::same;
use vstd::prelude::*;

verus! {

/// Mutator that swaps `and` and `or` and removes `not`.
#[derive(Debug)]
pub struct BooleanOp;

/// The operator that takes the place of `op`.
pub open spec fn swapped(op: Seq<char>) -> Option<Seq<char>> {
    if op == "and"@ {
        Some("or"@)
    } else if op == "or"@ {
        Some("and"@)
    } else {
        None
    }
}

/// The operator that takes the place of `op`.
pub fn swapped_connective(op: &str) -> (r: Option<&'static str>)
    ensures
        r is Some <==> swapped(op@) is Some,
        r matches Some(new) ==> swapped(op@) == Some(new@),
{
    if same(op, "and") {
        Some("or")
    } else if same(op, "or") {
        Some("and")
    } else {
        None
    }
}

/// Swapping twice gives the operator back.
pub proof fn law_swap_is_undone_by_itself(op: Seq<char>)
    ensures
        swapped(op) matches Some(new) ==> swapped(new) == Some(op) && new != op,
{
    reveal_strlit("and");
    reveal_strlit("or");
    assert("and"@.len() != "or"@.len());
}

/// The swap of `op` in each gap between neighbouring operands.
pub open spec fn gap_edits(source: Seq<char>, op: Seq<char>, values: Seq<Expression>) -> Seq<Edit>
    decreases values.len(),
{
    if values.len() < 2 {
        Seq::empty()
    } else {
        gap_edits(source, op, values.drop_last()) + match swapped(op) {
            Some(new) => token_edit(
                source,
                values[values.len() - 2].span.end as int,
                values.last().span.start as int,
                op,
                new,
            ),
            None => Seq::empty(),
        }
    }
}

proof fn lemma_gap_edits_are_faithful(source: Seq<char>, op: Seq<char>, values: Seq<Expression>)
    ensures
        all_faithful(source, gap_edits(source, op, values)),
    decreases values.len(),
{
    broadcast use lemma_token_edit_is_faithful;

    if values.len() >= 2 {
        lemma_gap_edits_are_faithful(source, op, values.drop_last());
    }
}

/// Appends the swaps of `op` between neighbouring operands.
fn collect_bool_op_swaps(
    op: &'static str,
    values: &Vec<Expression>,
    source: &str,
    out: &mut Vec<Mutation>,
)
    ensures
        edits(final(out)@) == edits(old(out)@) + gap_edits(source@, op@, values@),
{
    if values.len() < 2 {
        assert(edits(out@) =~= edits(old(out)@) + gap_edits(source@, op@, values@));
        return;
    }
    let mut i: usize = 1;
    assert(edits(out@) =~= edits(old(out)@) + gap_edits(source@, op@, values@.take(1)));
    while i < values.len()
        invariant
            1 <= i <= values.len(),
            edits(out@) == edits(old(out)@) + gap_edits(source@, op@, values@.take(i as int)),
        decreases values.len() - i,
    {
        if let Some(new) = swapped_connective(op) {
            push_token(source, values[i - 1].span.end, values[i].span.start, op, new, out);
        }
        proof {
            let next = values@.take(i + 1);
            assert(next.drop_last() =~= values@.take(i as int));
            assert(edits(out@) =~= edits(old(out)@) + gap_edits(source@, op@, next));
        }
        i = i + 1;
    }
    assert(values@.take(i as int) =~= values@);
}

impl Rule for BooleanOp {
    open spec fn reach(&self) -> Reach {
        Reach {
            expr_stmt: true,
            assign: true,
            return_value: true,
            if_test: true,
            clause_test: true,
            while_test: true,
            compare: true,
            call_func: true,
            sequences: true,
            ..blocks_only()
        }
    }

    open spec fn edits_at(&self, node: Node<'_>, source: Seq<char>) -> Seq<Edit> {
        match node {
            Node::Expression(e) => match e.kind {
                ExprKind::BoolOp { op, values } => gap_edits(source, op@, values@),
                ExprKind::UnaryOp { op, operand } => if op@ == "not"@ {
                    range_edit(source, e.span.start as int, operand.span.start as int, ""@)
                } else {
                    Seq::empty()
                },
                _ => Seq::empty(),
            },
            _ => Seq::empty(),
        }
    }

    proof fn edits_at_are_faithful(&self, node: Node<'_>, source: Seq<char>) {
        broadcast use lemma_range_edit_is_faithful;

        if let Node::Expression(e) = node {
            if let ExprKind::BoolOp { op, values } = e.kind {
                lemma_gap_edits_are_faithful(source, op@, values@);
            }
        }
    }

    fn get_reach(&self) -> (r: Reach) {
        Reach {
            expr_stmt: true,
            assign: true,
            return_value: true,
            if_test: true,
            clause_test: true,
            while_test: true,
            compare: true,
            call_func: true,
            sequences: true,
            ..Reach::blocks()
        }
    }

    fn propose(&self, node: Node<'_>, source: &str, out: &mut Vec<Mutation>) {
        if let Node::Expression(e) = node {
            match &e.kind {
                ExprKind::BoolOp { op, values } => {
                    collect_bool_op_swaps(op, values, source, out);
                    return;
                },
                ExprKind::UnaryOp { op, operand } => {
                    if same(op, "not") {
                        push_range(source, e.span.start, operand.span.start, "", out);
                        return;
                    }
                },
                _ => {},
            }
        }
        assert(edits(out@) =~= edits(old(out)@) + self.edits_at(node, source@));
    }
}

impl Mutator for BooleanOp {
    open spec fn label(&self) -> Seq<char> {
        "boolean_op"@
    }

    open spec fn finds(
        &self,
        source: Seq<char>,
        ast: Module,
        ctx: MutationContext<'_>,
        found: Seq<Edit>,
    ) -> bool {
        found == suite_edits(*self, ast.body@, source)
    }

    fn name(&self) -> (r: &str) {
        "boolean_op"
    }

    fn find_mutations(&self, source: &str, ast: &Module, _ctx: &MutationContext<'_>) -> (r: Vec<
        Mutation,
    >) {
        find_all(self, source, ast)
    }
}

/// What the walk enters: the values of expression statements, assignments and
/// `return`, the tests of `if`, `elif` and `while`, the operands of
/// comparisons, the callees of calls, and the elements of lists and tuples.
pub open spec fn visited() -> Reach {
    Reach {
        expr_stmt: true,
        assign: true,
        return_value: true,
        if_test: true,
        clause_test: true,
        while_test: true,
        compare: true,
        call_func: true,
        sequences: true,
        while_orelse: false,
        for_orelse: false,
        try_tail: false,
        with_body: false,
        ..all_blocks()
    }
}

/// Whether an edit replaces an `and` by `or` or an `or` by `and`, where it
/// stands between two neighbouring operands.
pub open spec fn swaps_connective(
    source: Seq<char>,
    op: Seq<char>,
    values: Seq<Expression>,
    e: Edit,
) -> bool {
    &&& {
        ||| op == "and"@ && e.replacement == "or"@
        ||| op == "or"@ && e.replacement == "and"@
    }
    &&& exists|k: int|
        1 <= k < values.len() && replaces_token(
            source,
            values[k - 1].span.end as int,
            (#[trigger] values[k]).span.start as int,
            op,
            e.replacement,
            e,
        )
}

/// Whether an edit changes the logic of a boolean operation: it swaps a
/// connective, or drops a `not` with the space up to its operand.
pub open spec fn changes_logic(source: Seq<char>, p: Place, e: Edit) -> bool {
    &&& p matches Place::Expression(x)
    &&& match x.kind {
        ExprKind::BoolOp { op, values } => swaps_connective(source, op@, values@, e),
        ExprKind::UnaryOp { op, operand } => op@ == "not"@ && replaces_range(
            source,
            x.span.start as int,
            operand.span.start as int,
            ""@,
            e,
        ),
        _ => false,
    }
}

proof fn lemma_connectives(op: Seq<char>, new: Seq<char>)
    ensures
        swapped(op) == Some(new) <==> {
            ||| op == "and"@ && new == "or"@
            ||| op == "or"@ && new == "and"@
        },
{
    reveal_strlit("and");
    reveal_strlit("or");
    assert("and"@.len() != "or"@.len());
}

proof fn lemma_gap_edits(source: Seq<char>, op: Seq<char>, values: Seq<Expression>, e: Edit)
    ensures
        gap_edits(source, op, values).contains(e) <==> swaps_connective(source, op, values, e),
        gap_edits(source, op, values).len() <= values.len(),
    decreases values.len(),
{
    if values.len() >= 2 {
        let n = values.len() - 1;
        let rest = values.drop_last();
        let init = gap_edits(source, op, rest);
        let (start, end) = (values[n - 1].span.end as int, values[n].span.start as int);
        let last = match swapped(op) {
            Some(new) => token_edit(source, start, end, op, new),
            None => Seq::empty(),
        };
        lemma_gap_edits(source, op, rest, e);
        lemma_connectives(op, e.replacement);
        if let Some(new) = swapped(op) {
            lemma_connectives(op, new);
            law_token_edit_replaces_the_first(source, start, end, op, new, e);
        }
        let all = init + last;
        assert(gap_edits(source, op, values) == all);
        if all.contains(e) {
            let i = choose|i: int| 0 <= i < all.len() && all[i] == e;
            if i < init.len() {
                assert(init[i] == e);
                let k = choose|k: int|
                    1 <= k < rest.len() && replaces_token(
                        source,
                        rest[k - 1].span.end as int,
                        (#[trigger] rest[k]).span.start as int,
                        op,
                        e.replacement,
                        e,
                    );
                assert(values[k] == rest[k] && values[k - 1] == rest[k - 1]);
            } else {
                assert(last[i - init.len()] == e);
                assert(values[n] == values.last());
            }
        }
        if swaps_connective(source, op, values, e) {
            let k = choose|k: int|
                1 <= k < values.len() && replaces_token(
                    source,
                    values[k - 1].span.end as int,
                    (#[trigger] values[k]).span.start as int,
                    op,
                    e.replacement,
                    e,
                );
            if k < n {
                assert(values[k] == rest[k] && values[k - 1] == rest[k - 1]);
                assert(init.contains(e));
                let i = choose|i: int| 0 <= i < init.len() && init[i] == e;
                assert(all[i] == e);
            } else {
                assert(last.contains(e));
                let i = choose|i: int| 0 <= i < last.len() && last[i] == e;
                assert(all[init.len() + i] == e);
            }
        }
    }
}

/// Every `and`, `or` and `not` that the walk visits is changed, each `and` and
/// `or` of a chain on its own, and nothing else is.
pub proof fn law_every_boolean_operation_is_changed(
    source: Seq<char>,
    ast: Module,
    ctx: MutationContext<'_>,
    found: Seq<Edit>,
    e: Edit,
)
    requires
        BooleanOp.finds(source, ast, ctx, found),
    ensures
        found.contains(e) <==> exists|p: Place| #[trigger]
            occurs(p, ast.body@, visited()) && changes_logic(source, p, e),
{
    let rule = BooleanOp;
    assert(rule.reach() == visited());
    assert forall|p: Place| (#[trigger] own_edits(rule, p, source)).contains(e) <==> changes_logic(
        source, p, e,
    ) by {
        if let Place::Expression(x) = p {
            match x.kind {
                ExprKind::BoolOp { op, values } => lemma_gap_edits(source, op@, values@, e),
                ExprKind::UnaryOp { op, operand } => law_range_edit_replaces_the_range(
                    source,
                    x.span.start as int,
                    operand.span.start as int,
                    ""@,
                    e,
                ),
                _ => {},
            }
        }
    }
    lemma_walk_by_relation(
        rule,
        ast.body@,
        source,
        e,
        visited(),
        |p: Place| changes_logic(source, p, e),
    );
}

} // verus!
