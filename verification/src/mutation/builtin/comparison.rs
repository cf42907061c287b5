//! Comparison operator mutator.
//!
//! Negates each operator of a comparison: `==` and `!=`, `<` and `>=`, `>`
//! and `<=`, `is` and `is not`, `in` and `not in` for each other.
use crate::ast::{ExprKind, Expression, Module};
use crate::mutation::mutator::{
    all_faithful, edits, Edit, Mutation, MutationContext, Mutator,
};
use crate::mutation::occurs::{all_blocks, lemma_walk_by_relation, occurs, own_edits, Place};
use crate::mutation::propose::{
    find_all, law_token_edit_replaces_the_first, lemma_token_edit_is_faithful, push_token,
    replaces_token, token_edit,
};
use crate::mutation::walk::{blocks_only, suite_edits, Node, Reach, Rule};
use crate::text::same;
use vstd::prelude::*;

verus! {

/// Mutator that negates comparison operators.
#[derive(Debug)]
pub struct ComparisonOp;

/// The negation of the comparison `op`.
pub open spec fn negated(op: Seq<char>) -> Option<Seq<char>> {
    if op == "=="@ {
        Some("!="@)
    } else if op == "!="@ {
        Some("=="@)
    } else if op == "<"@ {
        Some(">="@)
    } else if op == ">="@ {
        Some("<"@)
    } else if op == ">"@ {
        Some("<="@)
    } else if op == "<="@ {
        Some(">"@)
    } else if op == "is"@ {
        Some("is not"@)
    } else if op == "is not"@ {
        Some("is"@)
    } else if op == "in"@ {
        Some("not in"@)
    } else if op == "not in"@ {
        Some("in"@)
    } else {
        None
    }
}

/// Negating twice gives the comparison back.
pub proof fn law_negation_is_undone_by_itself(op: Seq<char>)
    ensures
        negated(op) matches Some(new) ==> negated(new) == Some(op) && new != op,
{
    reveal_strlit("==");
    reveal_strlit("!=");
    reveal_strlit("<");
    reveal_strlit(">=");
    reveal_strlit(">");
    reveal_strlit("<=");
    reveal_strlit("is");
    reveal_strlit("is not");
    reveal_strlit("in");
    reveal_strlit("not in");
    assert("=="@[0] == '=' && "!="@[0] == '!' && "<"@[0] == '<' && ">="@[0] == '>');
    assert(">"@[0] == '>' && "<="@[0] == '<' && "is"@[0] == 'i' && "is not"@[0] == 'i');
    assert("in"@[0] == 'i' && "not in"@[0] == 'n' && "is"@[1] == 's' && "in"@[1] == 'n');
    assert("<"@.len() == 1 && ">"@.len() == 1 && "is not"@.len() == 6 && "not in"@.len() == 6);
    assert("=="@.len() == 2 && "!="@.len() == 2 && "<="@.len() == 2 && ">="@.len() == 2);
    assert("is"@.len() == 2 && "in"@.len() == 2);
}

/// The negation of the comparison `op`.
pub fn negated_comparison(op: &str) -> (r: Option<&'static str>)
    ensures
        r is Some <==> negated(op@) is Some,
        r matches Some(new) ==> negated(op@) == Some(new@),
{
    if same(op, "==") {
        Some("!=")
    } else if same(op, "!=") {
        Some("==")
    } else if same(op, "<") {
        Some(">=")
    } else if same(op, ">=") {
        Some("<")
    } else if same(op, ">") {
        Some("<=")
    } else if same(op, "<=") {
        Some(">")
    } else if same(op, "is") {
        Some("is not")
    } else if same(op, "is not") {
        Some("is")
    } else if same(op, "in") {
        Some("not in")
    } else if same(op, "not in") {
        Some("in")
    } else {
        None
    }
}

/// The swap of one comparison operator between `left_end` and `right_start`.
pub open spec fn swap_edit(source: Seq<char>, left_end: int, right_start: int, op: Seq<char>) -> Seq<
    Edit,
> {
    match negated(op) {
        Some(new) => token_edit(source, left_end, right_start, op, new),
        None => Seq::empty(),
    }
}

/// The swaps of a chain of comparisons whose left operand ends at `left_end`.
pub open spec fn chain_edits(
    source: Seq<char>,
    left_end: int,
    ops: Seq<&'static str>,
    comparators: Seq<Expression>,
) -> Seq<Edit>
    decreases ops.len(),
{
    if ops.len() == 0 || comparators.len() == 0 {
        Seq::empty()
    } else {
        swap_edit(source, left_end, comparators[0].span.start as int, ops[0]@) + chain_edits(
            source,
            comparators[0].span.end as int,
            ops.drop_first(),
            comparators.drop_first(),
        )
    }
}

proof fn lemma_chain_edits_are_faithful(
    source: Seq<char>,
    left_end: int,
    ops: Seq<&'static str>,
    comparators: Seq<Expression>,
)
    ensures
        all_faithful(source, chain_edits(source, left_end, ops, comparators)),
    decreases ops.len(),
{
    broadcast use lemma_token_edit_is_faithful;

    if ops.len() > 0 && comparators.len() > 0 {
        lemma_chain_edits_are_faithful(
            source,
            comparators[0].span.end as int,
            ops.drop_first(),
            comparators.drop_first(),
        );
    }
}

/// Appends the swaps of a chain of comparisons.
fn collect_compare(
    left: &Expression,
    ops: &Vec<&'static str>,
    comparators: &Vec<Expression>,
    source: &str,
    out: &mut Vec<Mutation>,
)
    ensures
        edits(final(out)@) == edits(old(out)@) + chain_edits(
            source@,
            left.span.end as int,
            ops@,
            comparators@,
        ),
{
    let mut left_end: usize = left.span.end;
    let mut i: usize = 0;
    assert(ops@.skip(0) =~= ops@);
    assert(comparators@.skip(0) =~= comparators@);
    while i < ops.len() && i < comparators.len()
        invariant
            i <= ops.len(),
            i <= comparators.len(),
            edits(out@) + chain_edits(
                source@,
                left_end as int,
                ops@.skip(i as int),
                comparators@.skip(i as int),
            ) == edits(old(out)@) + chain_edits(source@, left.span.end as int, ops@, comparators@),
        decreases ops.len() - i,
    {
        let ghost before = edits(out@);
        let op: &'static str = ops[i];
        if let Some(new) = negated_comparison(op) {
            push_token(source, left_end, comparators[i].span.start, op, new, out);
        }
        proof {
            let swap = swap_edit(source@, left_end as int, comparators@[i as int].span.start as int, op@);
            assert(edits(out@) =~= before + swap);
            assert(ops@.skip(i as int).drop_first() =~= ops@.skip(i + 1));
            assert(comparators@.skip(i as int).drop_first() =~= comparators@.skip(i + 1));
            let rest = chain_edits(
                source@,
                comparators@[i as int].span.end as int,
                ops@.skip(i + 1),
                comparators@.skip(i + 1),
            );
            assert(before + (swap + rest) =~= (before + swap) + rest);
        }
        left_end = comparators[i].span.end;
        i = i + 1;
    }
    assert(edits(out@) + Seq::<Edit>::empty() =~= edits(out@));
}

impl Rule for ComparisonOp {
    open spec fn reach(&self) -> Reach {
        Reach {
            expr_stmt: true,
            assign: true,
            return_value: true,
            if_test: true,
            clause_test: true,
            while_test: true,
            assert_test: true,
            for_orelse: true,
            try_tail: true,
            compare: true,
            call_func: true,
            sequences: true,
            ..blocks_only()
        }
    }

    open spec fn edits_at(&self, node: Node<'_>, source: Seq<char>) -> Seq<Edit> {
        match node {
            Node::Expression(e) => match e.kind {
                ExprKind::Compare { left, ops, comparators } => chain_edits(
                    source,
                    left.span.end as int,
                    ops@,
                    comparators@,
                ),
                _ => Seq::empty(),
            },
            _ => Seq::empty(),
        }
    }

    proof fn edits_at_are_faithful(&self, node: Node<'_>, source: Seq<char>) {
        if let Node::Expression(e) = node {
            if let ExprKind::Compare { left, ops, comparators } = e.kind {
                lemma_chain_edits_are_faithful(source, left.span.end as int, ops@, comparators@);
            }
        }
    }

    fn get_reach(&self) -> (r: Reach) {
        Reach {
            expr_stmt: true,
            assign: true,
            return_value: true,
            if_test: true,
            clause_test: true,
            while_test: true,
            assert_test: true,
            for_orelse: true,
            try_tail: true,
            compare: true,
            call_func: true,
            sequences: true,
            ..Reach::blocks()
        }
    }

    fn propose(&self, node: Node<'_>, source: &str, out: &mut Vec<Mutation>) {
        if let Node::Expression(e) = node {
            if let ExprKind::Compare { left, ops, comparators } = &e.kind {
                collect_compare(left, ops, comparators, source, out);
                return;
            }
        }
        assert(edits(out@) =~= edits(old(out)@) + self.edits_at(node, source@));
    }
}

impl Mutator for ComparisonOp {
    open spec fn label(&self) -> Seq<char> {
        "comparison_op"@
    }

    open spec fn finds(
        &self,
        source: Seq<char>,
        ast: Module,
        ctx: MutationContext<'_>,
        found: Seq<Edit>,
    ) -> bool {
        found == suite_edits(*self, ast.body@, source)
    }

    fn name(&self) -> (r: &str) {
        "comparison_op"
    }

    fn find_mutations(&self, source: &str, ast: &Module, _ctx: &MutationContext<'_>) -> (r: Vec<
        Mutation,
    >) {
        find_all(self, source, ast)
    }
}

/// What the walk enters: the values of expression statements, assignments and
/// `return`, the tests of `if`, `elif`, `while` and `assert`, the operands of
/// comparisons, the callees of calls, the elements of lists and tuples, and
/// the tails of `for` and `try`.
pub open spec fn visited() -> Reach {
    Reach {
        expr_stmt: true,
        assign: true,
        return_value: true,
        if_test: true,
        clause_test: true,
        while_test: true,
        assert_test: true,
        compare: true,
        call_func: true,
        sequences: true,
        while_orelse: false,
        for_orelse: true,
        try_tail: true,
        with_body: false,
        ..all_blocks()
    }
}

/// Which comparison says the opposite of which.
pub open spec fn is_opposite(op: Seq<char>, new: Seq<char>) -> bool {
    ||| op == "=="@ && new == "!="@
    ||| op == "!="@ && new == "=="@
    ||| op == "<"@ && new == ">="@
    ||| op == ">="@ && new == "<"@
    ||| op == ">"@ && new == "<="@
    ||| op == "<="@ && new == ">"@
    ||| op == "is"@ && new == "is not"@
    ||| op == "is not"@ && new == "is"@
    ||| op == "in"@ && new == "not in"@
    ||| op == "not in"@ && new == "in"@
}

/// A comparison is negated to the one that says the opposite.
pub proof fn law_negations_are_opposites(op: Seq<char>, new: Seq<char>)
    ensures
        negated(op) == Some(new) <==> is_opposite(op, new),
{
    reveal_strlit("==");
    reveal_strlit("!=");
    reveal_strlit("<");
    reveal_strlit(">=");
    reveal_strlit(">");
    reveal_strlit("<=");
    reveal_strlit("is");
    reveal_strlit("is not");
    reveal_strlit("in");
    reveal_strlit("not in");
    assert("=="@[0] != "!="@[0]);
    assert("=="@.len() != "<"@.len());
    assert("=="@[0] != ">="@[0]);
    assert("=="@.len() != ">"@.len());
    assert("=="@[0] != "<="@[0]);
    assert("=="@[0] != "is"@[0]);
    assert("=="@.len() != "is not"@.len());
    assert("=="@[0] != "in"@[0]);
    assert("=="@.len() != "not in"@.len());
    assert("!="@.len() != "<"@.len());
    assert("!="@[0] != ">="@[0]);
    assert("!="@.len() != ">"@.len());
    assert("!="@[0] != "<="@[0]);
    assert("!="@[0] != "is"@[0]);
    assert("!="@.len() != "is not"@.len());
    assert("!="@[0] != "in"@[0]);
    assert("!="@.len() != "not in"@.len());
    assert("<"@.len() != ">="@.len());
    assert("<"@[0] != ">"@[0]);
    assert("<"@.len() != "<="@.len());
    assert("<"@.len() != "is"@.len());
    assert("<"@.len() != "is not"@.len());
    assert("<"@.len() != "in"@.len());
    assert("<"@.len() != "not in"@.len());
    assert(">="@.len() != ">"@.len());
    assert(">="@[0] != "<="@[0]);
    assert(">="@[0] != "is"@[0]);
    assert(">="@.len() != "is not"@.len());
    assert(">="@[0] != "in"@[0]);
    assert(">="@.len() != "not in"@.len());
    assert(">"@.len() != "<="@.len());
    assert(">"@.len() != "is"@.len());
    assert(">"@.len() != "is not"@.len());
    assert(">"@.len() != "in"@.len());
    assert(">"@.len() != "not in"@.len());
    assert("<="@[0] != "is"@[0]);
    assert("<="@.len() != "is not"@.len());
    assert("<="@[0] != "in"@[0]);
    assert("<="@.len() != "not in"@.len());
    assert("is"@.len() != "is not"@.len());
    assert("is"@[1] != "in"@[1]);
    assert("is"@.len() != "not in"@.len());
    assert("is not"@.len() != "in"@.len());
    assert("is not"@[0] != "not in"@[0]);
    assert("in"@.len() != "not in"@.len());
}

/// Whether an edit negates one operator of a chain of comparisons, where it
/// stands between its two operands.
pub open spec fn negates_one(
    source: Seq<char>,
    left_end: int,
    ops: Seq<&'static str>,
    comparators: Seq<Expression>,
    e: Edit,
) -> bool {
    exists|k: int|
        {
            &&& 0 <= k < ops.len()
            &&& k < comparators.len()
            &&& is_opposite((#[trigger] ops[k])@, e.replacement)
            &&& replaces_token(
                source,
                if k == 0 {
                    left_end
                } else {
                    comparators[k - 1].span.end as int
                },
                comparators[k].span.start as int,
                ops[k]@,
                e.replacement,
                e,
            )
        }
}

/// Whether an edit negates one operator of a comparison.
pub open spec fn negates_comparison(source: Seq<char>, p: Place, e: Edit) -> bool {
    &&& p matches Place::Expression(x)
    &&& x.kind matches ExprKind::Compare { left, ops, comparators }
    &&& negates_one(source, left.span.end as int, ops@, comparators@, e)
}

proof fn lemma_chain_edits(
    source: Seq<char>,
    left_end: int,
    ops: Seq<&'static str>,
    comparators: Seq<Expression>,
    e: Edit,
)
    ensures
        chain_edits(source, left_end, ops, comparators).contains(e) <==> negates_one(
            source,
            left_end,
            ops,
            comparators,
            e,
        ),
        chain_edits(source, left_end, ops, comparators).len() <= ops.len(),
    decreases ops.len(),
{
    if ops.len() > 0 && comparators.len() > 0 {
        let (os, cs) = (ops.drop_first(), comparators.drop_first());
        let next = comparators[0].span.end as int;
        let first = swap_edit(source, left_end, comparators[0].span.start as int, ops[0]@);
        let rest = chain_edits(source, next, os, cs);
        lemma_chain_edits(source, next, os, cs, e);
        law_negations_are_opposites(ops[0]@, e.replacement);
        if let Some(new) = negated(ops[0]@) {
            law_negations_are_opposites(ops[0]@, new);
            law_token_edit_replaces_the_first(
                source,
                left_end,
                comparators[0].span.start as int,
                ops[0]@,
                new,
                e,
            );
        }
        let all = first + rest;
        if all.contains(e) {
            let i = choose|i: int| 0 <= i < all.len() && all[i] == e;
            if i < first.len() {
                assert(first[i] == e);
                assert(is_opposite(ops[0]@, e.replacement));
            } else {
                assert(rest[i - first.len()] == e);
                let k = choose|k: int|
                    {
                        &&& 0 <= k < os.len()
                        &&& k < cs.len()
                        &&& is_opposite((#[trigger] os[k])@, e.replacement)
                        &&& replaces_token(
                            source,
                            if k == 0 {
                                next
                            } else {
                                cs[k - 1].span.end as int
                            },
                            cs[k].span.start as int,
                            os[k]@,
                            e.replacement,
                            e,
                        )
                    };
                assert(ops[k + 1] == os[k] && comparators[k + 1] == cs[k]);
                if k > 0 {
                    assert(comparators[k] == cs[k - 1]);
                }
            }
        }
        if negates_one(source, left_end, ops, comparators, e) {
            let k = choose|k: int|
                {
                    &&& 0 <= k < ops.len()
                    &&& k < comparators.len()
                    &&& is_opposite((#[trigger] ops[k])@, e.replacement)
                    &&& replaces_token(
                        source,
                        if k == 0 {
                            left_end
                        } else {
                            comparators[k - 1].span.end as int
                        },
                        comparators[k].span.start as int,
                        ops[k]@,
                        e.replacement,
                        e,
                    )
                };
            if k == 0 {
                assert(first.contains(e));
                let i = choose|i: int| 0 <= i < first.len() && first[i] == e;
                assert(all[i] == e);
            } else {
                assert(os[k - 1] == ops[k] && cs[k - 1] == comparators[k]);
                if k > 1 {
                    assert(cs[k - 2] == comparators[k - 1]);
                }
                assert(rest.contains(e));
                let i = choose|i: int| 0 <= i < rest.len() && rest[i] == e;
                assert(all[first.len() + i] == e);
            }
        }
    }
}

/// Every operator of every comparison that the walk visits is negated, each on
/// its own, and nothing else is changed.
pub proof fn law_every_comparison_is_negated(
    source: Seq<char>,
    ast: Module,
    ctx: MutationContext<'_>,
    found: Seq<Edit>,
    e: Edit,
)
    requires
        ComparisonOp.finds(source, ast, ctx, found),
    ensures
        found.contains(e) <==> exists|p: Place| #[trigger]
            occurs(p, ast.body@, visited()) && negates_comparison(source, p, e),
{
    let rule = ComparisonOp;
    assert(rule.reach() == visited());
    assert forall|p: Place| (#[trigger] own_edits(rule, p, source)).contains(e) <==> negates_comparison(
        source, p, e,
    ) by {
        if let Place::Expression(x) = p {
            if let ExprKind::Compare { left, ops, comparators } = x.kind {
                lemma_chain_edits(source, left.span.end as int, ops@, comparators@, e);
            }
        }
    }
    lemma_walk_by_relation(
        rule,
        ast.body@,
        source,
        e,
        visited(),
        |p: Place| negates_comparison(source, p, e),
    );
}

} // verus!
