//! Unary operator mutator.
//!
//! Replaces `-`, `+` and `~` by the other two, and removes `-` and `~`.
use crate::ast::{ExprKind, Expression, Module};
use crate::mutation::mutator::{edits, Edit, Mutation, MutationContext, Mutator};
use crate::mutation::occurs::{all_but_displays, lemma_walk_by_relation, occurs, own_edits, Place};
use crate::mutation::propose::{
    find_all, law_range_edit_replaces_the_range, law_token_edit_replaces_the_first,
    lemma_range_edit_is_faithful, lemma_token_edit_is_faithful, push_range, push_token, range_edit,
    replaces_range, replaces_token, stands_at, token_edit,
};
use crate::mutation::walk::{blocks_only, suite_edits, Node, Reach, Rule};
use crate::text;
use crate::text::same;
use vstd::prelude::*;

verus! {

/// Mutator that replaces and removes unary operators.
#[derive(Debug)]
pub struct UnaryOp;

/// The replacements of a unary operator, and whether it is also removed.
pub open spec fn alternatives(op: Seq<char>) -> Option<(Seq<char>, Seq<char>, bool)> {
    if op == "-"@ {
        Some(("+"@, "~"@, true))
    } else if op == "+"@ {
        Some(("-"@, "~"@, false))
    } else if op == "~"@ {
        Some(("-"@, "+"@, true))
    } else {
        None
    }
}

/// The replacements of a unary operator, and whether it is also removed.
fn unary_alternatives(op: &str) -> (r: Option<(&'static str, &'static str, bool)>)
    ensures
        r is Some <==> alternatives(op@) is Some,
        r matches Some(a) ==> alternatives(op@) == Some((a.0@, a.1@, a.2)),
{
    if same(op, "-") {
        Some(("+", "~", true))
    } else if same(op, "+") {
        Some(("-", "~", false))
    } else if same(op, "~") {
        Some(("-", "+", true))
    } else {
        None
    }
}

/// The edits of a unary operation that starts at `start` and whose operand
/// starts at `operand`.
pub open spec fn unary_edits(source: Seq<char>, start: int, operand: int, op: Seq<char>) -> Seq<
    Edit,
> {
    match alternatives(op) {
        Some((first, second, removable)) => {
            let swap = token_edit(source, start, operand, op, first);
            swap + token_edit(source, start, operand, op, second) + if removable && swap.len() > 0 {
                range_edit(source, start, operand, ""@)
            } else {
                Seq::empty()
            }
        },
        None => Seq::empty(),
    }
}

/// Appends the mutations of a unary operation.
fn collect_unary_mutations(
    op: &str,
    start: usize,
    operand: usize,
    source: &str,
    out: &mut Vec<Mutation>,
)
    ensures
        edits(final(out)@) == edits(old(out)@) + unary_edits(
            source@,
            start as int,
            operand as int,
            op@,
        ),
{
    if let Some((first, second, removable)) = unary_alternatives(op) {
        let before: usize = out.len();
        push_token(source, start, operand, op, first, out);
        let found: bool = out.len() > before;
        push_token(source, start, operand, op, second, out);
        if removable && found {
            push_range(source, start, operand, "", out);
        }
        proof {
            let swap = token_edit(source@, start as int, operand as int, op@, first@);
            assert(found == (swap.len() > 0)) by {
                assert((edits(old(out)@) + swap).len() == edits(old(out)@).len() + swap.len());
            }
        }
    }
    assert(edits(out@) =~= edits(old(out)@) + unary_edits(
        source@,
        start as int,
        operand as int,
        op@,
    ));
}

impl Rule for UnaryOp {
    open spec fn reach(&self) -> Reach {
        Reach {
            expr_stmt: true,
            assign: true,
            aug_assign: true,
            ann_assign: true,
            return_value: true,
            if_test: true,
            clause_test: true,
            while_test: true,
            for_iter: true,
            assert_test: true,
            assert_msg: true,
            while_orelse: true,
            for_orelse: true,
            try_tail: true,
            with_body: true,
            compare: true,
            call_func: true,
            named: true,
            lambda: true,
            starred: true,
            sequences: true,
            subscript: true,
            attribute: true,
            ..blocks_only()
        }
    }

    open spec fn edits_at(&self, node: Node<'_>, source: Seq<char>) -> Seq<Edit> {
        match node {
            Node::Expression(e) => match e.kind {
                ExprKind::UnaryOp { op, operand } => unary_edits(
                    source,
                    e.span.start as int,
                    operand.span.start as int,
                    op@,
                ),
                _ => Seq::empty(),
            },
            _ => Seq::empty(),
        }
    }

    proof fn edits_at_are_faithful(&self, node: Node<'_>, source: Seq<char>) {
        broadcast use {lemma_range_edit_is_faithful, lemma_token_edit_is_faithful};

    }

    fn get_reach(&self) -> (r: Reach) {
        Reach {
            expr_stmt: true,
            assign: true,
            aug_assign: true,
            ann_assign: true,
            return_value: true,
            if_test: true,
            clause_test: true,
            while_test: true,
            for_iter: true,
            assert_test: true,
            assert_msg: true,
            while_orelse: true,
            for_orelse: true,
            try_tail: true,
            with_body: true,
            compare: true,
            call_func: true,
            named: true,
            lambda: true,
            starred: true,
            sequences: true,
            subscript: true,
            attribute: true,
            ..Reach::blocks()
        }
    }

    fn propose(&self, node: Node<'_>, source: &str, out: &mut Vec<Mutation>) {
        if let Node::Expression(e) = node {
            if let ExprKind::UnaryOp { op, operand } = &e.kind {
                collect_unary_mutations(op, e.span.start, operand.span.start, source, out);
                return;
            }
        }
        assert(edits(out@) =~= edits(old(out)@) + self.edits_at(node, source@));
    }
}

impl Mutator for UnaryOp {
    open spec fn label(&self) -> Seq<char> {
        "unary_op"@
    }

    open spec fn finds(
        &self,
        source: Seq<char>,
        ast: Module,
        ctx: MutationContext<'_>,
        found: Seq<Edit>,
    ) -> bool {
        found == suite_edits(*self, ast.body@, source)
    }

    fn name(&self) -> (r: &str) {
        "unary_op"
    }

    fn find_mutations(&self, source: &str, ast: &Module, _ctx: &MutationContext<'_>) -> (r: Vec<
        Mutation,
    >) {
        find_all(self, source, ast)
    }
}

/// Whether a text is an arithmetic sign of a unary operation.
pub open spec fn is_sign(op: Seq<char>) -> bool {
    op == "-"@ || op == "+"@ || op == "~"@
}

/// Whether an edit replaces the sign of a unary operation by another one, or
/// drops a `-` or `~` that stands before its operand.
pub open spec fn changes_sign(source: Seq<char>, p: Place, e: Edit) -> bool {
    &&& p matches Place::Expression(x)
    &&& x.kind matches ExprKind::UnaryOp { op, operand }
    &&& is_sign(op@)
    &&& {
        ||| {
            &&& is_sign(e.replacement)
            &&& e.replacement != op@
            &&& replaces_token(
                source,
                x.span.start as int,
                operand.span.start as int,
                op@,
                e.replacement,
                e,
            )
        }
        ||| {
            &&& op@ != "+"@
            &&& replaces_range(source, x.span.start as int, operand.span.start as int, ""@, e)
            &&& exists|at: int|
                {
                    &&& x.span.start <= at
                    &&& at + text::bytes(op@).len() <= operand.span.start
                    &&& #[trigger] stands_at(text::bytes(source), text::bytes(op@), at)
                }
        }
    }
}

proof fn lemma_found_token(source: Seq<char>, start: int, end: int, token: Seq<char>, new: Seq<char>)
    requires
        text::is_span(source, start, end),
        token.len() > 0,
    ensures
        token_edit(source, start, end, token, new).len() > 0 <==> exists|at: int|
            {
                &&& start <= at
                &&& at + text::bytes(token).len() <= end
                &&& #[trigger] stands_at(text::bytes(source), text::bytes(token), at)
            },
{
    let list = token_edit(source, start, end, token, new);
    let (b, t) = (text::bytes(source), text::bytes(token));
    if list.len() > 0 {
        law_token_edit_replaces_the_first(source, start, end, token, new, list[0]);
        assert(list.contains(list[0]));
        assert(stands_at(b, t, list[0].offset));
    }
    if exists|at: int|
        start <= at && at + t.len() <= end && #[trigger] stands_at(b, t, at) {
        let at = choose|at: int|
            start <= at && at + t.len() <= end && #[trigger] stands_at(b, t, at);
        lemma_first_is_found(source, start, end, token, at);
    }
}

/// A token that stands in a range is found there.
proof fn lemma_first_is_found(source: Seq<char>, start: int, end: int, token: Seq<char>, at: int)
    requires
        text::is_span(source, start, end),
        token.len() > 0,
        start <= at,
        at + text::bytes(token).len() <= end,
        stands_at(text::bytes(source), text::bytes(token), at),
    ensures
        text::find_bytes(
            text::bytes(source).subrange(start, end),
            text::bytes(token),
        ) is Some,
{
    let (b, t) = (text::bytes(source), text::bytes(token));
    let part = b.subrange(start, end);
    text::lemma_find_from(part, t, 0);
    assert(part.subrange(at - start, at - start + t.len()) =~= t);
    assert(text::occurs_at(part, t, at - start));
}

proof fn lemma_unary_edits(
    source: Seq<char>,
    x: Expression,
    op: Seq<char>,
    operand: Expression,
    e: Edit,
)
    ensures
        unary_edits(source, x.span.start as int, operand.span.start as int, op).contains(e) <==> {
            &&& is_sign(op)
            &&& {
                ||| {
                    &&& is_sign(e.replacement)
                    &&& e.replacement != op
                    &&& replaces_token(
                        source,
                        x.span.start as int,
                        operand.span.start as int,
                        op,
                        e.replacement,
                        e,
                    )
                }
                ||| {
                    &&& op != "+"@
                    &&& replaces_range(
                        source,
                        x.span.start as int,
                        operand.span.start as int,
                        ""@,
                        e,
                    )
                    &&& exists|at: int|
                        {
                            &&& x.span.start <= at
                            &&& at + text::bytes(op).len() <= operand.span.start
                            &&& #[trigger] stands_at(text::bytes(source), text::bytes(op), at)
                        }
                }
            }
        },
        unary_edits(source, x.span.start as int, operand.span.start as int, op).len() <= 3,
{
    reveal_strlit("+");
    reveal_strlit("-");
    reveal_strlit("~");
    assert("+"@[0] != "-"@[0]);
    assert("+"@[0] != "~"@[0]);
    assert("-"@[0] != "~"@[0]);
    let (start, end) = (x.span.start as int, operand.span.start as int);
    if let Some((first, second, removable)) = alternatives(op) {
        let swap = token_edit(source, start, end, op, first);
        let other = token_edit(source, start, end, op, second);
        let gone = if removable && swap.len() > 0 {
            range_edit(source, start, end, ""@)
        } else {
            Seq::empty()
        };
        law_token_edit_replaces_the_first(source, start, end, op, first, e);
        law_token_edit_replaces_the_first(source, start, end, op, second, e);
        law_range_edit_replaces_the_range(source, start, end, ""@, e);
        if text::is_span(source, start, end) {
            lemma_found_token(source, start, end, op, first);
        }
        let all = swap + other + gone;
        assert(all == unary_edits(source, start, end, op));
        if all.contains(e) {
            let i = choose|i: int| 0 <= i < all.len() && all[i] == e;
            if i < swap.len() {
                assert(swap[i] == e);
            } else if i < swap.len() + other.len() {
                assert(other[i - swap.len()] == e);
            } else {
                assert(gone[i - swap.len() - other.len()] == e);
            }
        }
        if swap.contains(e) {
            let i = choose|i: int| 0 <= i < swap.len() && swap[i] == e;
            assert(all[i] == e);
        }
        if other.contains(e) {
            let i = choose|i: int| 0 <= i < other.len() && other[i] == e;
            assert(all[swap.len() + i] == e);
        }
        if gone.contains(e) {
            let i = choose|i: int| 0 <= i < gone.len() && gone[i] == e;
            assert(all[swap.len() + other.len() + i] == e);
        }
    }
}

/// Every sign that the walk visits is replaced by each of the two other signs,
/// every `-` and `~` is also dropped, and nothing else is changed.
pub proof fn law_every_sign_is_changed(
    source: Seq<char>,
    ast: Module,
    ctx: MutationContext<'_>,
    found: Seq<Edit>,
    e: Edit,
)
    requires
        UnaryOp.finds(source, ast, ctx, found),
    ensures
        found.contains(e) <==> exists|p: Place| #[trigger]
            occurs(p, ast.body@, all_but_displays()) && changes_sign(source, p, e),
{
    let rule = UnaryOp;
    assert(rule.reach() == all_but_displays());
    assert forall|p: Place| (#[trigger] own_edits(rule, p, source)).contains(e) <==> changes_sign(
        source, p, e,
    ) by {
        if let Place::Expression(x) = p {
            if let ExprKind::UnaryOp { op, operand } = x.kind {
                lemma_unary_edits(source, x, op@, *operand, e);
            }
        }
    }
    lemma_walk_by_relation(
        rule,
        ast.body@,
        source,
        e,
        all_but_displays(),
        |p: Place| changes_sign(source, p, e),
    );
}

} // verus!
