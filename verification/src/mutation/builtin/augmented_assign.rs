//! Augmented assignment mutator.
//!
//! Swaps the operator of an augmented assignment as the arithmetic and
//! bitwise mutators swap binary operators, so `+=` becomes `-=`.
use crate::ast::{Module, StmtKind};
use crate::mutation::builtin::{arithmetic, bitwise};
use crate::mutation::mutator::{edits, Edit, Mutation, MutationContext, Mutator};
use crate::mutation::occurs::{blocks_but_tails, lemma_walk_by_relation, occurs, own_edits, Place};
use crate::mutation::propose::{
    find_all, law_token_edit_replaces_the_first, lemma_token_edit_is_faithful, push_token,
    replaces_token, token_edit,
};
use crate::mutation::walk::{blocks_only, suite_edits, Node, Reach, Rule};
use vstd::prelude::*;

verus! {

/// Mutator that swaps the operators of augmented assignments.
#[derive(Debug)]
pub struct AugmentedAssign;

/// The operator that takes the place of `op` in an augmented assignment.
pub open spec fn swapped(op: Seq<char>) -> Option<Seq<char>> {
    match arithmetic::swapped(op) {
        Some(new) => Some(new),
        None => bitwise::swapped(op),
    }
}

/// A swap changes the operator.
pub proof fn law_swap_changes_the_operator(op: Seq<char>)
    ensures
        swapped(op) matches Some(new) ==> new != op,
{
    arithmetic::law_swap_changes_the_operator(op);
    bitwise::law_swap_changes_the_operator(op);
}

/// The operator that takes the place of `op` in an augmented assignment.
pub fn swapped_aug_op(op: &str) -> (r: Option<&'static str>)
    ensures
        r is Some <==> swapped(op@) is Some,
        r matches Some(new) ==> swapped(op@) == Some(new@),
{
    match arithmetic::swapped_operator(op) {
        Some(new) => Some(new),
        None => bitwise::swapped_bitwise(op),
    }
}

/// The spelling of an augmented assignment operator.
pub fn aug_op_str(op: &str) -> (r: String)
    ensures
        r@ == op@.push('='),
{
    let mut result: String = op.to_owned();
    result.push('=');
    result
}

impl Rule for AugmentedAssign {
    open spec fn reach(&self) -> Reach {
        Reach {
            for_orelse: true,
            with_body: true,
            ..blocks_only()
        }
    }

    open spec fn edits_at(&self, node: Node<'_>, source: Seq<char>) -> Seq<Edit> {
        match node {
            Node::Statement(s) => match s.kind {
                StmtKind::AugAssign { target, op, value } => match swapped(op@) {
                    Some(new) => token_edit(
                        source,
                        target.span.end as int,
                        value.span.start as int,
                        op@.push('='),
                        new.push('='),
                    ),
                    None => Seq::empty(),
                },
                _ => Seq::empty(),
            },
            _ => Seq::empty(),
        }
    }

    proof fn edits_at_are_faithful(&self, node: Node<'_>, source: Seq<char>) {
        broadcast use lemma_token_edit_is_faithful;

    }

    fn get_reach(&self) -> (r: Reach) {
        Reach {
            for_orelse: true,
            with_body: true,
            ..Reach::blocks()
        }
    }

    fn propose(&self, node: Node<'_>, source: &str, out: &mut Vec<Mutation>) {
        if let Node::Statement(s) = node {
            if let StmtKind::AugAssign { target, op, value } = &s.kind {
                if let Some(new) = swapped_aug_op(op) {
                    let token: String = aug_op_str(op);
                    let replacement: String = aug_op_str(new);
                    push_token(
                        source,
                        target.span.end,
                        value.span.start,
                        token.as_str(),
                        replacement.as_str(),
                        out,
                    );
                    return;
                }
            }
        }
        assert(edits(out@) =~= edits(old(out)@) + self.edits_at(node, source@));
    }
}

impl Mutator for AugmentedAssign {
    open spec fn label(&self) -> Seq<char> {
        "augmented_assign"@
    }

    open spec fn finds(
        &self,
        source: Seq<char>,
        ast: Module,
        ctx: MutationContext<'_>,
        found: Seq<Edit>,
    ) -> bool {
        found == suite_edits(*self, ast.body@, source)
    }

    fn name(&self) -> (r: &str) {
        "augmented_assign"
    }

    fn find_mutations(&self, source: &str, ast: &Module, _ctx: &MutationContext<'_>) -> (r: Vec<
        Mutation,
    >) {
        find_all(self, source, ast)
    }
}

/// Whether an edit swaps the operator of an augmented assignment, with its
/// `=`, where it stands between the target and the value.
pub open spec fn swaps_assignment(source: Seq<char>, p: Place, e: Edit) -> bool {
    &&& p matches Place::Statement(s)
    &&& s.kind matches StmtKind::AugAssign { target, op, value }
    &&& exists|new: Seq<char>|
        {
            &&& arithmetic::is_swap(op@, new) || bitwise::is_swap(op@, new)
            &&& e.replacement == #[trigger] new.push('=')
        }
    &&& replaces_token(
        source,
        target.span.end as int,
        value.span.start as int,
        op@ + seq!['='],
        e.replacement,
        e,
    )
}

proof fn lemma_swaps(op: Seq<char>, new: Seq<char>)
    ensures
        swapped(op) == Some(new) <==> arithmetic::is_swap(op, new) || bitwise::is_swap(op, new),
{
    arithmetic::law_swaps_are_those_of_the_table(op, new);
    bitwise::law_swaps_are_those_of_the_table(op, new);
    reveal_strlit("+");
    reveal_strlit("-");
    reveal_strlit("*");
    reveal_strlit("/");
    reveal_strlit("//");
    reveal_strlit("%");
    reveal_strlit("**");
    reveal_strlit("&");
    reveal_strlit("|");
    reveal_strlit("^");
    reveal_strlit("<<");
    reveal_strlit(">>");
    assert("+"@[0] != "&"@[0]);
    assert("+"@[0] != "|"@[0]);
    assert("+"@[0] != "^"@[0]);
    assert("+"@[0] != "<<"@[0]);
    assert("+"@[0] != ">>"@[0]);
    assert("-"@[0] != "&"@[0]);
    assert("-"@[0] != "|"@[0]);
    assert("-"@[0] != "^"@[0]);
    assert("-"@[0] != "<<"@[0]);
    assert("-"@[0] != ">>"@[0]);
    assert("*"@[0] != "&"@[0]);
    assert("*"@[0] != "|"@[0]);
    assert("*"@[0] != "^"@[0]);
    assert("*"@[0] != "<<"@[0]);
    assert("*"@[0] != ">>"@[0]);
    assert("/"@[0] != "&"@[0]);
    assert("/"@[0] != "|"@[0]);
    assert("/"@[0] != "^"@[0]);
    assert("/"@[0] != "<<"@[0]);
    assert("/"@[0] != ">>"@[0]);
    assert("//"@[0] != "&"@[0]);
    assert("//"@[0] != "|"@[0]);
    assert("//"@[0] != "^"@[0]);
    assert("//"@[0] != "<<"@[0]);
    assert("//"@[0] != ">>"@[0]);
    assert("%"@[0] != "&"@[0]);
    assert("%"@[0] != "|"@[0]);
    assert("%"@[0] != "^"@[0]);
    assert("%"@[0] != "<<"@[0]);
    assert("%"@[0] != ">>"@[0]);
    assert("**"@[0] != "&"@[0]);
    assert("**"@[0] != "|"@[0]);
    assert("**"@[0] != "^"@[0]);
    assert("**"@[0] != "<<"@[0]);
    assert("**"@[0] != ">>"@[0]);
    if let Some(other) = arithmetic::swapped(op) {
        arithmetic::law_swaps_are_those_of_the_table(op, other);
    }
}

/// The operator of every augmented assignment that the walk visits is swapped
/// as that of an arithmetic or bitwise operation is, and nothing else is
/// changed.
pub proof fn law_every_augmented_assignment_is_swapped(
    source: Seq<char>,
    ast: Module,
    ctx: MutationContext<'_>,
    found: Seq<Edit>,
    e: Edit,
)
    requires
        AugmentedAssign.finds(source, ast, ctx, found),
    ensures
        found.contains(e) <==> exists|p: Place| #[trigger]
            occurs(p, ast.body@, blocks_but_tails()) && swaps_assignment(source, p, e),
        forall|p: Place| (#[trigger] own_edits(AugmentedAssign, p, source)).len() <= 1,
{
    let rule = AugmentedAssign;
    assert(rule.reach() == blocks_but_tails());
    assert forall|p: Place| (#[trigger] own_edits(rule, p, source)).contains(e) <==> swaps_assignment(
        source, p, e,
    ) by {
        if let Place::Statement(s) = p {
            if let StmtKind::AugAssign { target, op, value } = s.kind {
                assert(op@ + seq!['='] =~= op@.push('='));
                if let Some(new) = swapped(op@) {
                    lemma_swaps(op@, new);
                    law_token_edit_replaces_the_first(
                        source,
                        target.span.end as int,
                        value.span.start as int,
                        op@.push('='),
                        new.push('='),
                        e,
                    );
                }
                if swaps_assignment(source, p, e) {
                    let new = choose|new: Seq<char>|
                        {
                            &&& arithmetic::is_swap(op@, new) || bitwise::is_swap(op@, new)
                            &&& e.replacement == #[trigger] new.push('=')
                        };
                    lemma_swaps(op@, new);
                }
            }
        }
    }
    lemma_walk_by_relation(
        rule,
        ast.body@,
        source,
        e,
        blocks_but_tails(),
        |p: Place| swaps_assignment(source, p, e),
    );
    assert forall|p: Place| (#[trigger] own_edits(AugmentedAssign, p, source)).len() <= 1 by {
        if let Place::Statement(s) = p {
            if let StmtKind::AugAssign { target, op, value } = s.kind {
                assert(op@ + seq!['='] =~= op@.push('='));
                if let Some(new) = swapped(op@) {
                    lemma_swaps(op@, new);
                    law_token_edit_replaces_the_first(
                        source,
                        target.span.end as int,
                        value.span.start as int,
                        op@.push('='),
                        new.push('='),
                        e,
                    );
                }
                if swaps_assignment(source, p, e) {
                    let new = choose|new: Seq<char>|
                        {
                            &&& arithmetic::is_swap(op@, new) || bitwise::is_swap(op@, new)
                            &&& e.replacement == #[trigger] new.push('=')
                        };
                    lemma_swaps(op@, new);
                }
            }
        }
    }
}

} // verus!
