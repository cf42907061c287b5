//! Condition negation mutator.
//!
//! Wraps the test of an `if`, `elif` or `while` in `not (...)`.
use crate::ast::{Module, Span, StmtKind};
use crate::mutation::mutator::{edits, Edit, Mutation, MutationContext, Mutator};
use crate::mutation::occurs::{all_blocks, lemma_walk_by_relation, occurs, own_edits, Place};
use crate::mutation::propose::{
    find_all, law_range_edit_replaces_the_range, lemma_range_edit_is_faithful, push_range,
    range_edit, replaces_range,
};
use crate::mutation::walk::{blocks_only, suite_edits, Node, Reach, Rule};
use crate::text;
use vstd::prelude::*;

verus! {

/// Mutator that negates conditions.
#[derive(Debug)]
pub struct NegateCondition;

/// A condition in `not (...)`.
pub open spec fn negation(condition: Seq<char>) -> Seq<char> {
    "not ("@ + condition + ")"@
}

/// The negation of the condition at `span`.
pub open spec fn negate_edit(source: Seq<char>, span: Span) -> Seq<Edit> {
    range_edit(
        source,
        span.start as int,
        span.end as int,
        negation(text::span(source, span.start as int, span.end as int)),
    )
}

/// Appends the negation of the condition at `span`.
fn push_negation(source: &str, span: Span, out: &mut Vec<Mutation>)
    ensures
        edits(final(out)@) == edits(old(out)@) + negate_edit(source@, span),
{
    if let Some(condition) = text::slice(source, span.start, span.end) {
        let mut replacement: String = "not (".to_owned();
        replacement.append(condition);
        replacement.append(")");
        push_range(source, span.start, span.end, replacement.as_str(), out);
    } else {
        assert(edits(out@) =~= edits(old(out)@) + negate_edit(source@, span));
    }
}

impl Rule for NegateCondition {
    open spec fn reach(&self) -> Reach {
        Reach {
            while_orelse: true,
            for_orelse: true,
            try_tail: true,
            with_body: true,
            ..blocks_only()
        }
    }

    open spec fn edits_at(&self, node: Node<'_>, source: Seq<char>) -> Seq<Edit> {
        match node {
            Node::Statement(s) => match s.kind {
                StmtKind::If { test, body, clauses } => negate_edit(source, test.span),
                StmtKind::While { test, body, orelse } => negate_edit(source, test.span),
                _ => Seq::empty(),
            },
            Node::Clause(c) => match c.test {
                Some(test) => negate_edit(source, test.span),
                None => Seq::empty(),
            },
            _ => Seq::empty(),
        }
    }

    proof fn edits_at_are_faithful(&self, node: Node<'_>, source: Seq<char>) {
        broadcast use lemma_range_edit_is_faithful;

    }

    fn get_reach(&self) -> (r: Reach) {
        Reach {
            while_orelse: true,
            for_orelse: true,
            try_tail: true,
            with_body: true,
            ..Reach::blocks()
        }
    }

    fn propose(&self, node: Node<'_>, source: &str, out: &mut Vec<Mutation>) {
        match node {
            Node::Statement(s) => match &s.kind {
                StmtKind::If { test, body: _, clauses: _ } => {
                    push_negation(source, test.span, out);
                    return;
                },
                StmtKind::While { test, body: _, orelse: _ } => {
                    push_negation(source, test.span, out);
                    return;
                },
                _ => {},
            },
            Node::Clause(c) => {
                if let Some(test) = &c.test {
                    push_negation(source, test.span, out);
                    return;
                }
            },
            _ => {},
        }
        assert(edits(out@) =~= edits(old(out)@) + self.edits_at(node, source@));
    }
}

impl Mutator for NegateCondition {
    open spec fn label(&self) -> Seq<char> {
        "negate_condition"@
    }

    open spec fn finds(
        &self,
        source: Seq<char>,
        ast: Module,
        ctx: MutationContext<'_>,
        found: Seq<Edit>,
    ) -> bool {
        found == suite_edits(*self, ast.body@, source)
    }

    fn name(&self) -> (r: &str) {
        "negate_condition"
    }

    fn find_mutations(&self, source: &str, ast: &Module, _ctx: &MutationContext<'_>) -> (r: Vec<
        Mutation,
    >) {
        find_all(self, source, ast)
    }
}

/// Whether an edit puts `not (` and `)` around a condition.
pub open spec fn negates(source: Seq<char>, condition: Span, e: Edit) -> bool {
    replaces_range(
        source,
        condition.start as int,
        condition.end as int,
        "not ("@ + e.original + ")"@,
        e,
    )
}

/// Whether an edit negates the condition of an `if`, an `elif` or a `while`.
pub open spec fn negates_condition(source: Seq<char>, p: Place, e: Edit) -> bool {
    match p {
        Place::Statement(s) => match s.kind {
            StmtKind::If { test, body, clauses } => negates(source, test.span, e),
            StmtKind::While { test, body, orelse } => negates(source, test.span, e),
            _ => false,
        },
        Place::Clause(c) => c.test matches Some(test) && negates(source, test.span, e),
        _ => false,
    }
}

proof fn lemma_negates(source: Seq<char>, span: Span, e: Edit)
    ensures
        negate_edit(source, span).contains(e) <==> negates(source, span, e),
        negate_edit(source, span).len() <= 1,
{
    let (start, end) = (span.start as int, span.end as int);
    let new = negation(text::span(source, start, end));
    law_range_edit_replaces_the_range(source, start, end, new, e);
    if text::is_span(source, start, end) {
        text::lemma_span_bytes(source, start, end);
        if text::bytes(e.original) == text::bytes(source).subrange(start, end) {
            text::lemma_bytes_injective(e.original, text::span(source, start, end));
        }
    }
}

/// The condition of every `if`, `elif` and `while`, in whatever block it stands,
/// is negated, and nothing else is changed.
pub proof fn law_every_condition_is_negated(
    source: Seq<char>,
    ast: Module,
    ctx: MutationContext<'_>,
    found: Seq<Edit>,
    e: Edit,
)
    requires
        NegateCondition.finds(source, ast, ctx, found),
    ensures
        found.contains(e) <==> exists|p: Place| #[trigger]
            occurs(p, ast.body@, all_blocks()) && negates_condition(source, p, e),
        forall|p: Place| (#[trigger] own_edits(NegateCondition, p, source)).len() <= 1,
{
    let reach = all_blocks();
    assert(NegateCondition.reach() == reach);
    assert forall|p: Place| (#[trigger] own_edits(NegateCondition, p, source)).contains(e) <==> negates_condition(
        source,
        p,
        e,
    ) by {
        match p {
            Place::Statement(s) => match s.kind {
                StmtKind::If { test, body, clauses } => lemma_negates(source, test.span, e),
                StmtKind::While { test, body, orelse } => lemma_negates(source, test.span, e),
                _ => {},
            },
            Place::Clause(c) => if let Some(test) = c.test {
                lemma_negates(source, test.span, e);
            },
            _ => {},
        }
    }
    lemma_walk_by_relation(
        NegateCondition,
        ast.body@,
        source,
        e,
        reach,
        |p: Place| negates_condition(source, p, e),
    );
    assert forall|p: Place| (#[trigger] own_edits(NegateCondition, p, source)).len() <= 1 by {
        match p {
            Place::Statement(s) => match s.kind {
                StmtKind::If { test, body, clauses } => lemma_negates(source, test.span, e),
                StmtKind::While { test, body, orelse } => lemma_negates(source, test.span, e),
                _ => {},
            },
            Place::Clause(c) => if let Some(test) = c.test {
                lemma_negates(source, test.span, e);
            },
            _ => {},
        }
    }
}

} // verus!
