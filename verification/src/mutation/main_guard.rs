//! Detection of module-level `if __name__ == "__main__":` guards.
//!
//! Nothing under such a guard runs when the module is imported by a test,
//! so no mutant there can be killed legitimately, and applying one can be
//! harmful: flipping `==` to `!=` makes `main()` run at import time, inside
//! the test process. Mutants whose span starts inside a guard's test
//! expression or body are therefore never generated. `elif` and `else`
//! clauses do run under import and stay mutable.
use crate::ast::{ExprKind, Expression, Module, Span, Statement, StmtKind};
use crate::text;
use vstd::prelude::*;

verus! {

/// The bare name `__name__`.
pub open spec fn dunder_name(expr: Expression) -> bool {
    expr.kind matches ExprKind::Name { id } && id@ == "__name__"@
}

/// The string literal `"__main__"`.
pub open spec fn main_literal(expr: Expression) -> bool {
    expr.kind matches ExprKind::StringLiteral { value } && value@ == "__main__"@
}

/// `__name__ == "__main__"` in either operand order.
pub open spec fn guard_test(test: Expression) -> bool {
    &&& test.kind matches ExprKind::Compare { left, ops, comparators }
    &&& ops@.len() == 1
    &&& ops@[0]@ == "=="@
    &&& comparators@.len() > 0
    &&& {
        ||| dunder_name(*left) && main_literal(comparators@[0])
        ||| main_literal(*left) && dunder_name(comparators@[0])
    }
}

/// The range of a guard: from the `if` keyword to the end of its body.
pub open spec fn guard(stmt: Statement) -> Option<Span> {
    match stmt.kind {
        StmtKind::If { test, body, .. } => if guard_test(test) {
            Some(
                Span {
                    start: stmt.span.start,
                    end: if body@.len() > 0 {
                        body@.last().span.end
                    } else {
                        test.span.end
                    },
                },
            )
        } else {
            None
        },
        _ => None,
    }
}

/// The ranges of the guards in a suite of statements.
pub open spec fn guards(suite: Seq<Statement>) -> Seq<Span>
    decreases suite.len(),
{
    if suite.len() == 0 {
        Seq::empty()
    } else {
        match guard(suite.last()) {
            Some(span) => guards(suite.drop_last()).push(span),
            None => guards(suite.drop_last()),
        }
    }
}

/// Whether an offset falls inside one of the ranges, their ends counted.
/// Offsets of a source fit in 32 bits.
pub open spec fn inside_any(ranges: Seq<Span>, offset: int) -> bool {
    &&& offset <= u32::MAX
    &&& exists|i: int|
        0 <= i < ranges.len() && (#[trigger] ranges[i]).start <= offset <= ranges[i].end
}

/// Byte ranges covered by every module-level `__main__` guard in `module`:
/// from the `if` keyword to the end of the last statement in its body.
pub fn main_guard_ranges(module: &Module) -> (r: Vec<Span>)
    ensures
        r@ == guards(module.body@),
{
    let mut out: Vec<Span> = Vec::new();
    let mut i: usize = 0;
    while i < module.body.len()
        invariant
            i <= module.body.len(),
            out@ == guards(module.body@.take(i as int)),
        decreases module.body.len() - i,
    {
        assert(module.body@.take(i + 1).drop_last() =~= module.body@.take(i as int));
        let stmt: &Statement = &module.body[i];
        if let StmtKind::If { test, body, .. } = &stmt.kind {
            if is_main_guard_test(test) {
                out.push(guard_range(stmt.span, test, body));
            }
        }
        i = i + 1;
    }
    assert(module.body@.take(i as int) =~= module.body@);
    out
}

/// Whether `byte_offset` falls inside any of `ranges`.
pub fn is_inside_any(ranges: &[Span], byte_offset: usize) -> (r: bool)
    ensures
        r == inside_any(ranges@, byte_offset as int),
{
    if byte_offset as u64 > u32::MAX as u64 {
        return false;
    }
    let mut i: usize = 0;
    while i < ranges.len()
        invariant
            i <= ranges@.len(),
            byte_offset <= u32::MAX,
            forall|j: int|
                0 <= j < i ==> !((#[trigger] ranges@[j]).start <= byte_offset <= ranges@[j].end),
        decreases ranges.len() - i,
    {
        if ranges[i].start <= byte_offset && byte_offset <= ranges[i].end {
            return true;
        }
        i = i + 1;
    }
    false
}

/// `if` keyword through the last body statement, without `elif` and `else`.
fn guard_range(whole: Span, test: &Expression, body: &Vec<Statement>) -> (r: Span)
    ensures
        r.start == whole.start,
        r.end == if body@.len() > 0 {
            body@.last().span.end
        } else {
            test.span.end
        },
{
    let total: usize = body.len();
    let end: usize = if total > 0 {
        body[total - 1].span.end
    } else {
        test.span.end
    };
    Span { start: whole.start, end }
}

/// `__name__ == "__main__"` in either operand order.
fn is_main_guard_test(test: &Expression) -> (r: bool)
    ensures
        r == guard_test(*test),
{
    if let ExprKind::Compare { left, ops, comparators } = &test.kind {
        if ops.len() != 1 || comparators.len() == 0 || !text::same(ops[0], "==") {
            return false;
        }
        (is_dunder_name(left) && is_main_literal(&comparators[0])) || (is_main_literal(left)
            && is_dunder_name(&comparators[0]))
    } else {
        false
    }
}

/// The bare name `__name__`.
fn is_dunder_name(expr: &Expression) -> (r: bool)
    ensures
        r == dunder_name(*expr),
{
    match &expr.kind {
        ExprKind::Name { id } => text::same(id.as_str(), "__name__"),
        _ => false,
    }
}

/// The string literal `"__main__"`.
fn is_main_literal(expr: &Expression) -> (r: bool)
    ensures
        r == main_literal(*expr),
{
    match &expr.kind {
        ExprKind::StringLiteral { value } => text::same(value.as_str(), "__main__"),
        _ => false,
    }
}

/// The guards of a module are those of its top-level statements that are one,
/// in their order.
pub proof fn law_every_guard_is_found(suite: Seq<Statement>)
    ensures
        guards(suite) == suite.filter_map(|stmt: Statement| guard(stmt)),
    decreases suite.len(),
{
    if suite.len() > 0 {
        law_every_guard_is_found(suite.drop_last());
        assert(guards(suite) =~= suite.filter_map(|stmt: Statement| guard(stmt)));
    }
}

/// A comparison of two expressions for equality.
pub open spec fn is_equality(test: Expression, left: Expression, right: Expression) -> bool {
    &&& test.kind matches ExprKind::Compare { left: l, ops, comparators }
    &&& *l == left
    &&& ops@.len() == 1
    &&& ops@[0]@ == "=="@
    &&& comparators@ == seq![right]
}

/// The test of a guard compares `__name__` with `"__main__"`, in either order.
pub proof fn law_guards_compare_the_name(test: Expression, left: Expression, right: Expression)
    requires
        is_equality(test, left, right),
    ensures
        guard_test(test) <==> {
            ||| (left.kind matches ExprKind::Name { id } && id@ == "__name__"@) && (
            right.kind matches ExprKind::StringLiteral { value } && value@ == "__main__"@)
            ||| (right.kind matches ExprKind::Name { id } && id@ == "__name__"@) && (
            left.kind matches ExprKind::StringLiteral { value } && value@ == "__main__"@)
        },
        forall|swapped: Expression|
            #[trigger] is_equality(swapped, right, left) ==> guard_test(swapped) == guard_test(
                test,
            ),
{
    assert(seq![right][0] == right);
    assert(seq![left][0] == left);
}

/// A guard covers the `if` from its start to the end of its body, and nothing
/// but an `if` with such a test is a guard.
pub proof fn law_guards_cover_their_body(stmt: Statement)
    ensures
        guard(stmt) is Some <==> stmt.kind is If && guard_test(stmt.kind->If_test),
        guard(stmt) matches Some(span) ==> {
            &&& span.start == stmt.span.start
            &&& stmt.kind->If_body@.len() > 0 ==> span.end == stmt.kind->If_body@.last().span.end
            &&& stmt.kind->If_body@.len() == 0 ==> span.end == stmt.kind->If_test.span.end
        },
{
}

} // verus!
