//! Constant replacement mutator.
//!
//! Swaps `True` and `False`, replaces `0` by `1`, `1` by `0` and any other
//! number by its successor, and exchanges empty and non-empty strings.
use crate::ast::{ExprKind, Expression, Module, Number};
use crate::decimal;
use crate::mutation::mutator::{
    edits, float_text, Edit, FloatText, Mutation, MutationContext, Mutator,
};
use crate::mutation::occurs::{all_blocks, lemma_walk_by_relation, occurs, own_edits, Place};
use crate::mutation::propose::{
    find_all, law_range_edit_replaces_the_range, lemma_range_edit_is_faithful, push_range,
    range_edit, replaces_range,
};
use crate::mutation::walk::{blocks_only, suite_edits, Node, Reach, Rule};
use vstd::prelude::*;

verus! {

/// Mutator that replaces constants.
#[derive(Debug)]
pub struct ConstantReplace;

/// Double-precision encoding of `0.0`.
pub const ZERO_BITS: u64 = 0;

/// Double-precision encoding of `-0.0`.
pub const NEGATIVE_ZERO_BITS: u64 = 0x8000_0000_0000_0000;

/// Double-precision encoding of `1.0`.
pub const ONE_BITS: u64 = 0x3ff0_0000_0000_0000;

/// The rule of [`ConstantReplace`] for a file with the given float texts.
#[derive(Debug)]
pub struct ConstantRule<'a> {
    pub floats: &'a [FloatText],
}

/// What takes the place of an integer, unless its successor is too large.
pub open spec fn int_replacement(value: Option<i64>) -> Option<Seq<char>> {
    match value {
        Some(v) => if v == 0 {
            Some("1"@)
        } else if v == 1 {
            Some("0"@)
        } else if v < i64::MAX {
            Some(decimal::decimal(v + 1))
        } else {
            None
        },
        None => None,
    }
}

/// What takes the place of a float.
pub open spec fn float_replacement(floats: Seq<FloatText>, bits: u64) -> Option<Seq<char>> {
    if bits == ZERO_BITS || bits == NEGATIVE_ZERO_BITS {
        Some("1.0"@)
    } else if bits == ONE_BITS {
        Some("0.0"@)
    } else {
        float_text(floats, bits)
    }
}

/// What takes the place of a constant.
pub open spec fn replacement(floats: Seq<FloatText>, expr: Expression) -> Option<Seq<char>> {
    match expr.kind {
        ExprKind::BooleanLiteral { value } => if value {
            Some("False"@)
        } else {
            Some("True"@)
        },
        ExprKind::NumberLiteral { value } => match value {
            Number::Int(v) => int_replacement(v),
            Number::Float(bits) => float_replacement(floats, bits),
            Number::Complex => None,
        },
        ExprKind::StringLiteral { value } => if value@.len() == 0 {
            Some("\"mutant\""@)
        } else {
            Some("\"\""@)
        },
        _ => None,
    }
}

/// What takes the place of an integer, unless its successor is too large.
pub fn int_text(value: Option<i64>) -> (r: Option<String>)
    ensures
        r is Some <==> int_replacement(value) is Some,
        r matches Some(t) ==> int_replacement(value) == Some(t@),
{
    let v: i64 = value?;
    if v == 0 {
        Some("1".to_owned())
    } else if v == 1 {
        Some("0".to_owned())
    } else if v < i64::MAX {
        Some(decimal::decimal_i64(v + 1))
    } else {
        None
    }
}

/// The text that a table gives for a float.
fn lookup_float(floats: &[FloatText], bits: u64) -> (r: Option<String>)
    ensures
        r is Some <==> float_text(floats@, bits) is Some,
        r matches Some(t) ==> float_text(floats@, bits) == Some(t@),
{
    let mut i: usize = 0;
    assert(floats@.skip(0) =~= floats@);
    while i < floats.len()
        invariant
            i <= floats.len(),
            float_text(floats@, bits) == float_text(floats@.skip(i as int), bits),
        decreases floats.len() - i,
    {
        if floats[i].bits == bits {
            return Some(floats[i].text.clone());
        }
        assert(floats@.skip(i as int).drop_first() =~= floats@.skip(i + 1));
        i = i + 1;
    }
    None
}

/// What takes the place of a float.
pub fn float_literal_text(floats: &[FloatText], bits: u64) -> (r: Option<String>)
    ensures
        r is Some <==> float_replacement(floats@, bits) is Some,
        r matches Some(t) ==> float_replacement(floats@, bits) == Some(t@),
{
    if bits == ZERO_BITS || bits == NEGATIVE_ZERO_BITS {
        Some("1.0".to_owned())
    } else if bits == ONE_BITS {
        Some("0.0".to_owned())
    } else {
        lookup_float(floats, bits)
    }
}

/// What takes the place of a constant.
fn replacement_text(floats: &[FloatText], expr: &Expression) -> (r: Option<String>)
    ensures
        r is Some <==> replacement(floats@, *expr) is Some,
        r matches Some(t) ==> replacement(floats@, *expr) == Some(t@),
{
    match &expr.kind {
        ExprKind::BooleanLiteral { value } => if *value {
            Some("False".to_owned())
        } else {
            Some("True".to_owned())
        },
        ExprKind::NumberLiteral { value } => match value {
            Number::Int(v) => int_text(*v),
            Number::Float(bits) => float_literal_text(floats, *bits),
            Number::Complex => None,
        },
        ExprKind::StringLiteral { value } => if value.as_str().is_empty() {
            Some("\"mutant\"".to_owned())
        } else {
            Some("\"\"".to_owned())
        },
        _ => None,
    }
}

impl Rule for ConstantRule<'_> {
    open spec fn reach(&self) -> Reach {
        Reach {
            expr_stmt: true,
            assign: true,
            aug_assign: true,
            ann_assign: true,
            return_value: true,
            if_test: true,
            clause_test: true,
            while_test: true,
            assert_test: true,
            compare: true,
            call_func: true,
            sequences: true,
            displays: true,
            subscript: true,
            ..blocks_only()
        }
    }

    open spec fn edits_at(&self, node: Node<'_>, source: Seq<char>) -> Seq<Edit> {
        match node {
            Node::Expression(e) => match replacement(self.floats@, *e) {
                Some(new) => range_edit(source, e.span.start as int, e.span.end as int, new),
                None => Seq::empty(),
            },
            _ => Seq::empty(),
        }
    }

    proof fn edits_at_are_faithful(&self, node: Node<'_>, source: Seq<char>) {
        broadcast use lemma_range_edit_is_faithful;

    }

    fn get_reach(&self) -> (r: Reach) {
        Reach {
            expr_stmt: true,
            assign: true,
            aug_assign: true,
            ann_assign: true,
            return_value: true,
            if_test: true,
            clause_test: true,
            while_test: true,
            assert_test: true,
            compare: true,
            call_func: true,
            sequences: true,
            displays: true,
            subscript: true,
            ..Reach::blocks()
        }
    }

    fn propose(&self, node: Node<'_>, source: &str, out: &mut Vec<Mutation>) {
        if let Node::Expression(e) = node {
            if let Some(new) = replacement_text(self.floats, e) {
                push_range(source, e.span.start, e.span.end, new.as_str(), out);
                return;
            }
        }
        assert(edits(out@) =~= edits(old(out)@) + self.edits_at(node, source@));
    }
}

impl Mutator for ConstantReplace {
    open spec fn label(&self) -> Seq<char> {
        "constant_replace"@
    }

    open spec fn finds(
        &self,
        source: Seq<char>,
        ast: Module,
        ctx: MutationContext<'_>,
        found: Seq<Edit>,
    ) -> bool {
        found == suite_edits(ConstantRule { floats: ctx.floats }, ast.body@, source)
    }

    fn name(&self) -> (r: &str) {
        "constant_replace"
    }

    fn find_mutations(&self, source: &str, ast: &Module, ctx: &MutationContext<'_>) -> (r: Vec<
        Mutation,
    >) {
        find_all(&ConstantRule { floats: ctx.floats }, source, ast)
    }
}

/// What the walk enters: the values of expression statements, assignments and
/// `return`, the tests of `if`, `elif`, `while` and `assert`, the operands of
/// comparisons, the callees of calls, the elements of displays, and both parts
/// of subscripts.
pub open spec fn visited() -> Reach {
    Reach {
        expr_stmt: true,
        assign: true,
        aug_assign: true,
        ann_assign: true,
        return_value: true,
        if_test: true,
        clause_test: true,
        while_test: true,
        assert_test: true,
        compare: true,
        call_func: true,
        sequences: true,
        displays: true,
        subscript: true,
        while_orelse: false,
        for_orelse: false,
        try_tail: false,
        with_body: false,
        ..all_blocks()
    }
}

/// Whether a text is what takes the place of a literal: `True` and `False`
/// change places, as do 0 and 1, other numbers go up by one, a text becomes
/// empty and an empty one `"mutant"`.
pub open spec fn takes_place(floats: Seq<FloatText>, literal: ExprKind, new: Seq<char>) -> bool {
    match literal {
        ExprKind::BooleanLiteral { value: true } => new == "False"@,
        ExprKind::BooleanLiteral { value: false } => new == "True"@,
        ExprKind::StringLiteral { value } => {
            ||| value@ == Seq::<char>::empty() && new == "\"mutant\""@
            ||| value@ != Seq::<char>::empty() && new == "\"\""@
        },
        ExprKind::NumberLiteral { value: Number::Int(Some(n)) } => {
            ||| n == 0 && new == "1"@
            ||| n == 1 && new == "0"@
            ||| n != 0 && n != 1 && n < 0x7fff_ffff_ffff_ffff && new == decimal::decimal(n + 1)
        },
        ExprKind::NumberLiteral { value: Number::Float(bits) } => {
            let zero = bits == 0 || bits == 0x8000_0000_0000_0000;
            let one = bits == 0x3ff0_0000_0000_0000;
            ||| zero && new == "1.0"@
            ||| one && new == "0.0"@
            ||| !zero && !one && float_text(floats, bits) == Some(new)
        },
        _ => false,
    }
}

/// Whether an edit replaces a literal.
pub open spec fn replaces_literal(
    source: Seq<char>,
    floats: Seq<FloatText>,
    p: Place,
    e: Edit,
) -> bool {
    &&& p matches Place::Expression(x)
    &&& takes_place(floats, x.kind, e.replacement)
    &&& replaces_range(source, x.span.start as int, x.span.end as int, e.replacement, e)
}

proof fn lemma_takes_place(floats: Seq<FloatText>, x: Expression, new: Seq<char>)
    ensures
        replacement(floats, x) == Some(new) <==> takes_place(floats, x.kind, new),
{
    if let ExprKind::StringLiteral { value } = x.kind {
        if value@.len() == 0 {
            assert(value@ =~= Seq::<char>::empty());
        }
    }
}

/// Every literal that the walk visits is replaced by the one that takes its
/// place, and nothing else is changed.
pub proof fn law_every_literal_is_replaced(
    source: Seq<char>,
    ast: Module,
    ctx: MutationContext<'_>,
    found: Seq<Edit>,
    e: Edit,
)
    requires
        ConstantReplace.finds(source, ast, ctx, found),
    ensures
        found.contains(e) <==> exists|p: Place| #[trigger]
            occurs(p, ast.body@, visited()) && replaces_literal(source, ctx.floats@, p, e),
{
    let rule = (ConstantRule { floats: ctx.floats });
    assert(rule.reach() == visited());
    assert forall|p: Place| (#[trigger] own_edits(rule, p, source)).contains(e) <==> replaces_literal(
        source, ctx.floats@, p, e,
    ) by {
        if let Place::Expression(x) = p {
            lemma_takes_place(ctx.floats@, x, e.replacement);
            if let Some(new) = replacement(ctx.floats@, x) {
                law_range_edit_replaces_the_range(
                    source,
                    x.span.start as int,
                    x.span.end as int,
                    new,
                    e,
                );
            }
        }
    }
    lemma_walk_by_relation(
        rule,
        ast.body@,
        source,
        e,
        visited(),
        |p: Place| replaces_literal(source, ctx.floats@, p, e),
    );
}

} // verus!
