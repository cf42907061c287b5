//! All expressions of a syntax tree.
//!
//! Expressions are listed in the order in which Python evaluates them, each
//! before the ones nested in it.
use crate::ast::{
    Case, CasePattern, Clause, Decorator, DictItem, ExprKind, Expression, Generator, Handler,
    Module, Number, Param, ParamList, Statement, StmtKind, StringElement, StringPart, TypeParam,
    WithItem,
};
use crate::parse;
use crate::text;
use vstd::prelude::*;

verus! {

/// The expressions in a suite of statements.
pub open spec fn suite_exprs(suite: Seq<Statement>) -> Seq<Expression>
    decreases suite, 0nat,
{
    if suite.len() == 0 {
        Seq::empty()
    } else {
        suite_exprs(suite.drop_last()) + statement_exprs(suite.last())
    }
}

/// The expressions in a statement.
pub open spec fn statement_exprs(stmt: Statement) -> Seq<Expression>
    decreases stmt, 0nat,
{
    match stmt.kind {
        StmtKind::FunctionDef(f) => decorators_exprs(f.decorators@) + type_params_exprs(
            f.type_params@,
        ) + parameters_exprs(f.parameters) + option_exprs(f.returns) + suite_exprs(f.body@),
        StmtKind::ClassDef(c) => decorators_exprs(c.decorators@) + type_params_exprs(
            c.type_params@,
        ) + list_exprs(c.bases@) + list_exprs(c.keywords@) + suite_exprs(c.body@),
        StmtKind::Return { value } => option_exprs(value),
        StmtKind::Delete { targets } => list_exprs(targets@),
        StmtKind::Assign { targets, value } => expression_exprs(value) + list_exprs(targets@),
        StmtKind::AugAssign { target, op, value } => expression_exprs(value) + expression_exprs(
            target,
        ),
        StmtKind::AnnAssign { target, annotation, value } => option_exprs(value)
            + expression_exprs(annotation) + expression_exprs(target),
        StmtKind::For { target, iter, body, orelse } => expression_exprs(iter) + expression_exprs(
            target,
        ) + suite_exprs(body@) + suite_exprs(orelse@),
        StmtKind::While { test, body, orelse } => expression_exprs(test) + suite_exprs(body@)
            + suite_exprs(orelse@),
        StmtKind::If { test, body, clauses } => expression_exprs(test) + suite_exprs(body@)
            + clauses_exprs(clauses@),
        StmtKind::With { items, body } => with_items_exprs(items@) + suite_exprs(body@),
        StmtKind::Raise { exception, cause } => option_exprs(exception) + option_exprs(cause),
        StmtKind::Try { body, handlers, orelse, finalbody } => suite_exprs(body@)
            + handlers_exprs(handlers@) + suite_exprs(orelse@) + suite_exprs(finalbody@),
        StmtKind::Assert { test, msg } => expression_exprs(test) + option_exprs(msg),
        StmtKind::Expr { value } => expression_exprs(value),
        StmtKind::Match { subject, cases } => expression_exprs(subject) + cases_exprs(cases@),
        StmtKind::TypeAlias { name, type_params, value } => expression_exprs(value)
            + type_params_exprs(type_params@) + expression_exprs(name),
        _ => Seq::empty(),
    }
}

/// The expressions of decorators.
pub open spec fn decorators_exprs(list: Seq<Decorator>) -> Seq<Expression>
    decreases list, 0nat,
{
    if list.len() == 0 {
        Seq::empty()
    } else {
        decorators_exprs(list.drop_last()) + expression_exprs(list.last().expression)
    }
}

/// The expressions in `elif` and `else` clauses.
pub open spec fn clauses_exprs(list: Seq<Clause>) -> Seq<Expression>
    decreases list, 0nat,
{
    if list.len() == 0 {
        Seq::empty()
    } else {
        clauses_exprs(list.drop_last()) + option_exprs(list.last().test) + suite_exprs(
            list.last().body@,
        )
    }
}

/// The expressions in exception handlers.
pub open spec fn handlers_exprs(list: Seq<Handler>) -> Seq<Expression>
    decreases list, 0nat,
{
    if list.len() == 0 {
        Seq::empty()
    } else {
        handlers_exprs(list.drop_last()) + option_exprs(list.last().exception) + suite_exprs(
            list.last().body@,
        )
    }
}

/// The expressions of type parameters.
pub open spec fn type_params_exprs(list: Seq<TypeParam>) -> Seq<Expression>
    decreases list, 0nat,
{
    if list.len() == 0 {
        Seq::empty()
    } else {
        type_params_exprs(list.drop_last()) + option_exprs(list.last().bound) + option_exprs(list.last().default)
    }
}

/// The expressions in the defaults of parameters.
pub open spec fn defaults_exprs(list: Seq<Param>) -> Seq<Expression>
    decreases list, 0nat,
{
    if list.len() == 0 {
        Seq::empty()
    } else {
        defaults_exprs(list.drop_last()) + option_exprs(list.last().default)
    }
}

/// The expressions in the annotations of parameters.
pub open spec fn annotations_exprs(list: Seq<Param>) -> Seq<Expression>
    decreases list, 0nat,
{
    if list.len() == 0 {
        Seq::empty()
    } else {
        annotations_exprs(list.drop_last()) + option_exprs(list.last().annotation)
    }
}

/// The expressions in the items of a `with` statement.
pub open spec fn with_items_exprs(list: Seq<WithItem>) -> Seq<Expression>
    decreases list, 0nat,
{
    if list.len() == 0 {
        Seq::empty()
    } else {
        with_items_exprs(list.drop_last()) + expression_exprs(list.last().context) + option_exprs(
            list.last().target,
        )
    }
}

/// The expressions in the cases of a `match` statement.
pub open spec fn cases_exprs(list: Seq<Case>) -> Seq<Expression>
    decreases list, 0nat,
{
    if list.len() == 0 {
        Seq::empty()
    } else {
        cases_exprs(list.drop_last()) + pattern_exprs(list.last().pattern) + option_exprs(
            list.last().guard,
        ) + suite_exprs(list.last().body@)
    }
}

/// The expressions in patterns.
pub open spec fn patterns_exprs(list: Seq<CasePattern>) -> Seq<Expression>
    decreases list, 0nat,
{
    if list.len() == 0 {
        Seq::empty()
    } else {
        patterns_exprs(list.drop_last()) + pattern_exprs(list.last())
    }
}

/// The expressions in the clauses of a comprehension.
pub open spec fn generators_exprs(list: Seq<Generator>) -> Seq<Expression>
    decreases list, 0nat,
{
    if list.len() == 0 {
        Seq::empty()
    } else {
        generators_exprs(list.drop_last()) + expression_exprs(list.last().iter) + expression_exprs(
            list.last().target,
        ) + list_exprs(list.last().ifs@)
    }
}

/// The expressions in the parts of a string.
pub open spec fn string_parts_exprs(list: Seq<StringPart>) -> Seq<Expression>
    decreases list, 0nat,
{
    if list.len() == 0 {
        Seq::empty()
    } else {
        string_parts_exprs(list.drop_last()) + elements_exprs(list.last().elements@)
    }
}

/// The expressions in the elements of a string.
pub open spec fn elements_exprs(list: Seq<StringElement>) -> Seq<Expression>
    decreases list, 0nat,
{
    if list.len() == 0 {
        Seq::empty()
    } else {
        elements_exprs(list.drop_last()) + element_exprs(list.last())
    }
}

/// The expressions in the annotation of a variadic parameter.
pub open spec fn variadic_exprs(parameter: Option<Param>) -> Seq<Expression>
    decreases parameter, 0nat,
{
    match parameter {
        Some(p) => option_exprs(p.annotation),
        None => Seq::empty(),
    }
}

/// The expressions of parameters: those of the defaults, then those of the
/// annotations.
pub open spec fn parameters_exprs(parameters: ParamList) -> Seq<Expression>
    decreases parameters, 1nat,
{
    all_defaults_exprs(parameters) + all_annotations_exprs(parameters)
}

/// The expressions in the defaults of all parameters.
pub open spec fn all_defaults_exprs(parameters: ParamList) -> Seq<Expression>
    decreases parameters, 0nat,
{
    defaults_exprs(parameters.positional_only@) + defaults_exprs(parameters.positional@)
        + defaults_exprs(parameters.keyword_only@)
}

/// The expressions in the annotations of all parameters.
pub open spec fn all_annotations_exprs(parameters: ParamList) -> Seq<Expression>
    decreases parameters, 0nat,
{
    annotations_exprs(parameters.positional_only@) + annotations_exprs(parameters.positional@)
        + variadic_exprs(parameters.variadic) + annotations_exprs(parameters.keyword_only@)
        + variadic_exprs(parameters.keyword_variadic)
}

/// The expressions of parameters that may be absent.
pub open spec fn boxed_parameters_exprs(parameters: Option<Box<ParamList>>) -> Seq<Expression>
    decreases parameters, 0nat,
{
    match parameters {
        Some(p) => parameters_exprs(*p),
        None => Seq::empty(),
    }
}

/// The expressions in a pattern.
pub open spec fn pattern_exprs(pattern: CasePattern) -> Seq<Expression>
    decreases pattern, 0nat,
{
    match pattern {
        CasePattern::Value { value } => expression_exprs(value),
        CasePattern::Sequence { patterns } => patterns_exprs(patterns@),
        CasePattern::Mapping { keys, patterns } => list_exprs(keys@) + patterns_exprs(patterns@),
        CasePattern::Class { class, patterns, keywords } => expression_exprs(class) + patterns_exprs(
            patterns@,
        ) + patterns_exprs(keywords@),
        CasePattern::As { pattern: inner } => match inner {
            Some(p) => pattern_exprs(*p),
            None => Seq::empty(),
        },
        CasePattern::Or { patterns } => patterns_exprs(patterns@),
        CasePattern::Plain => Seq::empty(),
    }
}

/// The expressions in an element of a string: what is interpolated, then what
/// its format interpolates.
pub open spec fn element_exprs(element: StringElement) -> Seq<Expression>
    decreases element, 0nat,
{
    match element {
        StringElement::Text => Seq::empty(),
        StringElement::Interpolation { value, format } => expression_exprs(value) + match format {
            Some(elements) => elements_exprs(elements@),
            None => Seq::empty(),
        },
    }
}

/// The expressions at and in a boxed one that may be absent.
pub open spec fn boxed_exprs(expr: Option<Box<Expression>>) -> Seq<Expression>
    decreases expr, 2nat,
{
    match expr {
        Some(e) => expression_exprs(*e),
        None => Seq::empty(),
    }
}

/// The expressions at and in one that may be absent.
pub open spec fn option_exprs(expr: Option<Expression>) -> Seq<Expression>
    decreases expr, 2nat,
{
    match expr {
        Some(e) => expression_exprs(e),
        None => Seq::empty(),
    }
}

/// The expressions at and in a list of expressions.
pub open spec fn list_exprs(list: Seq<Expression>) -> Seq<Expression>
    decreases list, 0nat,
{
    if list.len() == 0 {
        Seq::empty()
    } else {
        list_exprs(list.drop_last()) + expression_exprs(list.last())
    }
}

/// The expressions in the entries of a dict display.
pub open spec fn items_exprs(items: Seq<DictItem>) -> Seq<Expression>
    decreases items, 0nat,
{
    if items.len() == 0 {
        Seq::empty()
    } else {
        items_exprs(items.drop_last()) + option_exprs(items.last().key) + expression_exprs(
            items.last().value,
        )
    }
}

/// The expressions at and in an expression.
pub open spec fn expression_exprs(expr: Expression) -> Seq<Expression>
    decreases expr, 1nat,
{
    seq![expr] + operand_exprs(expr)
}

/// The expressions in an expression.
pub open spec fn operand_exprs(expr: Expression) -> Seq<Expression>
    decreases expr, 0nat,
{
    match expr.kind {
        ExprKind::BoolOp { op, values } => list_exprs(values@),
        ExprKind::Named { target, value } => expression_exprs(*value) + expression_exprs(*target),
        ExprKind::BinOp { left, op, right } => expression_exprs(*left) + expression_exprs(*right),
        ExprKind::UnaryOp { op, operand } => expression_exprs(*operand),
        ExprKind::Lambda { parameters, body } => boxed_parameters_exprs(parameters)
            + expression_exprs(*body),
        ExprKind::If { test, body, orelse } => expression_exprs(*test) + expression_exprs(*body)
            + expression_exprs(*orelse),
        ExprKind::Dict { items } => items_exprs(items@),
        ExprKind::SetDisplay { elts } => list_exprs(elts@),
        ExprKind::Compare { left, ops, comparators } => expression_exprs(*left) + list_exprs(
            comparators@,
        ),
        ExprKind::Call { func, args, keywords } => expression_exprs(*func) + list_exprs(args@)
            + list_exprs(keywords@),
        ExprKind::Attribute { value, attr } => expression_exprs(*value),
        ExprKind::Subscript { value, slice } => expression_exprs(*value) + expression_exprs(*slice),
        ExprKind::Starred { value } => expression_exprs(*value),
        ExprKind::List { elts } => list_exprs(elts@),
        ExprKind::Tuple { elts } => list_exprs(elts@),
        ExprKind::Await { value } => expression_exprs(*value),
        ExprKind::Yield { value } => boxed_exprs(value),
        ExprKind::YieldFrom { value } => expression_exprs(*value),
        ExprKind::Slice { lower, upper, step } => boxed_exprs(lower) + boxed_exprs(upper)
            + boxed_exprs(step),
        ExprKind::Template { parts } => string_parts_exprs(parts@),
        ExprKind::Comprehension { generators, key, value } => generators_exprs(generators@)
            + boxed_exprs(key) + expression_exprs(*value),
        _ => Seq::empty(),
    }
}

/// The expressions that a list refers to.
pub open spec fn listed(list: Seq<&Expression>) -> Seq<Expression> {
    list.map_values(|e: &Expression| *e)
}

/// Lists in a row can be put together in any grouping.
proof fn lemma_rows(
    z: Seq<Expression>,
    a: Seq<Expression>,
    b: Seq<Expression>,
    c: Seq<Expression>,
    d: Seq<Expression>,
)
    ensures
        z + a + b == z + (a + b),
        z + a + b + c == z + (a + b + c),
        z + a + b + c + d == z + (a + b + c + d),
        z + Seq::<Expression>::empty() == z,
{
    assert(z + a + b =~= z + (a + b));
    assert(z + a + b + c =~= z + (a + b + c));
    assert(z + a + b + c + d =~= z + (a + b + c + d));
    assert(z + Seq::<Expression>::empty() =~= z);
}

/// Five lists in a row can be put together after another.
proof fn lemma_five_rows(
    z: Seq<Expression>,
    a: Seq<Expression>,
    b: Seq<Expression>,
    c: Seq<Expression>,
    d: Seq<Expression>,
    e: Seq<Expression>,
)
    ensures
        z + a + b + c + d + e == z + (a + b + c + d + e),
{
    assert(z + a + b + c + d + e =~= z + (a + b + c + d + e));
}

/// Lists the expressions in a suite of statements.
pub fn list_suite<'a>(suite: &'a Vec<Statement>, out: &mut Vec<&'a Expression>)
    ensures
        listed(final(out)@) == listed(old(out)@) + suite_exprs(suite@),
    decreases suite@, 0nat,
{
    let mut i: usize = 0;
    assert(listed(out@) =~= listed(old(out)@) + suite_exprs(suite@.take(0)));
    while i < suite.len()
        invariant
            i <= suite.len(),
            listed(out@) == listed(old(out)@) + suite_exprs(suite@.take(i as int)),
        decreases suite.len() - i,
    {
        list_statement(&suite[i], out);
        proof {
            let next = suite@.take(i + 1);
            assert(next.drop_last() =~= suite@.take(i as int));
            assert(next.last() == suite@[i as int]);
            assert(listed(out@) =~= listed(old(out)@) + suite_exprs(next));
        }
        i = i + 1;
    }
    assert(suite@.take(i as int) =~= suite@);
}

/// Lists the expressions in a statement.
fn list_statement<'a>(stmt: &'a Statement, out: &mut Vec<&'a Expression>)
    ensures
        listed(final(out)@) == listed(old(out)@) + statement_exprs(*stmt),
    decreases *stmt, 0nat,
{
    let ghost z = listed(out@);
    match &stmt.kind {
        StmtKind::FunctionDef(f) => {
            list_decorators(&f.decorators, out);
            list_type_params(&f.type_params, out);
            list_parameters(&f.parameters, out);
            list_option(&f.returns, out);
            list_suite(&f.body, out);
            proof {
                lemma_five_rows(
                    z,
                    decorators_exprs(f.decorators@),
                    type_params_exprs(f.type_params@),
                    parameters_exprs(f.parameters),
                    option_exprs(f.returns),
                    suite_exprs(f.body@),
                );
            }
        },
        StmtKind::ClassDef(c) => {
            list_decorators(&c.decorators, out);
            list_type_params(&c.type_params, out);
            list_all(&c.bases, out);
            list_all(&c.keywords, out);
            list_suite(&c.body, out);
            proof {
                lemma_five_rows(
                    z,
                    decorators_exprs(c.decorators@),
                    type_params_exprs(c.type_params@),
                    list_exprs(c.bases@),
                    list_exprs(c.keywords@),
                    suite_exprs(c.body@),
                );
            }
        },
        StmtKind::Return { value } => {
            list_option(value, out);
        },
        StmtKind::Delete { targets } => {
            list_all(targets, out);
        },
        StmtKind::Assign { targets, value } => {
            list_expression(value, out);
            list_all(targets, out);
            proof {
                lemma_rows(
                    z,
                    expression_exprs(*value),
                    list_exprs(targets@),
                    Seq::empty(),
                    Seq::empty(),
                );
            }
        },
        StmtKind::AugAssign { target, value, .. } => {
            list_expression(value, out);
            list_expression(target, out);
            proof {
                lemma_rows(
                    z,
                    expression_exprs(*value),
                    expression_exprs(*target),
                    Seq::empty(),
                    Seq::empty(),
                );
            }
        },
        StmtKind::AnnAssign { target, annotation, value } => {
            list_option(value, out);
            list_expression(annotation, out);
            list_expression(target, out);
            proof {
                lemma_rows(
                    z,
                    option_exprs(*value),
                    expression_exprs(*annotation),
                    expression_exprs(*target),
                    Seq::empty(),
                );
            }
        },
        StmtKind::For { target, iter, body, orelse } => {
            list_expression(iter, out);
            list_expression(target, out);
            list_suite(body, out);
            list_suite(orelse, out);
            proof {
                lemma_rows(
                    z,
                    expression_exprs(*iter),
                    expression_exprs(*target),
                    suite_exprs(body@),
                    suite_exprs(orelse@),
                );
            }
        },
        StmtKind::While { test, body, orelse } => {
            list_expression(test, out);
            list_suite(body, out);
            list_suite(orelse, out);
            proof {
                lemma_rows(
                    z,
                    expression_exprs(*test),
                    suite_exprs(body@),
                    suite_exprs(orelse@),
                    Seq::empty(),
                );
            }
        },
        StmtKind::If { test, body, clauses } => {
            list_expression(test, out);
            list_suite(body, out);
            list_clauses(clauses, out);
            proof {
                lemma_rows(
                    z,
                    expression_exprs(*test),
                    suite_exprs(body@),
                    clauses_exprs(clauses@),
                    Seq::empty(),
                );
            }
        },
        StmtKind::With { items, body } => {
            list_with_items(items, out);
            list_suite(body, out);
            proof {
                lemma_rows(
                    z,
                    with_items_exprs(items@),
                    suite_exprs(body@),
                    Seq::empty(),
                    Seq::empty(),
                );
            }
        },
        StmtKind::Raise { exception, cause } => {
            list_option(exception, out);
            list_option(cause, out);
            proof {
                lemma_rows(
                    z,
                    option_exprs(*exception),
                    option_exprs(*cause),
                    Seq::empty(),
                    Seq::empty(),
                );
            }
        },
        StmtKind::Try { body, handlers, orelse, finalbody } => {
            list_suite(body, out);
            list_handlers(handlers, out);
            list_suite(orelse, out);
            list_suite(finalbody, out);
            proof {
                lemma_rows(
                    z,
                    suite_exprs(body@),
                    handlers_exprs(handlers@),
                    suite_exprs(orelse@),
                    suite_exprs(finalbody@),
                );
            }
        },
        StmtKind::Assert { test, msg } => {
            list_expression(test, out);
            list_option(msg, out);
            proof {
                lemma_rows(
                    z,
                    expression_exprs(*test),
                    option_exprs(*msg),
                    Seq::empty(),
                    Seq::empty(),
                );
            }
        },
        StmtKind::Expr { value } => {
            list_expression(value, out);
        },
        StmtKind::Match { subject, cases } => {
            list_expression(subject, out);
            list_cases(cases, out);
            proof {
                lemma_rows(
                    z,
                    expression_exprs(*subject),
                    cases_exprs(cases@),
                    Seq::empty(),
                    Seq::empty(),
                );
            }
        },
        StmtKind::TypeAlias { name, type_params, value } => {
            list_expression(value, out);
            list_type_params(type_params, out);
            list_expression(name, out);
            proof {
                lemma_rows(
                    z,
                    expression_exprs(*value),
                    type_params_exprs(type_params@),
                    expression_exprs(*name),
                    Seq::empty(),
                );
            }
        },
        _ => {
            proof {
                lemma_rows(z, Seq::empty(), Seq::empty(), Seq::empty(), Seq::empty());
            }
        },
    }
}

/// Lists the expressions of decorators.
fn list_decorators<'a>(list: &'a Vec<Decorator>, out: &mut Vec<&'a Expression>)
    ensures
        listed(final(out)@) == listed(old(out)@) + decorators_exprs(list@),
    decreases list@, 0nat,
{
    let mut i: usize = 0;
    assert(listed(out@) =~= listed(old(out)@) + decorators_exprs(list@.take(0)));
    while i < list.len()
        invariant
            i <= list.len(),
            listed(out@) == listed(old(out)@) + decorators_exprs(list@.take(i as int)),
        decreases list.len() - i,
    {
        list_expression(&list[i].expression, out);
        proof {
            let next = list@.take(i + 1);
            assert(next.drop_last() =~= list@.take(i as int));
            assert(next.last() == list@[i as int]);
            assert(listed(out@) =~= listed(old(out)@) + decorators_exprs(next));
        }
        i = i + 1;
    }
    assert(list@.take(i as int) =~= list@);
}

/// Lists the expressions in `elif` and `else` clauses.
fn list_clauses<'a>(list: &'a Vec<Clause>, out: &mut Vec<&'a Expression>)
    ensures
        listed(final(out)@) == listed(old(out)@) + clauses_exprs(list@),
    decreases list@, 0nat,
{
    let mut i: usize = 0;
    assert(listed(out@) =~= listed(old(out)@) + clauses_exprs(list@.take(0)));
    while i < list.len()
        invariant
            i <= list.len(),
            listed(out@) == listed(old(out)@) + clauses_exprs(list@.take(i as int)),
        decreases list.len() - i,
    {
        list_option(&list[i].test, out);
        list_suite(&list[i].body, out);
        proof {
            let next = list@.take(i + 1);
            assert(next.drop_last() =~= list@.take(i as int));
            assert(next.last() == list@[i as int]);
            assert(listed(out@) =~= listed(old(out)@) + clauses_exprs(next));
        }
        i = i + 1;
    }
    assert(list@.take(i as int) =~= list@);
}

/// Lists the expressions in exception handlers.
fn list_handlers<'a>(list: &'a Vec<Handler>, out: &mut Vec<&'a Expression>)
    ensures
        listed(final(out)@) == listed(old(out)@) + handlers_exprs(list@),
    decreases list@, 0nat,
{
    let mut i: usize = 0;
    assert(listed(out@) =~= listed(old(out)@) + handlers_exprs(list@.take(0)));
    while i < list.len()
        invariant
            i <= list.len(),
            listed(out@) == listed(old(out)@) + handlers_exprs(list@.take(i as int)),
        decreases list.len() - i,
    {
        list_option(&list[i].exception, out);
        list_suite(&list[i].body, out);
        proof {
            let next = list@.take(i + 1);
            assert(next.drop_last() =~= list@.take(i as int));
            assert(next.last() == list@[i as int]);
            assert(listed(out@) =~= listed(old(out)@) + handlers_exprs(next));
        }
        i = i + 1;
    }
    assert(list@.take(i as int) =~= list@);
}

/// Lists the expressions of type parameters.
fn list_type_params<'a>(list: &'a Vec<TypeParam>, out: &mut Vec<&'a Expression>)
    ensures
        listed(final(out)@) == listed(old(out)@) + type_params_exprs(list@),
    decreases list@, 0nat,
{
    let mut i: usize = 0;
    assert(listed(out@) =~= listed(old(out)@) + type_params_exprs(list@.take(0)));
    while i < list.len()
        invariant
            i <= list.len(),
            listed(out@) == listed(old(out)@) + type_params_exprs(list@.take(i as int)),
        decreases list.len() - i,
    {
        list_option(&list[i].bound, out);
        list_option(&list[i].default, out);
        proof {
            let next = list@.take(i + 1);
            assert(next.drop_last() =~= list@.take(i as int));
            assert(next.last() == list@[i as int]);
            assert(listed(out@) =~= listed(old(out)@) + type_params_exprs(next));
        }
        i = i + 1;
    }
    assert(list@.take(i as int) =~= list@);
}

/// Lists the expressions in the defaults of parameters.
fn list_defaults<'a>(list: &'a Vec<Param>, out: &mut Vec<&'a Expression>)
    ensures
        listed(final(out)@) == listed(old(out)@) + defaults_exprs(list@),
    decreases list@, 0nat,
{
    let mut i: usize = 0;
    assert(listed(out@) =~= listed(old(out)@) + defaults_exprs(list@.take(0)));
    while i < list.len()
        invariant
            i <= list.len(),
            listed(out@) == listed(old(out)@) + defaults_exprs(list@.take(i as int)),
        decreases list.len() - i,
    {
        list_option(&list[i].default, out);
        proof {
            let next = list@.take(i + 1);
            assert(next.drop_last() =~= list@.take(i as int));
            assert(next.last() == list@[i as int]);
            assert(listed(out@) =~= listed(old(out)@) + defaults_exprs(next));
        }
        i = i + 1;
    }
    assert(list@.take(i as int) =~= list@);
}

/// Lists the expressions in the annotations of parameters.
fn list_annotations<'a>(list: &'a Vec<Param>, out: &mut Vec<&'a Expression>)
    ensures
        listed(final(out)@) == listed(old(out)@) + annotations_exprs(list@),
    decreases list@, 0nat,
{
    let mut i: usize = 0;
    assert(listed(out@) =~= listed(old(out)@) + annotations_exprs(list@.take(0)));
    while i < list.len()
        invariant
            i <= list.len(),
            listed(out@) == listed(old(out)@) + annotations_exprs(list@.take(i as int)),
        decreases list.len() - i,
    {
        list_option(&list[i].annotation, out);
        proof {
            let next = list@.take(i + 1);
            assert(next.drop_last() =~= list@.take(i as int));
            assert(next.last() == list@[i as int]);
            assert(listed(out@) =~= listed(old(out)@) + annotations_exprs(next));
        }
        i = i + 1;
    }
    assert(list@.take(i as int) =~= list@);
}

/// Lists the expressions in the items of a `with` statement.
fn list_with_items<'a>(list: &'a Vec<WithItem>, out: &mut Vec<&'a Expression>)
    ensures
        listed(final(out)@) == listed(old(out)@) + with_items_exprs(list@),
    decreases list@, 0nat,
{
    let mut i: usize = 0;
    assert(listed(out@) =~= listed(old(out)@) + with_items_exprs(list@.take(0)));
    while i < list.len()
        invariant
            i <= list.len(),
            listed(out@) == listed(old(out)@) + with_items_exprs(list@.take(i as int)),
        decreases list.len() - i,
    {
        list_expression(&list[i].context, out);
        list_option(&list[i].target, out);
        proof {
            let next = list@.take(i + 1);
            assert(next.drop_last() =~= list@.take(i as int));
            assert(next.last() == list@[i as int]);
            assert(listed(out@) =~= listed(old(out)@) + with_items_exprs(next));
        }
        i = i + 1;
    }
    assert(list@.take(i as int) =~= list@);
}

/// Lists the expressions in the cases of a `match` statement.
fn list_cases<'a>(list: &'a Vec<Case>, out: &mut Vec<&'a Expression>)
    ensures
        listed(final(out)@) == listed(old(out)@) + cases_exprs(list@),
    decreases list@, 0nat,
{
    let mut i: usize = 0;
    assert(listed(out@) =~= listed(old(out)@) + cases_exprs(list@.take(0)));
    while i < list.len()
        invariant
            i <= list.len(),
            listed(out@) == listed(old(out)@) + cases_exprs(list@.take(i as int)),
        decreases list.len() - i,
    {
        list_pattern(&list[i].pattern, out);
        list_option(&list[i].guard, out);
        list_suite(&list[i].body, out);
        proof {
            let next = list@.take(i + 1);
            assert(next.drop_last() =~= list@.take(i as int));
            assert(next.last() == list@[i as int]);
            assert(listed(out@) =~= listed(old(out)@) + cases_exprs(next));
        }
        i = i + 1;
    }
    assert(list@.take(i as int) =~= list@);
}

/// Lists the expressions in patterns.
fn list_patterns<'a>(list: &'a Vec<CasePattern>, out: &mut Vec<&'a Expression>)
    ensures
        listed(final(out)@) == listed(old(out)@) + patterns_exprs(list@),
    decreases list@, 0nat,
{
    let mut i: usize = 0;
    assert(listed(out@) =~= listed(old(out)@) + patterns_exprs(list@.take(0)));
    while i < list.len()
        invariant
            i <= list.len(),
            listed(out@) == listed(old(out)@) + patterns_exprs(list@.take(i as int)),
        decreases list.len() - i,
    {
        list_pattern(&list[i], out);
        proof {
            let next = list@.take(i + 1);
            assert(next.drop_last() =~= list@.take(i as int));
            assert(next.last() == list@[i as int]);
            assert(listed(out@) =~= listed(old(out)@) + patterns_exprs(next));
        }
        i = i + 1;
    }
    assert(list@.take(i as int) =~= list@);
}

/// Lists the expressions in the clauses of a comprehension.
fn list_generators<'a>(list: &'a Vec<Generator>, out: &mut Vec<&'a Expression>)
    ensures
        listed(final(out)@) == listed(old(out)@) + generators_exprs(list@),
    decreases list@, 0nat,
{
    let mut i: usize = 0;
    assert(listed(out@) =~= listed(old(out)@) + generators_exprs(list@.take(0)));
    while i < list.len()
        invariant
            i <= list.len(),
            listed(out@) == listed(old(out)@) + generators_exprs(list@.take(i as int)),
        decreases list.len() - i,
    {
        list_expression(&list[i].iter, out);
        list_expression(&list[i].target, out);
        list_all(&list[i].ifs, out);
        proof {
            let next = list@.take(i + 1);
            assert(next.drop_last() =~= list@.take(i as int));
            assert(next.last() == list@[i as int]);
            assert(listed(out@) =~= listed(old(out)@) + generators_exprs(next));
        }
        i = i + 1;
    }
    assert(list@.take(i as int) =~= list@);
}

/// Lists the expressions in the parts of a string.
fn list_string_parts<'a>(list: &'a Vec<StringPart>, out: &mut Vec<&'a Expression>)
    ensures
        listed(final(out)@) == listed(old(out)@) + string_parts_exprs(list@),
    decreases list@, 0nat,
{
    let mut i: usize = 0;
    assert(listed(out@) =~= listed(old(out)@) + string_parts_exprs(list@.take(0)));
    while i < list.len()
        invariant
            i <= list.len(),
            listed(out@) == listed(old(out)@) + string_parts_exprs(list@.take(i as int)),
        decreases list.len() - i,
    {
        list_elements(&list[i].elements, out);
        proof {
            let next = list@.take(i + 1);
            assert(next.drop_last() =~= list@.take(i as int));
            assert(next.last() == list@[i as int]);
            assert(listed(out@) =~= listed(old(out)@) + string_parts_exprs(next));
        }
        i = i + 1;
    }
    assert(list@.take(i as int) =~= list@);
}

/// Lists the expressions in the elements of a string.
fn list_elements<'a>(list: &'a Vec<StringElement>, out: &mut Vec<&'a Expression>)
    ensures
        listed(final(out)@) == listed(old(out)@) + elements_exprs(list@),
    decreases list@, 0nat,
{
    let mut i: usize = 0;
    assert(listed(out@) =~= listed(old(out)@) + elements_exprs(list@.take(0)));
    while i < list.len()
        invariant
            i <= list.len(),
            listed(out@) == listed(old(out)@) + elements_exprs(list@.take(i as int)),
        decreases list.len() - i,
    {
        list_element(&list[i], out);
        proof {
            let next = list@.take(i + 1);
            assert(next.drop_last() =~= list@.take(i as int));
            assert(next.last() == list@[i as int]);
            assert(listed(out@) =~= listed(old(out)@) + elements_exprs(next));
        }
        i = i + 1;
    }
    assert(list@.take(i as int) =~= list@);
}

/// Lists the expressions in the annotation of a variadic parameter.
fn list_variadic<'a>(parameter: &'a Option<Param>, out: &mut Vec<&'a Expression>)
    ensures
        listed(final(out)@) == listed(old(out)@) + variadic_exprs(*parameter),
    decreases *parameter, 0nat,
{
    match parameter {
        Some(p) => {
            list_option(&p.annotation, out);
        },
        None => {
            proof {
                lemma_rows(listed(out@), Seq::empty(), Seq::empty(), Seq::empty(), Seq::empty());
            }
        },
    }
}

/// Lists the expressions of parameters.
fn list_parameters<'a>(parameters: &'a ParamList, out: &mut Vec<&'a Expression>)
    ensures
        listed(final(out)@) == listed(old(out)@) + parameters_exprs(*parameters),
    decreases *parameters, 1nat,
{
    let ghost z = listed(out@);
    list_defaults(&parameters.positional_only, out);
    list_defaults(&parameters.positional, out);
    list_defaults(&parameters.keyword_only, out);
    let ghost y = listed(out@);
    list_annotations(&parameters.positional_only, out);
    list_annotations(&parameters.positional, out);
    list_variadic(&parameters.variadic, out);
    list_annotations(&parameters.keyword_only, out);
    list_variadic(&parameters.keyword_variadic, out);
    proof {
        lemma_rows(
            z,
            defaults_exprs(parameters.positional_only@),
            defaults_exprs(parameters.positional@),
            defaults_exprs(parameters.keyword_only@),
            Seq::empty(),
        );
        lemma_five_rows(
            y,
            annotations_exprs(parameters.positional_only@),
            annotations_exprs(parameters.positional@),
            variadic_exprs(parameters.variadic),
            annotations_exprs(parameters.keyword_only@),
            variadic_exprs(parameters.keyword_variadic),
        );
        lemma_rows(
            z,
            all_defaults_exprs(*parameters),
            all_annotations_exprs(*parameters),
            Seq::empty(),
            Seq::empty(),
        );
    }
}

/// Lists the expressions of parameters that may be absent.
fn list_boxed_parameters<'a>(
    parameters: &'a Option<Box<ParamList>>,
    out: &mut Vec<&'a Expression>,
)
    ensures
        listed(final(out)@) == listed(old(out)@) + boxed_parameters_exprs(*parameters),
    decreases *parameters, 0nat,
{
    match parameters {
        Some(p) => {
            list_parameters(p, out);
        },
        None => {
            proof {
                lemma_rows(listed(out@), Seq::empty(), Seq::empty(), Seq::empty(), Seq::empty());
            }
        },
    }
}

/// Lists the expressions in a pattern.
fn list_pattern<'a>(pattern: &'a CasePattern, out: &mut Vec<&'a Expression>)
    ensures
        listed(final(out)@) == listed(old(out)@) + pattern_exprs(*pattern),
    decreases *pattern, 0nat,
{
    let ghost z = listed(out@);
    match pattern {
        CasePattern::Value { value } => {
            list_expression(value, out);
        },
        CasePattern::Sequence { patterns } => {
            list_patterns(patterns, out);
        },
        CasePattern::Mapping { keys, patterns } => {
            list_all(keys, out);
            list_patterns(patterns, out);
            proof {
                lemma_rows(
                    z,
                    list_exprs(keys@),
                    patterns_exprs(patterns@),
                    Seq::empty(),
                    Seq::empty(),
                );
            }
        },
        CasePattern::Class { class, patterns, keywords } => {
            list_expression(class, out);
            list_patterns(patterns, out);
            list_patterns(keywords, out);
            proof {
                lemma_rows(
                    z,
                    expression_exprs(*class),
                    patterns_exprs(patterns@),
                    patterns_exprs(keywords@),
                    Seq::empty(),
                );
            }
        },
        CasePattern::As { pattern: inner } => match inner {
            Some(p) => {
                list_pattern(p, out);
            },
            None => {
                assert(listed(out@) =~= z + Seq::<Expression>::empty());
            },
        },
        CasePattern::Or { patterns } => {
            list_patterns(patterns, out);
        },
        CasePattern::Plain => {
            assert(listed(out@) =~= z + Seq::<Expression>::empty());
        },
    }
}

/// Lists the expressions in an element of a string.
fn list_element<'a>(element: &'a StringElement, out: &mut Vec<&'a Expression>)
    ensures
        listed(final(out)@) == listed(old(out)@) + element_exprs(*element),
    decreases *element, 0nat,
{
    let ghost z = listed(out@);
    if let StringElement::Interpolation { value, format } = element {
        list_expression(value, out);
        if let Some(elements) = format {
            list_elements(elements, out);
        }
    }
    assert(listed(out@) =~= z + element_exprs(*element));
}

/// Lists the expressions at and in a boxed one that may be absent.
fn list_boxed<'a>(expr: &'a Option<Box<Expression>>, out: &mut Vec<&'a Expression>)
    ensures
        listed(final(out)@) == listed(old(out)@) + boxed_exprs(*expr),
    decreases *expr, 2nat,
{
    match expr {
        Some(e) => {
            list_expression(e, out);
        },
        None => {
            proof {
                lemma_rows(listed(out@), Seq::empty(), Seq::empty(), Seq::empty(), Seq::empty());
            }
        },
    }
}

/// Lists the expressions at and in one that may be absent.
fn list_option<'a>(expr: &'a Option<Expression>, out: &mut Vec<&'a Expression>)
    ensures
        listed(final(out)@) == listed(old(out)@) + option_exprs(*expr),
    decreases *expr, 2nat,
{
    match expr {
        Some(e) => {
            list_expression(e, out);
        },
        None => {
            proof {
                lemma_rows(listed(out@), Seq::empty(), Seq::empty(), Seq::empty(), Seq::empty());
            }
        },
    }
}

/// Lists the expressions at and in a list of expressions.
fn list_all<'a>(list: &'a Vec<Expression>, out: &mut Vec<&'a Expression>)
    ensures
        listed(final(out)@) == listed(old(out)@) + list_exprs(list@),
    decreases list@, 0nat,
{
    let mut i: usize = 0;
    assert(listed(out@) =~= listed(old(out)@) + list_exprs(list@.take(0)));
    while i < list.len()
        invariant
            i <= list.len(),
            listed(out@) == listed(old(out)@) + list_exprs(list@.take(i as int)),
        decreases list.len() - i,
    {
        list_expression(&list[i], out);
        proof {
            let next = list@.take(i + 1);
            assert(next.drop_last() =~= list@.take(i as int));
            assert(next.last() == list@[i as int]);
            assert(listed(out@) =~= listed(old(out)@) + list_exprs(next));
        }
        i = i + 1;
    }
    assert(list@.take(i as int) =~= list@);
}

/// Lists the expressions in the entries of a dict display.
fn list_items<'a>(list: &'a Vec<DictItem>, out: &mut Vec<&'a Expression>)
    ensures
        listed(final(out)@) == listed(old(out)@) + items_exprs(list@),
    decreases list@, 0nat,
{
    let mut i: usize = 0;
    assert(listed(out@) =~= listed(old(out)@) + items_exprs(list@.take(0)));
    while i < list.len()
        invariant
            i <= list.len(),
            listed(out@) == listed(old(out)@) + items_exprs(list@.take(i as int)),
        decreases list.len() - i,
    {
        list_option(&list[i].key, out);
        list_expression(&list[i].value, out);
        proof {
            let next = list@.take(i + 1);
            assert(next.drop_last() =~= list@.take(i as int));
            assert(next.last() == list@[i as int]);
            assert(listed(out@) =~= listed(old(out)@) + items_exprs(next));
        }
        i = i + 1;
    }
    assert(list@.take(i as int) =~= list@);
}

/// Lists an expression and the expressions in it.
fn list_expression<'a>(expr: &'a Expression, out: &mut Vec<&'a Expression>)
    ensures
        listed(final(out)@) == listed(old(out)@) + expression_exprs(*expr),
    decreases *expr, 1nat,
{
    let ghost z = listed(out@);
    out.push(expr);
    assert(listed(out@) =~= z + seq![*expr]);
    list_operands(expr, out);
    proof {
        lemma_rows(z, seq![*expr], operand_exprs(*expr), Seq::empty(), Seq::empty());
    }
}

/// Lists the expressions in an expression.
fn list_operands<'a>(expr: &'a Expression, out: &mut Vec<&'a Expression>)
    ensures
        listed(final(out)@) == listed(old(out)@) + operand_exprs(*expr),
    decreases *expr, 0nat,
{
    let ghost z = listed(out@);
    match &expr.kind {
        ExprKind::BoolOp { values, .. } => {
            list_all(values, out);
        },
        ExprKind::Named { target, value } => {
            list_expression(value, out);
            list_expression(target, out);
            proof {
                lemma_rows(
                    z,
                    expression_exprs(**value),
                    expression_exprs(**target),
                    Seq::empty(),
                    Seq::empty(),
                );
            }
        },
        ExprKind::BinOp { left, right, .. } => {
            list_expression(left, out);
            list_expression(right, out);
            proof {
                lemma_rows(
                    z,
                    expression_exprs(**left),
                    expression_exprs(**right),
                    Seq::empty(),
                    Seq::empty(),
                );
            }
        },
        ExprKind::UnaryOp { operand, .. } => {
            list_expression(operand, out);
        },
        ExprKind::Lambda { parameters, body } => {
            list_boxed_parameters(parameters, out);
            list_expression(body, out);
            proof {
                lemma_rows(
                    z,
                    boxed_parameters_exprs(*parameters),
                    expression_exprs(**body),
                    Seq::empty(),
                    Seq::empty(),
                );
            }
        },
        ExprKind::If { test, body, orelse } => {
            list_expression(test, out);
            list_expression(body, out);
            list_expression(orelse, out);
            proof {
                lemma_rows(
                    z,
                    expression_exprs(**test),
                    expression_exprs(**body),
                    expression_exprs(**orelse),
                    Seq::empty(),
                );
            }
        },
        ExprKind::Dict { items } => {
            list_items(items, out);
        },
        ExprKind::SetDisplay { elts } => {
            list_all(elts, out);
        },
        ExprKind::Compare { left, comparators, .. } => {
            list_expression(left, out);
            list_all(comparators, out);
            proof {
                lemma_rows(
                    z,
                    expression_exprs(**left),
                    list_exprs(comparators@),
                    Seq::empty(),
                    Seq::empty(),
                );
            }
        },
        ExprKind::Call { func, args, keywords } => {
            list_expression(func, out);
            list_all(args, out);
            list_all(keywords, out);
            proof {
                lemma_rows(
                    z,
                    expression_exprs(**func),
                    list_exprs(args@),
                    list_exprs(keywords@),
                    Seq::empty(),
                );
            }
        },
        ExprKind::Attribute { value, .. } => {
            list_expression(value, out);
        },
        ExprKind::Subscript { value, slice } => {
            list_expression(value, out);
            list_expression(slice, out);
            proof {
                lemma_rows(
                    z,
                    expression_exprs(**value),
                    expression_exprs(**slice),
                    Seq::empty(),
                    Seq::empty(),
                );
            }
        },
        ExprKind::Starred { value } => {
            list_expression(value, out);
        },
        ExprKind::List { elts } => {
            list_all(elts, out);
        },
        ExprKind::Tuple { elts } => {
            list_all(elts, out);
        },
        ExprKind::Await { value } => {
            list_expression(value, out);
        },
        ExprKind::Yield { value } => {
            list_boxed(value, out);
        },
        ExprKind::YieldFrom { value } => {
            list_expression(value, out);
        },
        ExprKind::Slice { lower, upper, step } => {
            list_boxed(lower, out);
            list_boxed(upper, out);
            list_boxed(step, out);
            proof {
                lemma_rows(
                    z,
                    boxed_exprs(*lower),
                    boxed_exprs(*upper),
                    boxed_exprs(*step),
                    Seq::empty(),
                );
            }
        },
        ExprKind::Template { parts } => {
            list_string_parts(parts, out);
        },
        ExprKind::Comprehension { generators, key, value } => {
            list_generators(generators, out);
            list_boxed(key, out);
            list_expression(value, out);
            proof {
                lemma_rows(
                    z,
                    generators_exprs(generators@),
                    boxed_exprs(*key),
                    expression_exprs(**value),
                    Seq::empty(),
                );
            }
        },
        _ => {
            proof {
                lemma_rows(z, Seq::empty(), Seq::empty(), Seq::empty(), Seq::empty());
            }
        },
    }
}

/// The double-precision encodings of float literals among expressions.
pub open spec fn floats_among(list: Seq<Expression>) -> Seq<u64>
    decreases list.len(),
{
    if list.len() == 0 {
        Seq::empty()
    } else {
        let init = floats_among(list.drop_last());
        match list.last().kind {
            ExprKind::NumberLiteral { value: Number::Float(bits) } => init.push(bits),
            _ => init,
        }
    }
}

/// The double-precision encodings of the float literals in a source text, in
/// the order in which they are evaluated. A text that cannot be parsed has
/// none.
pub fn float_literals(source: &str) -> (r: Vec<u64>)
    requires
        text::bytes(source@).len() <= u32::MAX,
    ensures
        r@ == (match parse::parsed_module(source@) {
            Ok(ast) => floats_among(suite_exprs(ast.body@)),
            Err(_) => Seq::empty(),
        }),
{
    let mut found: Vec<u64> = Vec::new();
    let ast: Module = match parse::parse_module(source) {
        Ok(ast) => ast,
        Err(_) => { return found; },
    };
    let mut all: Vec<&Expression> = Vec::new();
    list_suite(&ast.body, &mut all);
    let ghost list = listed(all@);
    assert(list =~= suite_exprs(ast.body@));
    let mut i: usize = 0;
    assert(list.take(0) =~= Seq::empty());
    while i < all.len()
        invariant
            i <= all@.len(),
            list == listed(all@),
            found@ == floats_among(list.take(i as int)),
        decreases all.len() - i,
    {
        assert(list.take(i + 1).drop_last() =~= list.take(i as int));
        if let ExprKind::NumberLiteral { value } = &all[i].kind {
            if let Number::Float(bits) = *value {
                found.push(bits);
            }
        }
        i = i + 1;
    }
    assert(list.take(i as int) =~= list);
    found
}

} // verus!
