//! Walking a syntax tree in search of places to mutate.
//!
//! A [`Rule`] says what it proposes at one node, and its [`Reach`] says into
//! which parts of a node the walk descends. The walk is a preorder: what a
//! rule proposes at a node comes before what it proposes inside the node.
use crate::ast::{Clause, DictItem, ExprKind, Expression, Handler, Statement, StmtKind};
use crate::mutation::mutator::{all_faithful, edits, Edit, Mutation};
use vstd::prelude::*;

verus! {

/// Parts of statements and expressions into which a walk descends.
///
/// Bodies of definitions, branches, loops, `try` blocks and handlers are
/// always entered. Where a walk enters an expression, it always enters the
/// operands of binary, unary and boolean operations, call arguments and the
/// three parts of a conditional.
#[derive(Debug, Clone, Copy, PartialEq, Eq, Structural)]
pub struct Reach {
    /// The value of an expression statement.
    pub expr_stmt: bool,
    /// The value of an assignment.
    pub assign: bool,
    /// The value of an augmented assignment.
    pub aug_assign: bool,
    /// The value of an annotated assignment.
    pub ann_assign: bool,
    /// The value of a `return`.
    pub return_value: bool,
    /// The test of an `if`.
    pub if_test: bool,
    /// The test of an `elif`.
    pub clause_test: bool,
    /// The test of a `while`.
    pub while_test: bool,
    /// The iterable of a `for`.
    pub for_iter: bool,
    /// The test of an `assert`.
    pub assert_test: bool,
    /// The message of an `assert`.
    pub assert_msg: bool,
    /// The `else` block of a `while`.
    pub while_orelse: bool,
    /// The `else` block of a `for`.
    pub for_orelse: bool,
    /// The `else` and `finally` blocks of a `try`.
    pub try_tail: bool,
    /// The body of a `with`.
    pub with_body: bool,
    /// The operands of a comparison.
    pub compare: bool,
    /// The callee of a call.
    pub call_func: bool,
    /// The value of a named expression.
    pub named: bool,
    /// The body of a lambda.
    pub lambda: bool,
    /// The operand of a starred expression.
    pub starred: bool,
    /// The elements of lists and tuples.
    pub sequences: bool,
    /// The value and the slice of a subscript.
    pub subscript: bool,
    /// The value of an attribute.
    pub attribute: bool,
    /// The keys, values and elements of dict and set displays.
    pub displays: bool,
}

/// The walk that enters blocks of statements only, and of those only the
/// ones that are always entered.
pub open spec fn blocks_only() -> Reach {
    Reach {
        expr_stmt: false,
        assign: false,
        aug_assign: false,
        ann_assign: false,
        return_value: false,
        if_test: false,
        clause_test: false,
        while_test: false,
        for_iter: false,
        assert_test: false,
        assert_msg: false,
        while_orelse: false,
        for_orelse: false,
        try_tail: false,
        with_body: false,
        compare: false,
        call_func: false,
        named: false,
        lambda: false,
        starred: false,
        sequences: false,
        subscript: false,
        attribute: false,
        displays: false,
    }
}

impl Reach {
    /// The walk of [`blocks_only`].
    pub fn blocks() -> (r: Reach)
        ensures
            r == blocks_only(),
    {
        Reach {
            expr_stmt: false,
            assign: false,
            aug_assign: false,
            ann_assign: false,
            return_value: false,
            if_test: false,
            clause_test: false,
            while_test: false,
            for_iter: false,
            assert_test: false,
            assert_msg: false,
            while_orelse: false,
            for_orelse: false,
            try_tail: false,
            with_body: false,
            compare: false,
            call_func: false,
            named: false,
            lambda: false,
            starred: false,
            sequences: false,
            subscript: false,
            attribute: false,
            displays: false,
        }
    }
}

/// A place of the syntax tree at which a rule is asked for mutations.
pub enum Node<'a> {
    Statement(&'a Statement),
    Clause(&'a Clause),
    Handler(&'a Handler),
    Expression(&'a Expression),
}

/// What an operator proposes at a single node.
pub trait Rule {
    /// Where the walk descends.
    spec fn reach(&self) -> Reach;

    /// The edits proposed at `node`, in order.
    spec fn edits_at(&self, node: Node<'_>, source: Seq<char>) -> Seq<Edit>;

    /// Every edit names the text that it replaces.
    proof fn edits_at_are_faithful(&self, node: Node<'_>, source: Seq<char>)
        ensures
            all_faithful(source, self.edits_at(node, source)),
    ;

    /// Where the walk descends.
    fn get_reach(&self) -> (r: Reach)
        ensures
            r == self.reach(),
    ;

    /// Appends the mutations proposed at `node`.
    fn propose(&self, node: Node<'_>, source: &str, out: &mut Vec<Mutation>)
        ensures
            edits(final(out)@) == edits(old(out)@) + self.edits_at(node, source@),
    ;
}

/// The edits that a rule proposes in a suite of statements.
pub open spec fn suite_edits<R: Rule>(rule: R, suite: Seq<Statement>, source: Seq<char>) -> Seq<
    Edit,
>
    decreases suite, 0nat,
{
    if suite.len() == 0 {
        Seq::empty()
    } else {
        suite_edits(rule, suite.drop_last(), source) + statement_edits(rule, suite.last(), source)
    }
}

/// The edits that a rule proposes at and in a statement.
pub open spec fn statement_edits<R: Rule>(rule: R, stmt: Statement, source: Seq<char>) -> Seq<Edit>
    decreases stmt, 1nat,
{
    rule.edits_at(Node::Statement(&stmt), source) + inner_edits(rule, stmt, source)
}

/// The edits that a rule proposes inside a statement.
pub open spec fn inner_edits<R: Rule>(rule: R, stmt: Statement, source: Seq<char>) -> Seq<Edit>
    decreases stmt, 0nat,
{
    let reach = rule.reach();
    match stmt.kind {
        StmtKind::FunctionDef(f) => suite_edits(rule, f.body@, source),
        StmtKind::ClassDef(c) => suite_edits(rule, c.body@, source),
        StmtKind::Return { value } => if_reached(
            reach.return_value,
            option_edits(rule, value, source),
        ),
        StmtKind::Assign { targets, value } => if_reached(
            reach.assign,
            expression_edits(rule, value, source),
        ),
        StmtKind::AugAssign { target, op, value } => if_reached(
            reach.aug_assign,
            expression_edits(rule, value, source),
        ),
        StmtKind::AnnAssign { target, annotation, value } => if_reached(
            reach.ann_assign,
            option_edits(rule, value, source),
        ),
        StmtKind::For { target, iter, body, orelse } => if_reached(
            reach.for_iter,
            expression_edits(rule, iter, source),
        ) + suite_edits(rule, body@, source) + if_reached(
            reach.for_orelse,
            suite_edits(rule, orelse@, source),
        ),
        StmtKind::While { test, body, orelse } => if_reached(
            reach.while_test,
            expression_edits(rule, test, source),
        ) + suite_edits(rule, body@, source) + if_reached(
            reach.while_orelse,
            suite_edits(rule, orelse@, source),
        ),
        StmtKind::If { test, body, clauses } => if_reached(
            reach.if_test,
            expression_edits(rule, test, source),
        ) + suite_edits(rule, body@, source) + clauses_edits(rule, clauses@, source),
        StmtKind::With { items, body } => if_reached(
            reach.with_body,
            suite_edits(rule, body@, source),
        ),
        StmtKind::Try { body, handlers, orelse, finalbody } => suite_edits(rule, body@, source)
            + handlers_edits(rule, handlers@, source) + if_reached(
            reach.try_tail,
            suite_edits(rule, orelse@, source) + suite_edits(rule, finalbody@, source),
        ),
        StmtKind::Assert { test, msg } => if_reached(
            reach.assert_test,
            expression_edits(rule, test, source),
        ) + if_reached(reach.assert_msg, option_edits(rule, msg, source)),
        StmtKind::Expr { value } => if_reached(
            reach.expr_stmt,
            expression_edits(rule, value, source),
        ),
        _ => Seq::empty(),
    }
}

/// `found` where the walk descends, nothing elsewhere.
pub open spec fn if_reached(reached: bool, found: Seq<Edit>) -> Seq<Edit> {
    if reached {
        found
    } else {
        Seq::empty()
    }
}

/// The edits that a rule proposes at and in the clauses of an `if`.
pub open spec fn clauses_edits<R: Rule>(rule: R, clauses: Seq<Clause>, source: Seq<char>) -> Seq<
    Edit,
>
    decreases clauses, 0nat,
{
    if clauses.len() == 0 {
        Seq::empty()
    } else {
        let clause = clauses.last();
        clauses_edits(rule, clauses.drop_last(), source) + rule.edits_at(
            Node::Clause(&clause),
            source,
        ) + if_reached(rule.reach().clause_test, option_edits(rule, clause.test, source))
            + suite_edits(rule, clause.body@, source)
    }
}

/// The edits that a rule proposes at and in the handlers of a `try`.
pub open spec fn handlers_edits<R: Rule>(
    rule: R,
    handlers: Seq<Handler>,
    source: Seq<char>,
) -> Seq<Edit>
    decreases handlers, 0nat,
{
    if handlers.len() == 0 {
        Seq::empty()
    } else {
        let handler = handlers.last();
        handlers_edits(rule, handlers.drop_last(), source) + rule.edits_at(
            Node::Handler(&handler),
            source,
        ) + suite_edits(rule, handler.body@, source)
    }
}

/// The edits that a rule proposes at and in an expression that may be absent.
pub open spec fn option_edits<R: Rule>(
    rule: R,
    expr: Option<Expression>,
    source: Seq<char>,
) -> Seq<Edit>
    decreases expr, 2nat,
{
    match expr {
        Some(e) => expression_edits(rule, e, source),
        None => Seq::empty(),
    }
}

/// The edits that a rule proposes in a list of expressions.
pub open spec fn list_edits<R: Rule>(rule: R, list: Seq<Expression>, source: Seq<char>) -> Seq<Edit>
    decreases list, 0nat,
{
    if list.len() == 0 {
        Seq::empty()
    } else {
        list_edits(rule, list.drop_last(), source) + expression_edits(rule, list.last(), source)
    }
}

/// The edits that a rule proposes in the entries of a dict display.
pub open spec fn items_edits<R: Rule>(rule: R, items: Seq<DictItem>, source: Seq<char>) -> Seq<Edit>
    decreases items, 0nat,
{
    if items.len() == 0 {
        Seq::empty()
    } else {
        let item = items.last();
        items_edits(rule, items.drop_last(), source) + option_edits(rule, item.key, source)
            + expression_edits(rule, item.value, source)
    }
}

/// The edits that a rule proposes at and in an expression.
pub open spec fn expression_edits<R: Rule>(
    rule: R,
    expr: Expression,
    source: Seq<char>,
) -> Seq<Edit>
    decreases expr, 1nat,
{
    rule.edits_at(Node::Expression(&expr), source) + operand_edits(rule, expr, source)
}

/// The edits that a rule proposes inside an expression.
pub open spec fn operand_edits<R: Rule>(rule: R, expr: Expression, source: Seq<char>) -> Seq<Edit>
    decreases expr, 0nat,
{
    let reach = rule.reach();
    match expr.kind {
        ExprKind::BoolOp { op, values } => list_edits(rule, values@, source),
        ExprKind::BinOp { left, op, right } => expression_edits(rule, *left, source)
            + expression_edits(rule, *right, source),
        ExprKind::UnaryOp { op, operand } => expression_edits(rule, *operand, source),
        ExprKind::If { test, body, orelse } => expression_edits(rule, *test, source)
            + expression_edits(rule, *body, source) + expression_edits(rule, *orelse, source),
        ExprKind::Call { func, args, keywords } => if_reached(
            reach.call_func,
            expression_edits(rule, *func, source),
        ) + list_edits(rule, args@, source),
        ExprKind::Compare { left, ops, comparators } => if_reached(
            reach.compare,
            expression_edits(rule, *left, source) + list_edits(rule, comparators@, source),
        ),
        ExprKind::Named { target, value } => if_reached(
            reach.named,
            expression_edits(rule, *value, source),
        ),
        ExprKind::Lambda { parameters, body } => if_reached(
            reach.lambda,
            expression_edits(rule, *body, source),
        ),
        ExprKind::Starred { value } => if_reached(
            reach.starred,
            expression_edits(rule, *value, source),
        ),
        ExprKind::List { elts } => if_reached(reach.sequences, list_edits(rule, elts@, source)),
        ExprKind::Tuple { elts } => if_reached(reach.sequences, list_edits(rule, elts@, source)),
        ExprKind::Subscript { value, slice } => if_reached(
            reach.subscript,
            expression_edits(rule, *value, source) + expression_edits(rule, *slice, source),
        ),
        ExprKind::Attribute { value, attr } => if_reached(
            reach.attribute,
            expression_edits(rule, *value, source),
        ),
        ExprKind::Dict { items } => if_reached(reach.displays, items_edits(rule, items@, source)),
        ExprKind::SetDisplay { elts } => if_reached(
            reach.displays,
            list_edits(rule, elts@, source),
        ),
        _ => Seq::empty(),
    }
}

/// Every edit found in a suite names the text that it replaces.
pub proof fn law_suite_edits_are_faithful<R: Rule>(
    rule: R,
    suite: Seq<Statement>,
    source: Seq<char>,
)
    ensures
        all_faithful(source, suite_edits(rule, suite, source)),
    decreases suite, 0nat,
{
    if suite.len() > 0 {
        law_suite_edits_are_faithful(rule, suite.drop_last(), source);
        lemma_statement_edits_are_faithful(rule, suite.last(), source);
    }
}

proof fn lemma_statement_edits_are_faithful<R: Rule>(
    rule: R,
    stmt: Statement,
    source: Seq<char>,
)
    ensures
        all_faithful(source, statement_edits(rule, stmt, source)),
    decreases stmt, 1nat,
{
    rule.edits_at_are_faithful(Node::Statement(&stmt), source);
    lemma_inner_edits_are_faithful(rule, stmt, source);
}

proof fn lemma_inner_edits_are_faithful<R: Rule>(rule: R, stmt: Statement, source: Seq<char>)
    ensures
        all_faithful(source, inner_edits(rule, stmt, source)),
    decreases stmt, 0nat,
{
    match stmt.kind {
        StmtKind::FunctionDef(f) => law_suite_edits_are_faithful(rule, f.body@, source),
        StmtKind::ClassDef(c) => law_suite_edits_are_faithful(rule, c.body@, source),
        StmtKind::Return { value } => lemma_option_edits_are_faithful(rule, value, source),
        StmtKind::Assign { targets, value } => lemma_expression_edits_are_faithful(
            rule,
            value,
            source,
        ),
        StmtKind::AugAssign { target, op, value } => lemma_expression_edits_are_faithful(
            rule,
            value,
            source,
        ),
        StmtKind::AnnAssign { target, annotation, value } => lemma_option_edits_are_faithful(
            rule,
            value,
            source,
        ),
        StmtKind::For { target, iter, body, orelse } => {
            lemma_expression_edits_are_faithful(rule, iter, source);
            law_suite_edits_are_faithful(rule, body@, source);
            law_suite_edits_are_faithful(rule, orelse@, source);
        },
        StmtKind::While { test, body, orelse } => {
            lemma_expression_edits_are_faithful(rule, test, source);
            law_suite_edits_are_faithful(rule, body@, source);
            law_suite_edits_are_faithful(rule, orelse@, source);
        },
        StmtKind::If { test, body, clauses } => {
            lemma_expression_edits_are_faithful(rule, test, source);
            law_suite_edits_are_faithful(rule, body@, source);
            lemma_clauses_edits_are_faithful(rule, clauses@, source);
        },
        StmtKind::With { items, body } => law_suite_edits_are_faithful(rule, body@, source),
        StmtKind::Try { body, handlers, orelse, finalbody } => {
            law_suite_edits_are_faithful(rule, body@, source);
            lemma_handlers_edits_are_faithful(rule, handlers@, source);
            law_suite_edits_are_faithful(rule, orelse@, source);
            law_suite_edits_are_faithful(rule, finalbody@, source);
        },
        StmtKind::Assert { test, msg } => {
            lemma_expression_edits_are_faithful(rule, test, source);
            lemma_option_edits_are_faithful(rule, msg, source);
        },
        StmtKind::Expr { value } => lemma_expression_edits_are_faithful(rule, value, source),
        _ => {},
    }
}

proof fn lemma_clauses_edits_are_faithful<R: Rule>(
    rule: R,
    clauses: Seq<Clause>,
    source: Seq<char>,
)
    ensures
        all_faithful(source, clauses_edits(rule, clauses, source)),
    decreases clauses, 0nat,
{
    if clauses.len() > 0 {
        let clause = clauses.last();
        lemma_clauses_edits_are_faithful(rule, clauses.drop_last(), source);
        rule.edits_at_are_faithful(Node::Clause(&clause), source);
        lemma_option_edits_are_faithful(rule, clause.test, source);
        law_suite_edits_are_faithful(rule, clause.body@, source);
    }
}

proof fn lemma_handlers_edits_are_faithful<R: Rule>(
    rule: R,
    handlers: Seq<Handler>,
    source: Seq<char>,
)
    ensures
        all_faithful(source, handlers_edits(rule, handlers, source)),
    decreases handlers, 0nat,
{
    if handlers.len() > 0 {
        let handler = handlers.last();
        lemma_handlers_edits_are_faithful(rule, handlers.drop_last(), source);
        rule.edits_at_are_faithful(Node::Handler(&handler), source);
        law_suite_edits_are_faithful(rule, handler.body@, source);
    }
}

proof fn lemma_option_edits_are_faithful<R: Rule>(
    rule: R,
    expr: Option<Expression>,
    source: Seq<char>,
)
    ensures
        all_faithful(source, option_edits(rule, expr, source)),
    decreases expr, 2nat,
{
    if let Some(e) = expr {
        lemma_expression_edits_are_faithful(rule, e, source);
    }
}

proof fn lemma_list_edits_are_faithful<R: Rule>(
    rule: R,
    list: Seq<Expression>,
    source: Seq<char>,
)
    ensures
        all_faithful(source, list_edits(rule, list, source)),
    decreases list, 0nat,
{
    if list.len() > 0 {
        lemma_list_edits_are_faithful(rule, list.drop_last(), source);
        lemma_expression_edits_are_faithful(rule, list.last(), source);
    }
}

proof fn lemma_items_edits_are_faithful<R: Rule>(
    rule: R,
    items: Seq<DictItem>,
    source: Seq<char>,
)
    ensures
        all_faithful(source, items_edits(rule, items, source)),
    decreases items, 0nat,
{
    if items.len() > 0 {
        let item = items.last();
        lemma_items_edits_are_faithful(rule, items.drop_last(), source);
        lemma_option_edits_are_faithful(rule, item.key, source);
        lemma_expression_edits_are_faithful(rule, item.value, source);
    }
}

proof fn lemma_expression_edits_are_faithful<R: Rule>(
    rule: R,
    expr: Expression,
    source: Seq<char>,
)
    ensures
        all_faithful(source, expression_edits(rule, expr, source)),
    decreases expr, 1nat,
{
    rule.edits_at_are_faithful(Node::Expression(&expr), source);
    lemma_operand_edits_are_faithful(rule, expr, source);
}

proof fn lemma_operand_edits_are_faithful<R: Rule>(
    rule: R,
    expr: Expression,
    source: Seq<char>,
)
    ensures
        all_faithful(source, operand_edits(rule, expr, source)),
    decreases expr, 0nat,
{
    match expr.kind {
        ExprKind::BoolOp { op, values } => lemma_list_edits_are_faithful(rule, values@, source),
        ExprKind::BinOp { left, op, right } => {
            lemma_expression_edits_are_faithful(rule, *left, source);
            lemma_expression_edits_are_faithful(rule, *right, source);
        },
        ExprKind::UnaryOp { op, operand } => lemma_expression_edits_are_faithful(
            rule,
            *operand,
            source,
        ),
        ExprKind::If { test, body, orelse } => {
            lemma_expression_edits_are_faithful(rule, *test, source);
            lemma_expression_edits_are_faithful(rule, *body, source);
            lemma_expression_edits_are_faithful(rule, *orelse, source);
        },
        ExprKind::Call { func, args, keywords } => {
            lemma_expression_edits_are_faithful(rule, *func, source);
            lemma_list_edits_are_faithful(rule, args@, source);
        },
        ExprKind::Compare { left, ops, comparators } => {
            lemma_expression_edits_are_faithful(rule, *left, source);
            lemma_list_edits_are_faithful(rule, comparators@, source);
        },
        ExprKind::Named { target, value } => lemma_expression_edits_are_faithful(
            rule,
            *value,
            source,
        ),
        ExprKind::Lambda { parameters, body } => lemma_expression_edits_are_faithful(
            rule,
            *body,
            source,
        ),
        ExprKind::Starred { value } => lemma_expression_edits_are_faithful(rule, *value, source),
        ExprKind::List { elts } => lemma_list_edits_are_faithful(rule, elts@, source),
        ExprKind::Tuple { elts } => lemma_list_edits_are_faithful(rule, elts@, source),
        ExprKind::Subscript { value, slice } => {
            lemma_expression_edits_are_faithful(rule, *value, source);
            lemma_expression_edits_are_faithful(rule, *slice, source);
        },
        ExprKind::Attribute { value, attr } => lemma_expression_edits_are_faithful(
            rule,
            *value,
            source,
        ),
        ExprKind::Dict { items } => lemma_items_edits_are_faithful(rule, items@, source),
        ExprKind::SetDisplay { elts } => lemma_list_edits_are_faithful(rule, elts@, source),
        _ => {},
    }
}

/// Appends the mutations that `rule` proposes in a suite of statements.
pub fn walk_suite<R: Rule>(rule: &R, suite: &Vec<Statement>, source: &str, out: &mut Vec<Mutation>)
    ensures
        edits(final(out)@) == edits(old(out)@) + suite_edits(*rule, suite@, source@),
    decreases suite@, 0nat,
{
    let mut i: usize = 0;
    assert(edits(out@) =~= edits(old(out)@) + suite_edits(*rule, suite@.take(0), source@));
    while i < suite.len()
        invariant
            i <= suite.len(),
            edits(out@) == edits(old(out)@) + suite_edits(*rule, suite@.take(i as int), source@),
        decreases suite.len() - i,
    {
        walk_statement(rule, &suite[i], source, out);
        proof {
            let next = suite@.take(i + 1);
            assert(next.drop_last() =~= suite@.take(i as int));
            assert(next.last() == suite@[i as int]);
            assert(edits(out@) =~= edits(old(out)@) + suite_edits(*rule, next, source@));
        }
        i = i + 1;
    }
    assert(suite@.take(i as int) =~= suite@);
}

/// Appends the mutations that `rule` proposes at and in a statement.
fn walk_statement<R: Rule>(rule: &R, stmt: &Statement, source: &str, out: &mut Vec<Mutation>)
    ensures
        edits(final(out)@) == edits(old(out)@) + statement_edits(*rule, *stmt, source@),
    decreases *stmt, 1nat,
{
    rule.propose(Node::Statement(stmt), source, out);
    walk_inside(rule, stmt, source, out);
    assert(edits(out@) =~= edits(old(out)@) + statement_edits(*rule, *stmt, source@));
}

/// Concatenation is associative.
proof fn lemma_join(before: Seq<Edit>, a: Seq<Edit>, b: Seq<Edit>, c: Seq<Edit>)
    ensures
        before + a + b + c == before + (a + b + c),
        before + a + b == before + (a + b),
        before + Seq::<Edit>::empty() == before,
{
    assert(before + a + b + c =~= before + (a + b + c));
    assert(before + a + b =~= before + (a + b));
    assert(before + Seq::<Edit>::empty() =~= before);
}

/// Two parts are reached together or not at all.
proof fn lemma_reached_pair(before: Seq<Edit>, reached: bool, a: Seq<Edit>, b: Seq<Edit>)
    ensures
        before + if_reached(reached, a) + if_reached(reached, b) == before + if_reached(
            reached,
            a + b,
        ),
{
    assert(before + if_reached(reached, a) + if_reached(reached, b) =~= before + if_reached(
        reached,
        a + b,
    ));
}

/// Appends the mutations that `rule` proposes in an expression, where the
/// walk descends into it.
fn walk_when<R: Rule>(
    rule: &R,
    reached: bool,
    expr: &Expression,
    source: &str,
    out: &mut Vec<Mutation>,
)
    ensures
        edits(final(out)@) == edits(old(out)@) + if_reached(
            reached,
            expression_edits(*rule, *expr, source@),
        ),
    decreases *expr, 2nat,
{
    if reached {
        walk_expression(rule, expr, source, out);
    } else {
        assert(edits(out@) =~= edits(old(out)@) + Seq::<Edit>::empty());
    }
}

/// Appends the mutations that `rule` proposes in an expression that may be
/// absent, where the walk descends into it.
fn walk_option_when<R: Rule>(
    rule: &R,
    reached: bool,
    expr: &Option<Expression>,
    source: &str,
    out: &mut Vec<Mutation>,
)
    ensures
        edits(final(out)@) == edits(old(out)@) + if_reached(
            reached,
            option_edits(*rule, *expr, source@),
        ),
    decreases *expr, 3nat,
{
    if reached {
        walk_option(rule, expr, source, out);
    } else {
        assert(edits(out@) =~= edits(old(out)@) + Seq::<Edit>::empty());
    }
}

/// Appends the mutations that `rule` proposes in a suite of statements, where
/// the walk descends into it.
fn walk_suite_when<R: Rule>(
    rule: &R,
    reached: bool,
    suite: &Vec<Statement>,
    source: &str,
    out: &mut Vec<Mutation>,
)
    ensures
        edits(final(out)@) == edits(old(out)@) + if_reached(
            reached,
            suite_edits(*rule, suite@, source@),
        ),
    decreases suite@, 1nat,
{
    if reached {
        walk_suite(rule, suite, source, out);
    } else {
        assert(edits(out@) =~= edits(old(out)@) + Seq::<Edit>::empty());
    }
}

/// Appends the mutations that `rule` proposes inside a statement.
fn walk_inside<R: Rule>(rule: &R, stmt: &Statement, source: &str, out: &mut Vec<Mutation>)
    ensures
        edits(final(out)@) == edits(old(out)@) + inner_edits(*rule, *stmt, source@),
    decreases *stmt, 0nat,
{
    let reach: Reach = rule.get_reach();
    let ghost before = edits(out@);
    match &stmt.kind {
        StmtKind::FunctionDef(f) => walk_suite(rule, &f.body, source, out),
        StmtKind::ClassDef(c) => walk_suite(rule, &c.body, source, out),
        StmtKind::Return { value } => {
            walk_option_when(rule, reach.return_value, value, source, out)
        },
        StmtKind::Assign { targets: _, value } => {
            walk_when(rule, reach.assign, value, source, out)
        },
        StmtKind::AugAssign { target: _, op: _, value } => {
            walk_when(rule, reach.aug_assign, value, source, out)
        },
        StmtKind::AnnAssign { target: _, annotation: _, value } => {
            walk_option_when(rule, reach.ann_assign, value, source, out)
        },
        StmtKind::For { target: _, iter, body, orelse } => {
            walk_when(rule, reach.for_iter, iter, source, out);
            walk_suite(rule, body, source, out);
            walk_suite_when(rule, reach.for_orelse, orelse, source, out);
            proof {
                lemma_join(
                    before,
                    if_reached(reach.for_iter, expression_edits(*rule, *iter, source@)),
                    suite_edits(*rule, body@, source@),
                    if_reached(reach.for_orelse, suite_edits(*rule, orelse@, source@)),
                );
            }
        },
        StmtKind::While { test, body, orelse } => {
            walk_when(rule, reach.while_test, test, source, out);
            walk_suite(rule, body, source, out);
            walk_suite_when(rule, reach.while_orelse, orelse, source, out);
            proof {
                lemma_join(
                    before,
                    if_reached(reach.while_test, expression_edits(*rule, *test, source@)),
                    suite_edits(*rule, body@, source@),
                    if_reached(reach.while_orelse, suite_edits(*rule, orelse@, source@)),
                );
            }
        },
        StmtKind::If { test, body, clauses } => {
            walk_when(rule, reach.if_test, test, source, out);
            walk_suite(rule, body, source, out);
            walk_clauses(rule, clauses, source, out);
            proof {
                lemma_join(
                    before,
                    if_reached(reach.if_test, expression_edits(*rule, *test, source@)),
                    suite_edits(*rule, body@, source@),
                    clauses_edits(*rule, clauses@, source@),
                );
            }
        },
        StmtKind::With { items: _, body } => {
            walk_suite_when(rule, reach.with_body, body, source, out)
        },
        StmtKind::Try { body, handlers, orelse, finalbody } => {
            walk_suite(rule, body, source, out);
            walk_handlers(rule, handlers, source, out);
            let ghost handled = edits(out@);
            walk_suite_when(rule, reach.try_tail, orelse, source, out);
            walk_suite_when(rule, reach.try_tail, finalbody, source, out);
            proof {
                let otherwise = suite_edits(*rule, orelse@, source@);
                let finally = suite_edits(*rule, finalbody@, source@);
                lemma_reached_pair(handled, reach.try_tail, otherwise, finally);
                lemma_join(
                    before,
                    suite_edits(*rule, body@, source@),
                    handlers_edits(*rule, handlers@, source@),
                    if_reached(reach.try_tail, otherwise + finally),
                );
            }
        },
        StmtKind::Assert { test, msg } => {
            walk_when(rule, reach.assert_test, test, source, out);
            walk_option_when(rule, reach.assert_msg, msg, source, out);
            proof {
                lemma_join(
                    before,
                    if_reached(reach.assert_test, expression_edits(*rule, *test, source@)),
                    if_reached(reach.assert_msg, option_edits(*rule, *msg, source@)),
                    Seq::empty(),
                );
            }
        },
        StmtKind::Expr { value } => walk_when(rule, reach.expr_stmt, value, source, out),
        _ => {
            proof {
                lemma_join(before, Seq::empty(), Seq::empty(), Seq::empty());
            }
        },
    }
}

/// Appends the mutations that `rule` proposes at and in the clauses of an `if`.
fn walk_clauses<R: Rule>(rule: &R, clauses: &Vec<Clause>, source: &str, out: &mut Vec<Mutation>)
    ensures
        edits(final(out)@) == edits(old(out)@) + clauses_edits(*rule, clauses@, source@),
    decreases clauses@, 0nat,
{
    let reach: Reach = rule.get_reach();
    let mut i: usize = 0;
    assert(edits(out@) =~= edits(old(out)@) + clauses_edits(*rule, clauses@.take(0), source@));
    while i < clauses.len()
        invariant
            i <= clauses.len(),
            reach == rule.reach(),
            edits(out@) == edits(old(out)@) + clauses_edits(*rule, clauses@.take(i as int), source@),
        decreases clauses.len() - i,
    {
        let clause: &Clause = &clauses[i];
        rule.propose(Node::Clause(clause), source, out);
        if reach.clause_test {
            walk_option(rule, &clause.test, source, out);
        }
        walk_suite(rule, &clause.body, source, out);
        proof {
            let next = clauses@.take(i + 1);
            assert(next.drop_last() =~= clauses@.take(i as int));
            assert(next.last() == clauses@[i as int]);
            assert(edits(out@) =~= edits(old(out)@) + clauses_edits(*rule, next, source@));
        }
        i = i + 1;
    }
    assert(clauses@.take(i as int) =~= clauses@);
}

/// Appends the mutations that `rule` proposes at and in the handlers of a `try`.
fn walk_handlers<R: Rule>(rule: &R, handlers: &Vec<Handler>, source: &str, out: &mut Vec<Mutation>)
    ensures
        edits(final(out)@) == edits(old(out)@) + handlers_edits(*rule, handlers@, source@),
    decreases handlers@, 0nat,
{
    let mut i: usize = 0;
    assert(edits(out@) =~= edits(old(out)@) + handlers_edits(*rule, handlers@.take(0), source@));
    while i < handlers.len()
        invariant
            i <= handlers.len(),
            edits(out@) == edits(old(out)@) + handlers_edits(
                *rule,
                handlers@.take(i as int),
                source@,
            ),
        decreases handlers.len() - i,
    {
        let handler: &Handler = &handlers[i];
        rule.propose(Node::Handler(handler), source, out);
        walk_suite(rule, &handler.body, source, out);
        proof {
            let next = handlers@.take(i + 1);
            assert(next.drop_last() =~= handlers@.take(i as int));
            assert(next.last() == handlers@[i as int]);
            assert(edits(out@) =~= edits(old(out)@) + handlers_edits(*rule, next, source@));
        }
        i = i + 1;
    }
    assert(handlers@.take(i as int) =~= handlers@);
}

/// Appends the mutations that `rule` proposes in an expression that may be absent.
fn walk_option<R: Rule>(
    rule: &R,
    expr: &Option<Expression>,
    source: &str,
    out: &mut Vec<Mutation>,
)
    ensures
        edits(final(out)@) == edits(old(out)@) + option_edits(*rule, *expr, source@),
    decreases *expr, 2nat,
{
    if let Some(e) = expr {
        walk_expression(rule, e, source, out);
    }
    assert(edits(out@) =~= edits(old(out)@) + option_edits(*rule, *expr, source@));
}

/// Appends the mutations that `rule` proposes in a list of expressions.
fn walk_list<R: Rule>(rule: &R, list: &Vec<Expression>, source: &str, out: &mut Vec<Mutation>)
    ensures
        edits(final(out)@) == edits(old(out)@) + list_edits(*rule, list@, source@),
    decreases list@, 0nat,
{
    let mut i: usize = 0;
    assert(edits(out@) =~= edits(old(out)@) + list_edits(*rule, list@.take(0), source@));
    while i < list.len()
        invariant
            i <= list.len(),
            edits(out@) == edits(old(out)@) + list_edits(*rule, list@.take(i as int), source@),
        decreases list.len() - i,
    {
        walk_expression(rule, &list[i], source, out);
        proof {
            let next = list@.take(i + 1);
            assert(next.drop_last() =~= list@.take(i as int));
            assert(next.last() == list@[i as int]);
            assert(edits(out@) =~= edits(old(out)@) + list_edits(*rule, next, source@));
        }
        i = i + 1;
    }
    assert(list@.take(i as int) =~= list@);
}

/// Appends the mutations that `rule` proposes in the entries of a dict display.
fn walk_items<R: Rule>(rule: &R, items: &Vec<DictItem>, source: &str, out: &mut Vec<Mutation>)
    ensures
        edits(final(out)@) == edits(old(out)@) + items_edits(*rule, items@, source@),
    decreases items@, 0nat,
{
    let mut i: usize = 0;
    assert(edits(out@) =~= edits(old(out)@) + items_edits(*rule, items@.take(0), source@));
    while i < items.len()
        invariant
            i <= items.len(),
            edits(out@) == edits(old(out)@) + items_edits(*rule, items@.take(i as int), source@),
        decreases items.len() - i,
    {
        walk_option(rule, &items[i].key, source, out);
        walk_expression(rule, &items[i].value, source, out);
        proof {
            let next = items@.take(i + 1);
            assert(next.drop_last() =~= items@.take(i as int));
            assert(next.last() == items@[i as int]);
            assert(edits(out@) =~= edits(old(out)@) + items_edits(*rule, next, source@));
        }
        i = i + 1;
    }
    assert(items@.take(i as int) =~= items@);
}

/// Appends the mutations that `rule` proposes at and in an expression.
fn walk_expression<R: Rule>(rule: &R, expr: &Expression, source: &str, out: &mut Vec<Mutation>)
    ensures
        edits(final(out)@) == edits(old(out)@) + expression_edits(*rule, *expr, source@),
    decreases *expr, 1nat,
{
    rule.propose(Node::Expression(expr), source, out);
    walk_operands(rule, expr, source, out);
    assert(edits(out@) =~= edits(old(out)@) + expression_edits(*rule, *expr, source@));
}

/// Appends the mutations that `rule` proposes inside an expression.
fn walk_operands<R: Rule>(rule: &R, expr: &Expression, source: &str, out: &mut Vec<Mutation>)
    ensures
        edits(final(out)@) == edits(old(out)@) + operand_edits(*rule, *expr, source@),
    decreases *expr, 0nat,
{
    let reach: Reach = rule.get_reach();
    match &expr.kind {
        ExprKind::BoolOp { op: _, values } => walk_list(rule, values, source, out),
        ExprKind::BinOp { left, op: _, right } => {
            walk_expression(rule, left, source, out);
            walk_expression(rule, right, source, out);
        },
        ExprKind::UnaryOp { op: _, operand } => walk_expression(rule, operand, source, out),
        ExprKind::If { test, body, orelse } => {
            walk_expression(rule, test, source, out);
            walk_expression(rule, body, source, out);
            walk_expression(rule, orelse, source, out);
        },
        ExprKind::Call { func, args, keywords: _ } => {
            if reach.call_func {
                walk_expression(rule, func, source, out);
            }
            walk_list(rule, args, source, out);
        },
        ExprKind::Compare { left, ops: _, comparators } => {
            if reach.compare {
                walk_expression(rule, left, source, out);
                walk_list(rule, comparators, source, out);
            }
        },
        ExprKind::Named { target: _, value } => {
            if reach.named {
                walk_expression(rule, value, source, out);
            }
        },
        ExprKind::Lambda { parameters: _, body } => {
            if reach.lambda {
                walk_expression(rule, body, source, out);
            }
        },
        ExprKind::Starred { value } => {
            if reach.starred {
                walk_expression(rule, value, source, out);
            }
        },
        ExprKind::List { elts } => {
            if reach.sequences {
                walk_list(rule, elts, source, out);
            }
        },
        ExprKind::Tuple { elts } => {
            if reach.sequences {
                walk_list(rule, elts, source, out);
            }
        },
        ExprKind::Subscript { value, slice } => {
            if reach.subscript {
                walk_expression(rule, value, source, out);
                walk_expression(rule, slice, source, out);
            }
        },
        ExprKind::Attribute { value, attr: _ } => {
            if reach.attribute {
                walk_expression(rule, value, source, out);
            }
        },
        ExprKind::Dict { items } => {
            if reach.displays {
                walk_items(rule, items, source, out);
            }
        },
        ExprKind::SetDisplay { elts } => {
            if reach.displays {
                walk_list(rule, elts, source, out);
            }
        },
        _ => {},
    }
    assert(edits(out@) =~= edits(old(out)@) + operand_edits(*rule, *expr, source@));
}

} // verus!
