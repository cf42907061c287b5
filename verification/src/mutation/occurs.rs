//! Where a node occurs in a syntax tree, and that a walk visits it there.
//!
//! A node occurs in a suite when a chain of nodes leads to it from a statement
//! of the suite, each of them directly in the one before it. The laws say that
//! a walk proposes at these nodes, in order, and nowhere else.
use crate::ast::{Clause, DictItem, ExprKind, Expression, Handler, Statement, StmtKind};
use crate::mutation::mutator::Edit;
use crate::mutation::walk::{
    clauses_edits, expression_edits, handlers_edits, if_reached, inner_edits, items_edits, list_edits,
    operand_edits, option_edits, statement_edits, suite_edits, Node, Reach, Rule,
};
use vstd::prelude::*;

verus! {

/// A node of the syntax tree.
pub enum Place {
    Statement(Statement),
    Clause(Clause),
    Handler(Handler),
    Expression(Expression),
}

/// The walk that enters everything that a walk can enter.
pub open spec fn everywhere() -> Reach {
    Reach {
        expr_stmt: true,
        assign: true,
        aug_assign: true,
        ann_assign: true,
        return_value: true,
        if_test: true,
        clause_test: true,
        while_test: true,
        for_iter: true,
        assert_test: true,
        assert_msg: true,
        while_orelse: true,
        for_orelse: true,
        try_tail: true,
        with_body: true,
        compare: true,
        call_func: true,
        named: true,
        lambda: true,
        starred: true,
        sequences: true,
        subscript: true,
        attribute: true,
        displays: true,
    }
}

/// The walk that enters all blocks of statements, and no expression.
pub open spec fn all_blocks() -> Reach {
    Reach {
        expr_stmt: false,
        assign: false,
        aug_assign: false,
        ann_assign: false,
        return_value: false,
        if_test: false,
        clause_test: false,
        while_test: false,
        for_iter: false,
        assert_test: false,
        assert_msg: false,
        while_orelse: true,
        for_orelse: true,
        try_tail: true,
        with_body: true,
        compare: false,
        call_func: false,
        named: false,
        lambda: false,
        starred: false,
        sequences: false,
        subscript: false,
        attribute: false,
        displays: false,
    }
}

/// The walk that enters all blocks of statements but the `else` of a `while`,
/// and no expression.
pub open spec fn blocks_but_while_else() -> Reach {
    Reach { while_orelse: false, ..all_blocks() }
}

/// The walk that enters all blocks of statements but the `else` of a `while`
/// and the `else` and `finally` of a `try`, and no expression.
pub open spec fn blocks_but_tails() -> Reach {
    Reach { while_orelse: false, try_tail: false, ..all_blocks() }
}

/// The walk that enters everything but dict and set displays.
pub open spec fn all_but_displays() -> Reach {
    Reach { displays: false, ..everywhere() }
}

/// Nodes that are there under a condition.
pub open spec fn given(there: bool, places: Seq<Place>) -> Seq<Place> {
    if there {
        places
    } else {
        Seq::empty()
    }
}

/// The statements of a suite as nodes.
pub open spec fn statements(suite: Seq<Statement>) -> Seq<Place> {
    suite.map_values(|s: Statement| Place::Statement(s))
}

/// Expressions as nodes.
pub open spec fn expressions(list: Seq<Expression>) -> Seq<Place> {
    list.map_values(|e: Expression| Place::Expression(e))
}

/// The clauses of an `if` as nodes.
pub open spec fn clauses_of(list: Seq<Clause>) -> Seq<Place> {
    list.map_values(|c: Clause| Place::Clause(c))
}

/// The handlers of a `try` as nodes.
pub open spec fn handlers_of(list: Seq<Handler>) -> Seq<Place> {
    list.map_values(|h: Handler| Place::Handler(h))
}

/// An expression that may be absent as nodes.
pub open spec fn present(e: Option<Expression>) -> Seq<Place> {
    match e {
        Some(e) => seq![Place::Expression(e)],
        None => Seq::empty(),
    }
}

/// The keys and values of a dict display as nodes.
pub open spec fn keys_and_values(items: Seq<DictItem>) -> Seq<Place>
    decreases items.len(),
{
    if items.len() == 0 {
        Seq::empty()
    } else {
        keys_and_values(items.drop_last()) + present(items.last().key) + seq![
            Place::Expression(items.last().value),
        ]
    }
}

/// The nodes directly in a statement.
pub open spec fn statement_parts(s: Statement, reach: Reach) -> Seq<Place> {
    match s.kind {
        StmtKind::FunctionDef(f) => statements(f.body@),
        StmtKind::ClassDef(c) => statements(c.body@),
        StmtKind::Return { value } => given(reach.return_value, present(value)),
        StmtKind::Assign { targets, value } => given(
            reach.assign,
            seq![Place::Expression(value)],
        ),
        StmtKind::AugAssign { target, op, value } => given(
            reach.aug_assign,
            seq![Place::Expression(value)],
        ),
        StmtKind::AnnAssign { target, annotation, value } => given(
            reach.ann_assign,
            present(value),
        ),
        StmtKind::For { target, iter, body, orelse } => given(
            reach.for_iter,
            seq![Place::Expression(iter)],
        ) + statements(body@) + given(reach.for_orelse, statements(orelse@)),
        StmtKind::While { test, body, orelse } => given(
            reach.while_test,
            seq![Place::Expression(test)],
        ) + statements(body@) + given(reach.while_orelse, statements(orelse@)),
        StmtKind::If { test, body, clauses } => given(
            reach.if_test,
            seq![Place::Expression(test)],
        ) + statements(body@) + clauses_of(clauses@),
        StmtKind::With { items, body } => given(reach.with_body, statements(body@)),
        StmtKind::Try { body, handlers, orelse, finalbody } => statements(body@) + handlers_of(
            handlers@,
        ) + given(reach.try_tail, statements(orelse@) + statements(finalbody@)),
        StmtKind::Assert { test, msg } => given(
            reach.assert_test,
            seq![Place::Expression(test)],
        ) + given(reach.assert_msg, present(msg)),
        StmtKind::Expr { value } => given(reach.expr_stmt, seq![Place::Expression(value)]),
        _ => Seq::empty(),
    }
}

/// The nodes directly in an expression.
pub open spec fn expression_parts(e: Expression, reach: Reach) -> Seq<Place> {
    match e.kind {
        ExprKind::BoolOp { op, values } => expressions(values@),
        ExprKind::BinOp { left, op, right } => seq![
            Place::Expression(*left),
            Place::Expression(*right),
        ],
        ExprKind::UnaryOp { op, operand } => seq![Place::Expression(*operand)],
        ExprKind::If { test, body, orelse } => seq![
            Place::Expression(*test),
            Place::Expression(*body),
            Place::Expression(*orelse),
        ],
        ExprKind::Call { func, args, keywords } => given(
            reach.call_func,
            seq![Place::Expression(*func)],
        ) + expressions(args@),
        ExprKind::Compare { left, ops, comparators } => given(
            reach.compare,
            seq![Place::Expression(*left)] + expressions(comparators@),
        ),
        ExprKind::Named { target, value } => given(reach.named, seq![Place::Expression(*value)]),
        ExprKind::Lambda { parameters, body } => given(
            reach.lambda,
            seq![Place::Expression(*body)],
        ),
        ExprKind::Starred { value } => given(reach.starred, seq![Place::Expression(*value)]),
        ExprKind::List { elts } => given(reach.sequences, expressions(elts@)),
        ExprKind::Tuple { elts } => given(reach.sequences, expressions(elts@)),
        ExprKind::Subscript { value, slice } => given(
            reach.subscript,
            seq![Place::Expression(*value), Place::Expression(*slice)],
        ),
        ExprKind::Attribute { value, attr } => given(
            reach.attribute,
            seq![Place::Expression(*value)],
        ),
        ExprKind::Dict { items } => given(reach.displays, keys_and_values(items@)),
        ExprKind::SetDisplay { elts } => given(reach.displays, expressions(elts@)),
        _ => Seq::empty(),
    }
}

/// The nodes directly in a node, as far as a walk enters them, in order.
pub open spec fn parts(p: Place, reach: Reach) -> Seq<Place> {
    match p {
        Place::Statement(s) => statement_parts(s, reach),
        Place::Clause(c) => given(reach.clause_test, present(c.test)) + statements(c.body@),
        Place::Handler(h) => statements(h.body@),
        Place::Expression(e) => expression_parts(e, reach),
    }
}

/// Whether each node of a chain is directly in the one before it.
pub open spec fn leads(chain: Seq<Place>, reach: Reach) -> bool {
    forall|k: int|
        1 <= k < chain.len() ==> parts(chain[k - 1], reach).contains(#[trigger] chain[k])
}

/// Whether a chain leads from a statement of a suite to a node.
pub open spec fn leads_to(
    chain: Seq<Place>,
    p: Place,
    suite: Seq<Statement>,
    reach: Reach,
) -> bool {
    &&& chain.len() > 0
    &&& statements(suite).contains(chain[0])
    &&& leads(chain, reach)
    &&& chain.last() == p
}

/// Whether a node occurs in a suite, at any depth.
#[verifier::opaque]
pub open spec fn occurs(p: Place, suite: Seq<Statement>, reach: Reach) -> bool {
    exists|chain: Seq<Place>| #[trigger] leads_to(chain, p, suite, reach)
}

/// What a rule proposes at a node.
pub open spec fn own_edits<R: Rule>(rule: R, p: Place, source: Seq<char>) -> Seq<Edit> {
    match p {
        Place::Statement(s) => rule.edits_at(Node::Statement(&s), source),
        Place::Clause(c) => rule.edits_at(Node::Clause(&c), source),
        Place::Handler(h) => rule.edits_at(Node::Handler(&h), source),
        Place::Expression(e) => rule.edits_at(Node::Expression(&e), source),
    }
}

/// What a walk finds at and in a node.
pub open spec fn place_edits<R: Rule>(rule: R, p: Place, source: Seq<char>) -> Seq<Edit> {
    match p {
        Place::Statement(s) => statement_edits(rule, s, source),
        Place::Clause(c) => clauses_edits(rule, seq![c], source),
        Place::Handler(h) => handlers_edits(rule, seq![h], source),
        Place::Expression(e) => expression_edits(rule, e, source),
    }
}

/// What a walk finds at and in nodes, one after the other.
pub open spec fn all_edits<R: Rule>(rule: R, places: Seq<Place>, source: Seq<char>) -> Seq<Edit>
    decreases places.len(),
{
    if places.len() == 0 {
        Seq::empty()
    } else {
        all_edits(rule, places.drop_last(), source) + place_edits(rule, places.last(), source)
    }
}

proof fn lemma_all_concat<R: Rule>(rule: R, a: Seq<Place>, b: Seq<Place>, source: Seq<char>)
    ensures
        all_edits(rule, a + b, source) == all_edits(rule, a, source) + all_edits(rule, b, source),
    decreases b.len(),
{
    if b.len() == 0 {
        assert(a + b =~= a);
        assert(all_edits(rule, a + b, source) =~= all_edits(rule, a, source) + all_edits(
            rule,
            b,
            source,
        ));
    } else {
        assert((a + b).drop_last() =~= a + b.drop_last());
        assert((a + b).last() == b.last());
        lemma_all_concat(rule, a, b.drop_last(), source);
        assert(all_edits(rule, a + b, source) =~= all_edits(rule, a, source) + all_edits(
            rule,
            b,
            source,
        ));
    }
}

proof fn lemma_all_one<R: Rule>(rule: R, p: Place, source: Seq<char>)
    ensures
        all_edits(rule, seq![p], source) == place_edits(rule, p, source),
{
    assert(seq![p].drop_last() =~= Seq::<Place>::empty());
    assert(seq![p].last() == p);
    assert(all_edits(rule, seq![p].drop_last(), source) =~= Seq::<Edit>::empty());
    assert(all_edits(rule, seq![p], source) =~= place_edits(rule, p, source));
}

proof fn lemma_all_expression<R: Rule>(rule: R, e: Expression, source: Seq<char>)
    ensures
        all_edits(rule, seq![Place::Expression(e)], source) == expression_edits(rule, e, source),
{
    lemma_all_one(rule, Place::Expression(e), source);
}

proof fn lemma_all_present<R: Rule>(rule: R, e: Option<Expression>, source: Seq<char>)
    ensures
        all_edits(rule, present(e), source) == option_edits(rule, e, source),
{
    if let Some(e) = e {
        lemma_all_expression(rule, e, source);
    }
}

proof fn lemma_all_statements<R: Rule>(rule: R, suite: Seq<Statement>, source: Seq<char>)
    ensures
        all_edits(rule, statements(suite), source) == suite_edits(rule, suite, source),
    decreases suite.len(),
{
    if suite.len() > 0 {
        assert(statements(suite).drop_last() =~= statements(suite.drop_last()));
        lemma_all_statements(rule, suite.drop_last(), source);
    }
}

proof fn lemma_all_expressions<R: Rule>(rule: R, list: Seq<Expression>, source: Seq<char>)
    ensures
        all_edits(rule, expressions(list), source) == list_edits(rule, list, source),
    decreases list.len(),
{
    if list.len() > 0 {
        assert(expressions(list).drop_last() =~= expressions(list.drop_last()));
        lemma_all_expressions(rule, list.drop_last(), source);
    }
}

/// What a walk finds in a clause is found at it, then in its test, then in its
/// body.
proof fn lemma_one_clause<R: Rule>(rule: R, c: Clause, source: Seq<char>)
    ensures
        clauses_edits(rule, seq![c], source) == rule.edits_at(Node::Clause(&c), source)
            + if_reached(rule.reach().clause_test, option_edits(rule, c.test, source))
            + suite_edits(rule, c.body@, source),
{
    assert(seq![c].drop_last() =~= Seq::<Clause>::empty());
    assert(seq![c].last() == c);
    assert(clauses_edits(rule, seq![c].drop_last(), source) =~= Seq::<Edit>::empty());
    assert(clauses_edits(rule, seq![c], source) =~= rule.edits_at(Node::Clause(&c), source)
        + if_reached(rule.reach().clause_test, option_edits(rule, c.test, source)) + suite_edits(
        rule,
        c.body@,
        source,
    ));
}

proof fn lemma_one_handler<R: Rule>(rule: R, h: Handler, source: Seq<char>)
    ensures
        handlers_edits(rule, seq![h], source) == rule.edits_at(Node::Handler(&h), source)
            + suite_edits(rule, h.body@, source),
{
    assert(seq![h].drop_last() =~= Seq::<Handler>::empty());
    assert(seq![h].last() == h);
    assert(handlers_edits(rule, seq![h].drop_last(), source) =~= Seq::<Edit>::empty());
    assert(handlers_edits(rule, seq![h], source) =~= rule.edits_at(Node::Handler(&h), source)
        + suite_edits(rule, h.body@, source));
}

proof fn lemma_all_clauses<R: Rule>(rule: R, list: Seq<Clause>, source: Seq<char>)
    ensures
        all_edits(rule, clauses_of(list), source) == clauses_edits(rule, list, source),
    decreases list.len(),
{
    if list.len() > 0 {
        assert(clauses_of(list).drop_last() =~= clauses_of(list.drop_last()));
        lemma_all_clauses(rule, list.drop_last(), source);
        lemma_one_clause(rule, list.last(), source);
        assert(all_edits(rule, clauses_of(list), source) =~= clauses_edits(rule, list, source));
    }
}

proof fn lemma_all_handlers<R: Rule>(rule: R, list: Seq<Handler>, source: Seq<char>)
    ensures
        all_edits(rule, handlers_of(list), source) == handlers_edits(rule, list, source),
    decreases list.len(),
{
    if list.len() > 0 {
        assert(handlers_of(list).drop_last() =~= handlers_of(list.drop_last()));
        lemma_all_handlers(rule, list.drop_last(), source);
        lemma_one_handler(rule, list.last(), source);
        assert(all_edits(rule, handlers_of(list), source) =~= handlers_edits(rule, list, source));
    }
}

proof fn lemma_all_items<R: Rule>(rule: R, items: Seq<DictItem>, source: Seq<char>)
    ensures
        all_edits(rule, keys_and_values(items), source) == items_edits(rule, items, source),
    decreases items.len(),
{
    if items.len() > 0 {
        let init = keys_and_values(items.drop_last());
        let key = present(items.last().key);
        lemma_all_items(rule, items.drop_last(), source);
        lemma_all_concat(rule, init + key, seq![Place::Expression(items.last().value)], source);
        lemma_all_concat(rule, init, key, source);
        lemma_all_present(rule, items.last().key, source);
        lemma_all_expression(rule, items.last().value, source);
    }
}

proof fn lemma_all_three<R: Rule>(
    rule: R,
    a: Seq<Place>,
    b: Seq<Place>,
    c: Seq<Place>,
    source: Seq<char>,
)
    ensures
        all_edits(rule, a + b + c, source) == all_edits(rule, a, source) + all_edits(
            rule,
            b,
            source,
        ) + all_edits(rule, c, source),
{
    lemma_all_concat(rule, a + b, c, source);
    lemma_all_concat(rule, a, b, source);
}

proof fn lemma_inside_statement<R: Rule>(rule: R, s: Statement, source: Seq<char>)
    ensures
        inner_edits(rule, s, source) == all_edits(
            rule,
            statement_parts(s, rule.reach()),
            source,
        ),
{
    let reach = rule.reach();
    match s.kind {
        StmtKind::FunctionDef(f) => lemma_all_statements(rule, f.body@, source),
        StmtKind::ClassDef(c) => lemma_all_statements(rule, c.body@, source),
        StmtKind::Return { value } => {
            lemma_all_present(rule, value, source);
        },
        StmtKind::Assign { targets, value } => {
            lemma_all_expression(rule, value, source);
        },
        StmtKind::AugAssign { target, op, value } => {
            lemma_all_expression(rule, value, source);
        },
        StmtKind::AnnAssign { target, annotation, value } => {
            lemma_all_present(rule, value, source);
        },
        StmtKind::For { target, iter, body, orelse } => {
            lemma_all_three(
                rule,
                given(reach.for_iter, seq![Place::Expression(iter)]),
                statements(body@),
                given(reach.for_orelse, statements(orelse@)),
                source,
            );
            lemma_all_expression(rule, iter, source);
            lemma_all_statements(rule, body@, source);
            lemma_all_statements(rule, orelse@, source);
        },
        StmtKind::While { test, body, orelse } => {
            lemma_all_three(
                rule,
                given(reach.while_test, seq![Place::Expression(test)]),
                statements(body@),
                given(reach.while_orelse, statements(orelse@)),
                source,
            );
            lemma_all_expression(rule, test, source);
            lemma_all_statements(rule, body@, source);
            lemma_all_statements(rule, orelse@, source);
        },
        StmtKind::If { test, body, clauses } => {
            lemma_all_three(
                rule,
                given(reach.if_test, seq![Place::Expression(test)]),
                statements(body@),
                clauses_of(clauses@),
                source,
            );
            lemma_all_expression(rule, test, source);
            lemma_all_statements(rule, body@, source);
            lemma_all_clauses(rule, clauses@, source);
        },
        StmtKind::With { items, body } => {
            lemma_all_statements(rule, body@, source);
        },
        StmtKind::Try { body, handlers, orelse, finalbody } => {
            let tail = statements(orelse@) + statements(finalbody@);
            lemma_all_three(
                rule,
                statements(body@),
                handlers_of(handlers@),
                given(reach.try_tail, tail),
                source,
            );
            lemma_all_concat(rule, statements(orelse@), statements(finalbody@), source);
            lemma_all_statements(rule, body@, source);
            lemma_all_handlers(rule, handlers@, source);
            lemma_all_statements(rule, orelse@, source);
            lemma_all_statements(rule, finalbody@, source);
        },
        StmtKind::Assert { test, msg } => {
            lemma_all_concat(
                rule,
                given(reach.assert_test, seq![Place::Expression(test)]),
                given(reach.assert_msg, present(msg)),
                source,
            );
            lemma_all_expression(rule, test, source);
            lemma_all_present(rule, msg, source);
        },
        StmtKind::Expr { value } => {
            lemma_all_expression(rule, value, source);
        },
        _ => {},
    }
}

proof fn lemma_inside_expression<R: Rule>(rule: R, e: Expression, source: Seq<char>)
    ensures
        operand_edits(rule, e, source) == all_edits(
            rule,
            expression_parts(e, rule.reach()),
            source,
        ),
{
    let reach = rule.reach();
    match e.kind {
        ExprKind::BoolOp { op, values } => lemma_all_expressions(rule, values@, source),
        ExprKind::BinOp { left, op, right } => {
            lemma_all_pair(rule, *left, *right, source);
        },
        ExprKind::UnaryOp { op, operand } => lemma_all_expression(rule, *operand, source),
        ExprKind::If { test, body, orelse } => {
            let all = seq![
                Place::Expression(*test),
                Place::Expression(*body),
                Place::Expression(*orelse),
            ];
            assert(all =~= seq![Place::Expression(*test)] + seq![Place::Expression(*body)] + seq![
                Place::Expression(*orelse),
            ]);
            lemma_all_three(
                rule,
                seq![Place::Expression(*test)],
                seq![Place::Expression(*body)],
                seq![Place::Expression(*orelse)],
                source,
            );
            lemma_all_expression(rule, *test, source);
            lemma_all_expression(rule, *body, source);
            lemma_all_expression(rule, *orelse, source);
        },
        ExprKind::Call { func, args, keywords } => {
            lemma_all_concat(
                rule,
                given(reach.call_func, seq![Place::Expression(*func)]),
                expressions(args@),
                source,
            );
            lemma_all_expression(rule, *func, source);
            lemma_all_expressions(rule, args@, source);
        },
        ExprKind::Compare { left, ops, comparators } => {
            lemma_all_concat(
                rule,
                seq![Place::Expression(*left)],
                expressions(comparators@),
                source,
            );
            lemma_all_expression(rule, *left, source);
            lemma_all_expressions(rule, comparators@, source);
        },
        ExprKind::Named { target, value } => lemma_all_expression(rule, *value, source),
        ExprKind::Lambda { parameters, body } => lemma_all_expression(rule, *body, source),
        ExprKind::Starred { value } => lemma_all_expression(rule, *value, source),
        ExprKind::List { elts } => lemma_all_expressions(rule, elts@, source),
        ExprKind::Tuple { elts } => lemma_all_expressions(rule, elts@, source),
        ExprKind::Subscript { value, slice } => lemma_all_pair(rule, *value, *slice, source),
        ExprKind::Attribute { value, attr } => lemma_all_expression(rule, *value, source),
        ExprKind::Dict { items } => lemma_all_items(rule, items@, source),
        ExprKind::SetDisplay { elts } => lemma_all_expressions(rule, elts@, source),
        _ => {},
    }
}

proof fn lemma_all_pair<R: Rule>(rule: R, a: Expression, b: Expression, source: Seq<char>)
    ensures
        all_edits(rule, seq![Place::Expression(a), Place::Expression(b)], source)
            == expression_edits(rule, a, source) + expression_edits(rule, b, source),
{
    assert(seq![Place::Expression(a), Place::Expression(b)] =~= seq![Place::Expression(a)] + seq![
        Place::Expression(b),
    ]);
    lemma_all_concat(rule, seq![Place::Expression(a)], seq![Place::Expression(b)], source);
    lemma_all_expression(rule, a, source);
    lemma_all_expression(rule, b, source);
}

/// What a walk finds at and in a node is what the rule proposes at it, and
/// then what the walk finds in each of the nodes directly in it, in turn and
/// once.
pub proof fn law_walk_is_a_preorder<R: Rule>(rule: R, p: Place, source: Seq<char>)
    ensures
        place_edits(rule, p, source) == own_edits(rule, p, source) + all_edits(
            rule,
            parts(p, rule.reach()),
            source,
        ),
{
    match p {
        Place::Statement(s) => lemma_inside_statement(rule, s, source),
        Place::Clause(c) => {
            lemma_one_clause(rule, c, source);
            lemma_all_concat(
                rule,
                given(rule.reach().clause_test, present(c.test)),
                statements(c.body@),
                source,
            );
            lemma_all_present(rule, c.test, source);
            lemma_all_statements(rule, c.body@, source);
            assert(place_edits(rule, p, source) =~= own_edits(rule, p, source) + all_edits(
                rule,
                parts(p, rule.reach()),
                source,
            ));
        },
        Place::Handler(h) => {
            lemma_one_handler(rule, h, source);
            lemma_all_statements(rule, h.body@, source);
        },
        Place::Expression(e) => lemma_inside_expression(rule, e, source),
    }
}

/// What is found in one of several nodes is found in all of them.
proof fn lemma_all_contains<R: Rule>(
    rule: R,
    places: Seq<Place>,
    p: Place,
    source: Seq<char>,
    e: Edit,
)
    requires
        places.contains(p),
        place_edits(rule, p, source).contains(e),
    ensures
        all_edits(rule, places, source).contains(e),
    decreases places.len(),
{
    let k = choose|k: int| 0 <= k < places.len() && places[k] == p;
    let init = all_edits(rule, places.drop_last(), source);
    let last = place_edits(rule, places.last(), source);
    if k < places.len() - 1 {
        assert(places.drop_last()[k] == p);
        lemma_all_contains(rule, places.drop_last(), p, source, e);
        let i = choose|i: int| 0 <= i < init.len() && init[i] == e;
        assert((init + last)[i] == e);
    } else {
        let i = choose|i: int| 0 <= i < last.len() && last[i] == e;
        assert((init + last)[init.len() + i] == e);
    }
}

/// What is found at the end of a chain is found at its start.
proof fn lemma_chain_is_walked<R: Rule>(
    rule: R,
    chain: Seq<Place>,
    source: Seq<char>,
    e: Edit,
)
    requires
        chain.len() > 0,
        leads(chain, rule.reach()),
        own_edits(rule, chain.last(), source).contains(e),
    ensures
        place_edits(rule, chain[0], source).contains(e),
    decreases chain.len(),
{
    let own = own_edits(rule, chain[0], source);
    let inner = all_edits(rule, parts(chain[0], rule.reach()), source);
    law_walk_is_a_preorder(rule, chain[0], source);
    if chain.len() == 1 {
        let i = choose|i: int| 0 <= i < own.len() && own[i] == e;
        assert((own + inner)[i] == e);
    } else {
        let rest = chain.drop_first();
        assert forall|k: int| 1 <= k < rest.len() implies parts(
            rest[k - 1],
            rule.reach(),
        ).contains(#[trigger] rest[k]) by {
            assert(rest[k] == chain[k + 1]);
            assert(rest[k - 1] == chain[k]);
        }
        assert(rest.last() == chain.last());
        lemma_chain_is_walked(rule, rest, source, e);
        assert(rest[0] == chain[1]);
        lemma_all_contains(rule, parts(chain[0], rule.reach()), chain[1], source, e);
        let i = choose|i: int| 0 <= i < inner.len() && inner[i] == e;
        assert((own + inner)[own.len() + i] == e);
    }
}

/// A walk is complete: whatever a rule proposes at a node that occurs in a
/// suite, at any depth, is among the edits found in the suite.
pub proof fn law_walk_is_complete<R: Rule>(
    rule: R,
    suite: Seq<Statement>,
    source: Seq<char>,
    p: Place,
    e: Edit,
)
    requires
        occurs(p, suite, rule.reach()),
        own_edits(rule, p, source).contains(e),
    ensures
        suite_edits(rule, suite, source).contains(e),
{
    reveal(occurs);
    let chain = choose|chain: Seq<Place>| #[trigger] leads_to(chain, p, suite, rule.reach());
    lemma_chain_is_walked(rule, chain, source, e);
    lemma_all_contains(rule, statements(suite), chain[0], source, e);
    lemma_all_statements(rule, suite, source);
}

/// A node directly in one that occurs occurs too.
pub proof fn law_parts_occur(p: Place, inner: Place, suite: Seq<Statement>, reach: Reach)
    requires
        occurs(p, suite, reach),
        parts(p, reach).contains(inner),
    ensures
        occurs(inner, suite, reach),
{
    reveal(occurs);
    let chain = choose|chain: Seq<Place>| #[trigger] leads_to(chain, p, suite, reach);
    let longer = chain.push(inner);
    assert forall|k: int| 1 <= k < longer.len() implies parts(longer[k - 1], reach).contains(
        #[trigger] longer[k],
    ) by {
        if k < chain.len() {
            assert(longer[k] == chain[k]);
        }
    }
    assert(leads_to(longer, inner, suite, reach));
}

/// The statements of a suite occur in it.
pub proof fn law_statements_occur(suite: Seq<Statement>, i: int, reach: Reach)
    requires
        0 <= i < suite.len(),
    ensures
        occurs(Place::Statement(suite[i]), suite, reach),
{
    reveal(occurs);
    let p = Place::Statement(suite[i]);
    assert(statements(suite)[i] == p);
    assert(leads_to(seq![p], p, suite, reach));
}

/// Whether an edit is proposed at a node that occurs in a suite.
#[verifier::opaque]
pub open spec fn is_proposed<R: Rule>(
    rule: R,
    suite: Seq<Statement>,
    source: Seq<char>,
    e: Edit,
) -> bool {
    exists|p: Place| #[trigger]
        occurs(p, suite, rule.reach()) && own_edits(rule, p, source).contains(e)
}

/// Whether all edits of a list are proposed at nodes that occur in a suite.
pub open spec fn all_proposed<R: Rule>(
    rule: R,
    suite: Seq<Statement>,
    source: Seq<char>,
    list: Seq<Edit>,
) -> bool {
    forall|i: int| 0 <= i < list.len() ==> is_proposed(rule, suite, source, #[trigger] list[i])
}

/// Whether all nodes of a list occur in a suite.
pub open spec fn all_occur(places: Seq<Place>, suite: Seq<Statement>, reach: Reach) -> bool {
    forall|i: int| 0 <= i < places.len() ==> occurs(#[trigger] places[i], suite, reach)
}

proof fn lemma_parts_all_occur(p: Place, suite: Seq<Statement>, reach: Reach)
    requires
        occurs(p, suite, reach),
    ensures
        all_occur(parts(p, reach), suite, reach),
{
    let all = parts(p, reach);
    assert forall|i: int| 0 <= i < all.len() implies occurs(#[trigger] all[i], suite, reach) by {
        assert(all.contains(all[i]));
        law_parts_occur(p, all[i], suite, reach);
    }
}

proof fn lemma_split_occur(a: Seq<Place>, b: Seq<Place>, suite: Seq<Statement>, reach: Reach)
    requires
        all_occur(a + b, suite, reach),
    ensures
        all_occur(a, suite, reach),
        all_occur(b, suite, reach),
{
    assert forall|i: int| 0 <= i < a.len() implies occurs(#[trigger] a[i], suite, reach) by {
        assert((a + b)[i] == a[i]);
    }
    assert forall|i: int| 0 <= i < b.len() implies occurs(#[trigger] b[i], suite, reach) by {
        assert((a + b)[a.len() + i] == b[i]);
    }
}

proof fn lemma_init_occur(places: Seq<Place>, suite: Seq<Statement>, reach: Reach)
    requires
        all_occur(places, suite, reach),
        places.len() > 0,
    ensures
        all_occur(places.drop_last(), suite, reach),
        occurs(places.last(), suite, reach),
{
    assert(places.drop_last() + seq![places.last()] =~= places);
    lemma_split_occur(places.drop_last(), seq![places.last()], suite, reach);
    assert(places[places.len() - 1] == places.last());
}

proof fn lemma_own_proposed<R: Rule>(rule: R, p: Place, top: Seq<Statement>, source: Seq<char>)
    requires
        occurs(p, top, rule.reach()),
    ensures
        all_proposed(rule, top, source, own_edits(rule, p, source)),
{
    reveal(is_proposed);
    let own = own_edits(rule, p, source);
    assert forall|i: int| 0 <= i < own.len() implies is_proposed(
        rule,
        top,
        source,
        #[trigger] own[i],
    ) by {
        assert(own.contains(own[i]));
    }
}

proof fn lemma_suite_proposed<R: Rule>(
    rule: R,
    suite: Seq<Statement>,
    top: Seq<Statement>,
    source: Seq<char>,
)
    requires
        all_occur(statements(suite), top, rule.reach()),
    ensures
        all_proposed(rule, top, source, suite_edits(rule, suite, source)),
    decreases suite, 0nat,
{
    if suite.len() > 0 {
        lemma_init_occur(statements(suite), top, rule.reach());
        assert(statements(suite).drop_last() =~= statements(suite.drop_last()));
        assert(statements(suite).last() == Place::Statement(suite.last()));
        lemma_suite_proposed(rule, suite.drop_last(), top, source);
        lemma_statement_proposed(rule, suite.last(), top, source);
    }
}

proof fn lemma_statement_proposed<R: Rule>(
    rule: R,
    s: Statement,
    top: Seq<Statement>,
    source: Seq<char>,
)
    requires
        occurs(Place::Statement(s), top, rule.reach()),
    ensures
        all_proposed(rule, top, source, statement_edits(rule, s, source)),
    decreases s, 1nat,
{
    lemma_own_proposed(rule, Place::Statement(s), top, source);
    lemma_inner_proposed(rule, s, top, source);
}

#[verifier::rlimit(60)]
#[verifier::spinoff_prover]
proof fn lemma_inner_proposed<R: Rule>(
    rule: R,
    s: Statement,
    top: Seq<Statement>,
    source: Seq<char>,
)
    requires
        occurs(Place::Statement(s), top, rule.reach()),
    ensures
        all_proposed(rule, top, source, inner_edits(rule, s, source)),
    decreases s, 0nat,
{
    let reach = rule.reach();
    lemma_parts_all_occur(Place::Statement(s), top, reach);
    match s.kind {
        StmtKind::FunctionDef(f) => lemma_suite_proposed(rule, f.body@, top, source),
        StmtKind::ClassDef(c) => lemma_suite_proposed(rule, c.body@, top, source),
        StmtKind::Return { value } => if reach.return_value {
            lemma_option_proposed(rule, value, top, source);
        },
        StmtKind::Assign { targets, value } => if reach.assign {
            lemma_one_proposed(rule, value, top, source);
        },
        StmtKind::AugAssign { target, op, value } => if reach.aug_assign {
            lemma_one_proposed(rule, value, top, source);
        },
        StmtKind::AnnAssign { target, annotation, value } => if reach.ann_assign {
            lemma_option_proposed(rule, value, top, source);
        },
        StmtKind::For { target, iter, body, orelse } => {
            let a = given(reach.for_iter, seq![Place::Expression(iter)]);
            let c = given(reach.for_orelse, statements(orelse@));
            lemma_split_occur(a + statements(body@), c, top, reach);
            lemma_split_occur(a, statements(body@), top, reach);
            if reach.for_iter {
                lemma_one_proposed(rule, iter, top, source);
            }
            lemma_suite_proposed(rule, body@, top, source);
            if reach.for_orelse {
                lemma_suite_proposed(rule, orelse@, top, source);
            }
        },
        StmtKind::While { test, body, orelse } => {
            let a = given(reach.while_test, seq![Place::Expression(test)]);
            let c = given(reach.while_orelse, statements(orelse@));
            lemma_split_occur(a + statements(body@), c, top, reach);
            lemma_split_occur(a, statements(body@), top, reach);
            if reach.while_test {
                lemma_one_proposed(rule, test, top, source);
            }
            lemma_suite_proposed(rule, body@, top, source);
            if reach.while_orelse {
                lemma_suite_proposed(rule, orelse@, top, source);
            }
        },
        StmtKind::If { test, body, clauses } => {
            let a = given(reach.if_test, seq![Place::Expression(test)]);
            lemma_split_occur(a + statements(body@), clauses_of(clauses@), top, reach);
            lemma_split_occur(a, statements(body@), top, reach);
            if reach.if_test {
                lemma_one_proposed(rule, test, top, source);
            }
            lemma_suite_proposed(rule, body@, top, source);
            lemma_clauses_proposed(rule, clauses@, top, source);
        },
        StmtKind::With { items, body } => if reach.with_body {
            lemma_suite_proposed(rule, body@, top, source);
        },
        StmtKind::Try { body, handlers, orelse, finalbody } => {
            let tail = statements(orelse@) + statements(finalbody@);
            lemma_split_occur(
                statements(body@) + handlers_of(handlers@),
                given(reach.try_tail, tail),
                top,
                reach,
            );
            lemma_split_occur(statements(body@), handlers_of(handlers@), top, reach);
            lemma_suite_proposed(rule, body@, top, source);
            lemma_handlers_proposed(rule, handlers@, top, source);
            if reach.try_tail {
                lemma_split_occur(statements(orelse@), statements(finalbody@), top, reach);
                lemma_suite_proposed(rule, orelse@, top, source);
                lemma_suite_proposed(rule, finalbody@, top, source);
            }
        },
        StmtKind::Assert { test, msg } => {
            lemma_split_occur(
                given(reach.assert_test, seq![Place::Expression(test)]),
                given(reach.assert_msg, present(msg)),
                top,
                reach,
            );
            if reach.assert_test {
                lemma_one_proposed(rule, test, top, source);
            }
            if reach.assert_msg {
                lemma_option_proposed(rule, msg, top, source);
            }
        },
        StmtKind::Expr { value } => if reach.expr_stmt {
            lemma_one_proposed(rule, value, top, source);
        },
        _ => {},
    }
}

proof fn lemma_clauses_proposed<R: Rule>(
    rule: R,
    list: Seq<Clause>,
    top: Seq<Statement>,
    source: Seq<char>,
)
    requires
        all_occur(clauses_of(list), top, rule.reach()),
    ensures
        all_proposed(rule, top, source, clauses_edits(rule, list, source)),
    decreases list, 0nat,
{
    if list.len() > 0 {
        let c = list.last();
        lemma_init_occur(clauses_of(list), top, rule.reach());
        assert(clauses_of(list).drop_last() =~= clauses_of(list.drop_last()));
        assert(clauses_of(list).last() == Place::Clause(c));
        lemma_clauses_proposed(rule, list.drop_last(), top, source);
        lemma_own_proposed(rule, Place::Clause(c), top, source);
        lemma_parts_all_occur(Place::Clause(c), top, rule.reach());
        lemma_split_occur(
            given(rule.reach().clause_test, present(c.test)),
            statements(c.body@),
            top,
            rule.reach(),
        );
        if rule.reach().clause_test {
            lemma_option_proposed(rule, c.test, top, source);
        }
        lemma_suite_proposed(rule, c.body@, top, source);
    }
}

proof fn lemma_handlers_proposed<R: Rule>(
    rule: R,
    list: Seq<Handler>,
    top: Seq<Statement>,
    source: Seq<char>,
)
    requires
        all_occur(handlers_of(list), top, rule.reach()),
    ensures
        all_proposed(rule, top, source, handlers_edits(rule, list, source)),
    decreases list, 0nat,
{
    if list.len() > 0 {
        let h = list.last();
        lemma_init_occur(handlers_of(list), top, rule.reach());
        assert(handlers_of(list).drop_last() =~= handlers_of(list.drop_last()));
        assert(handlers_of(list).last() == Place::Handler(h));
        lemma_handlers_proposed(rule, list.drop_last(), top, source);
        lemma_own_proposed(rule, Place::Handler(h), top, source);
        lemma_parts_all_occur(Place::Handler(h), top, rule.reach());
        lemma_suite_proposed(rule, h.body@, top, source);
    }
}

proof fn lemma_option_proposed<R: Rule>(
    rule: R,
    e: Option<Expression>,
    top: Seq<Statement>,
    source: Seq<char>,
)
    requires
        all_occur(present(e), top, rule.reach()),
    ensures
        all_proposed(rule, top, source, option_edits(rule, e, source)),
    decreases e, 3nat,
{
    if let Some(e) = e {
        lemma_one_proposed(rule, e, top, source);
    }
}

proof fn lemma_one_proposed<R: Rule>(
    rule: R,
    e: Expression,
    top: Seq<Statement>,
    source: Seq<char>,
)
    requires
        all_occur(seq![Place::Expression(e)], top, rule.reach()),
    ensures
        all_proposed(rule, top, source, expression_edits(rule, e, source)),
    decreases e, 2nat,
{
    assert(seq![Place::Expression(e)][0] == Place::Expression(e));
    lemma_expression_proposed(rule, e, top, source);
}

proof fn lemma_pair_proposed<R: Rule>(
    rule: R,
    a: Expression,
    b: Expression,
    top: Seq<Statement>,
    source: Seq<char>,
)
    requires
        all_occur(seq![Place::Expression(a), Place::Expression(b)], top, rule.reach()),
    ensures
        occurs(Place::Expression(a), top, rule.reach()),
        occurs(Place::Expression(b), top, rule.reach()),
{
    let both = seq![Place::Expression(a), Place::Expression(b)];
    assert(both[0] == Place::Expression(a) && both[1] == Place::Expression(b));
}

proof fn lemma_list_proposed<R: Rule>(
    rule: R,
    list: Seq<Expression>,
    top: Seq<Statement>,
    source: Seq<char>,
)
    requires
        all_occur(expressions(list), top, rule.reach()),
    ensures
        all_proposed(rule, top, source, list_edits(rule, list, source)),
    decreases list, 0nat,
{
    if list.len() > 0 {
        lemma_init_occur(expressions(list), top, rule.reach());
        assert(expressions(list).drop_last() =~= expressions(list.drop_last()));
        assert(expressions(list).last() == Place::Expression(list.last()));
        lemma_list_proposed(rule, list.drop_last(), top, source);
        lemma_expression_proposed(rule, list.last(), top, source);
    }
}

proof fn lemma_items_proposed<R: Rule>(
    rule: R,
    items: Seq<DictItem>,
    top: Seq<Statement>,
    source: Seq<char>,
)
    requires
        all_occur(keys_and_values(items), top, rule.reach()),
    ensures
        all_proposed(rule, top, source, items_edits(rule, items, source)),
    decreases items, 0nat,
{
    if items.len() > 0 {
        let init = keys_and_values(items.drop_last());
        let key = present(items.last().key);
        let value = seq![Place::Expression(items.last().value)];
        lemma_split_occur(init + key, value, top, rule.reach());
        lemma_split_occur(init, key, top, rule.reach());
        lemma_items_proposed(rule, items.drop_last(), top, source);
        let item = items.last();
        lemma_option_proposed(rule, item.key, top, source);
        lemma_one_proposed(rule, item.value, top, source);
    }
}

proof fn lemma_expression_proposed<R: Rule>(
    rule: R,
    e: Expression,
    top: Seq<Statement>,
    source: Seq<char>,
)
    requires
        occurs(Place::Expression(e), top, rule.reach()),
    ensures
        all_proposed(rule, top, source, expression_edits(rule, e, source)),
    decreases e, 1nat,
{
    lemma_own_proposed(rule, Place::Expression(e), top, source);
    lemma_operands_proposed(rule, e, top, source);
}

proof fn lemma_operands_proposed<R: Rule>(
    rule: R,
    e: Expression,
    top: Seq<Statement>,
    source: Seq<char>,
)
    requires
        occurs(Place::Expression(e), top, rule.reach()),
    ensures
        all_proposed(rule, top, source, operand_edits(rule, e, source)),
    decreases e, 0nat,
{
    let reach = rule.reach();
    lemma_parts_all_occur(Place::Expression(e), top, reach);
    match e.kind {
        ExprKind::BoolOp { op, values } => lemma_list_proposed(rule, values@, top, source),
        ExprKind::BinOp { left, op, right } => {
            lemma_pair_proposed(rule, *left, *right, top, source);
            lemma_expression_proposed(rule, *left, top, source);
            lemma_expression_proposed(rule, *right, top, source);
        },
        ExprKind::UnaryOp { op, operand } => lemma_one_proposed(rule, *operand, top, source),
        ExprKind::If { test, body, orelse } => {
            let all = seq![
                Place::Expression(*test),
                Place::Expression(*body),
                Place::Expression(*orelse),
            ];
            assert(all[0] == Place::Expression(*test));
            assert(all[1] == Place::Expression(*body));
            assert(all[2] == Place::Expression(*orelse));
            lemma_expression_proposed(rule, *test, top, source);
            lemma_expression_proposed(rule, *body, top, source);
            lemma_expression_proposed(rule, *orelse, top, source);
        },
        ExprKind::Call { func, args, keywords } => {
            lemma_split_occur(
                given(reach.call_func, seq![Place::Expression(*func)]),
                expressions(args@),
                top,
                reach,
            );
            if reach.call_func {
                lemma_one_proposed(rule, *func, top, source);
            }
            lemma_list_proposed(rule, args@, top, source);
        },
        ExprKind::Compare { left, ops, comparators } => if reach.compare {
            lemma_split_occur(
                seq![Place::Expression(*left)],
                expressions(comparators@),
                top,
                reach,
            );
            lemma_one_proposed(rule, *left, top, source);
            lemma_list_proposed(rule, comparators@, top, source);
        },
        ExprKind::Named { target, value } => if reach.named {
            lemma_one_proposed(rule, *value, top, source);
        },
        ExprKind::Lambda { parameters, body } => if reach.lambda {
            lemma_one_proposed(rule, *body, top, source);
        },
        ExprKind::Starred { value } => if reach.starred {
            lemma_one_proposed(rule, *value, top, source);
        },
        ExprKind::List { elts } => if reach.sequences {
            lemma_list_proposed(rule, elts@, top, source);
        },
        ExprKind::Tuple { elts } => if reach.sequences {
            lemma_list_proposed(rule, elts@, top, source);
        },
        ExprKind::Subscript { value, slice } => if reach.subscript {
            lemma_pair_proposed(rule, *value, *slice, top, source);
            lemma_expression_proposed(rule, *value, top, source);
            lemma_expression_proposed(rule, *slice, top, source);
        },
        ExprKind::Attribute { value, attr } => if reach.attribute {
            lemma_one_proposed(rule, *value, top, source);
        },
        ExprKind::Dict { items } => if reach.displays {
            lemma_items_proposed(rule, items@, top, source);
        },
        ExprKind::SetDisplay { elts } => if reach.displays {
            lemma_list_proposed(rule, elts@, top, source);
        },
        _ => {},
    }
}

/// A walk finds what a rule proposes at the nodes that occur in the suite, at
/// any depth, and nothing else.
pub proof fn law_walk_is_exact<R: Rule>(
    rule: R,
    suite: Seq<Statement>,
    source: Seq<char>,
    e: Edit,
)
    ensures
        suite_edits(rule, suite, source).contains(e) <==> exists|p: Place| #[trigger]
            occurs(p, suite, rule.reach()) && own_edits(rule, p, source).contains(e),
{
    reveal(is_proposed);
    let all = suite_edits(rule, suite, source);
    if all.contains(e) {
        let i = choose|i: int| 0 <= i < all.len() && all[i] == e;
        assert forall|k: int| 0 <= k < suite.len() implies occurs(
            #[trigger] statements(suite)[k],
            suite,
            rule.reach(),
        ) by {
            law_statements_occur(suite, k, rule.reach());
        }
        lemma_suite_proposed(rule, suite, suite, source);
        assert(is_proposed(rule, suite, source, all[i]));
    }
    if exists|p: Place| #[trigger]
        occurs(p, suite, rule.reach()) && own_edits(rule, p, source).contains(e) {
        let p = choose|p: Place| #[trigger]
            occurs(p, suite, rule.reach()) && own_edits(rule, p, source).contains(e);
        law_walk_is_complete(rule, suite, source, p, e);
    }
}

/// The edits found in suites one after the other are those found in the one,
/// and then those found in the other.
pub proof fn law_walk_goes_over_concatenation<R: Rule>(
    rule: R,
    a: Seq<Statement>,
    b: Seq<Statement>,
    source: Seq<char>,
)
    ensures
        suite_edits(rule, a + b, source) == suite_edits(rule, a, source) + suite_edits(
            rule,
            b,
            source,
        ),
{
    assert(statements(a + b) =~= statements(a) + statements(b));
    lemma_all_concat(rule, statements(a), statements(b), source);
    lemma_all_statements(rule, a, source);
    lemma_all_statements(rule, b, source);
    lemma_all_statements(rule, a + b, source);
}

/// The blocks of a statement that occurs occur with it: the body of a
/// definition, all branches of an `if`, the body and the `else` block of a
/// loop, the body of a `with`, and the four kinds of block of a `try`.
pub proof fn law_blocks_occur(
    s: Statement,
    inner: Statement,
    suite: Seq<Statement>,
    reach: Reach,
    k: int,
)
    requires
        occurs(Place::Statement(s), suite, reach),
        match s.kind {
            StmtKind::FunctionDef(f) => f.body@.contains(inner),
            StmtKind::ClassDef(c) => c.body@.contains(inner),
            StmtKind::If { test, body, clauses } => {
                ||| body@.contains(inner)
                ||| 0 <= k < clauses@.len() && clauses@[k].body@.contains(inner)
            },
            StmtKind::While { test, body, orelse } => {
                ||| body@.contains(inner)
                ||| reach.while_orelse && orelse@.contains(inner)
            },
            StmtKind::For { target, iter, body, orelse } => {
                ||| body@.contains(inner)
                ||| reach.for_orelse && orelse@.contains(inner)
            },
            StmtKind::With { items, body } => reach.with_body && body@.contains(inner),
            StmtKind::Try { body, handlers, orelse, finalbody } => {
                ||| body@.contains(inner)
                ||| 0 <= k < handlers@.len() && handlers@[k].body@.contains(inner)
                ||| reach.try_tail && orelse@.contains(inner)
                ||| reach.try_tail && finalbody@.contains(inner)
            },
            _ => false,
        },
    ensures
        occurs(Place::Statement(inner), suite, reach),
{
    let p = Place::Statement(s);
    lemma_parts_all_occur(p, suite, reach);
    match s.kind {
        StmtKind::FunctionDef(f) => lemma_member_occurs(f.body@, inner, suite, reach),
        StmtKind::ClassDef(c) => lemma_member_occurs(c.body@, inner, suite, reach),
        StmtKind::If { test, body, clauses } => {
            let a = given(reach.if_test, seq![Place::Expression(test)]);
            lemma_split_occur(a + statements(body@), clauses_of(clauses@), suite, reach);
            lemma_split_occur(a, statements(body@), suite, reach);
            if body@.contains(inner) {
                lemma_member_occurs(body@, inner, suite, reach);
            } else {
                let c = clauses@[k];
                assert(clauses_of(clauses@)[k] == Place::Clause(c));
                lemma_parts_all_occur(Place::Clause(c), suite, reach);
                lemma_split_occur(
                    given(reach.clause_test, present(c.test)),
                    statements(c.body@),
                    suite,
                    reach,
                );
                lemma_member_occurs(c.body@, inner, suite, reach);
            }
        },
        StmtKind::While { test, body, orelse } => {
            let a = given(reach.while_test, seq![Place::Expression(test)]);
            let c = given(reach.while_orelse, statements(orelse@));
            lemma_split_occur(a + statements(body@), c, suite, reach);
            lemma_split_occur(a, statements(body@), suite, reach);
            if body@.contains(inner) {
                lemma_member_occurs(body@, inner, suite, reach);
            } else {
                lemma_member_occurs(orelse@, inner, suite, reach);
            }
        },
        StmtKind::For { target, iter, body, orelse } => {
            let a = given(reach.for_iter, seq![Place::Expression(iter)]);
            let c = given(reach.for_orelse, statements(orelse@));
            lemma_split_occur(a + statements(body@), c, suite, reach);
            lemma_split_occur(a, statements(body@), suite, reach);
            if body@.contains(inner) {
                lemma_member_occurs(body@, inner, suite, reach);
            } else {
                lemma_member_occurs(orelse@, inner, suite, reach);
            }
        },
        StmtKind::With { items, body } => lemma_member_occurs(body@, inner, suite, reach),
        StmtKind::Try { body, handlers, orelse, finalbody } => {
            let tail = statements(orelse@) + statements(finalbody@);
            lemma_split_occur(
                statements(body@) + handlers_of(handlers@),
                given(reach.try_tail, tail),
                suite,
                reach,
            );
            lemma_split_occur(statements(body@), handlers_of(handlers@), suite, reach);
            if body@.contains(inner) {
                lemma_member_occurs(body@, inner, suite, reach);
            } else if 0 <= k < handlers@.len() && handlers@[k].body@.contains(inner) {
                let h = handlers@[k];
                assert(handlers_of(handlers@)[k] == Place::Handler(h));
                lemma_parts_all_occur(Place::Handler(h), suite, reach);
                lemma_member_occurs(h.body@, inner, suite, reach);
            } else {
                lemma_split_occur(statements(orelse@), statements(finalbody@), suite, reach);
                if orelse@.contains(inner) {
                    lemma_member_occurs(orelse@, inner, suite, reach);
                } else {
                    lemma_member_occurs(finalbody@, inner, suite, reach);
                }
            }
        },
        _ => {},
    }
}

proof fn lemma_member_occurs(
    body: Seq<Statement>,
    inner: Statement,
    suite: Seq<Statement>,
    reach: Reach,
)
    requires
        all_occur(statements(body), suite, reach),
        body.contains(inner),
    ensures
        occurs(Place::Statement(inner), suite, reach),
{
    let i = choose|i: int| 0 <= i < body.len() && body[i] == inner;
    assert(statements(body)[i] == Place::Statement(inner));
}

/// The expressions that a statement holds occur with it, where the walk enters
/// them.
pub proof fn law_held_expressions_occur(
    s: Statement,
    e: Expression,
    suite: Seq<Statement>,
    reach: Reach,
)
    requires
        occurs(Place::Statement(s), suite, reach),
        match s.kind {
            StmtKind::Return { value } => reach.return_value && value == Some(e),
            StmtKind::Assign { targets, value } => reach.assign && value == e,
            StmtKind::AugAssign { target, op, value } => reach.aug_assign && value == e,
            StmtKind::AnnAssign { target, annotation, value } => reach.ann_assign && value == Some(
                e,
            ),
            StmtKind::For { target, iter, body, orelse } => reach.for_iter && iter == e,
            StmtKind::While { test, body, orelse } => reach.while_test && test == e,
            StmtKind::If { test, body, clauses } => {
                ||| reach.if_test && test == e
                ||| reach.clause_test && exists|k: int|
                    0 <= k < clauses@.len() && (#[trigger] clauses@[k]).test == Some(e)
            },
            StmtKind::Assert { test, msg } => {
                ||| reach.assert_test && test == e
                ||| reach.assert_msg && msg == Some(e)
            },
            StmtKind::Expr { value } => reach.expr_stmt && value == e,
            _ => false,
        },
    ensures
        occurs(Place::Expression(e), suite, reach),
{
    let p = Place::Statement(s);
    lemma_parts_all_occur(p, suite, reach);
    let one = seq![Place::Expression(e)];
    assert(one[0] == Place::Expression(e));
    match s.kind {
        StmtKind::For { target, iter, body, orelse } => {
            let c = given(reach.for_orelse, statements(orelse@));
            lemma_split_occur(one + statements(body@), c, suite, reach);
            lemma_split_occur(one, statements(body@), suite, reach);
        },
        StmtKind::While { test, body, orelse } => {
            let c = given(reach.while_orelse, statements(orelse@));
            lemma_split_occur(one + statements(body@), c, suite, reach);
            lemma_split_occur(one, statements(body@), suite, reach);
        },
        StmtKind::If { test, body, clauses } => {
            let a = given(reach.if_test, seq![Place::Expression(test)]);
            lemma_split_occur(a + statements(body@), clauses_of(clauses@), suite, reach);
            lemma_split_occur(a, statements(body@), suite, reach);
            if !(reach.if_test && test == e) {
                let k = choose|k: int|
                    0 <= k < clauses@.len() && (#[trigger] clauses@[k]).test == Some(e);
                let c = clauses@[k];
                assert(clauses_of(clauses@)[k] == Place::Clause(c));
                lemma_parts_all_occur(Place::Clause(c), suite, reach);
                lemma_split_occur(one, statements(c.body@), suite, reach);
            }
        },
        StmtKind::Assert { test, msg } => {
            lemma_split_occur(
                given(reach.assert_test, seq![Place::Expression(test)]),
                given(reach.assert_msg, present(msg)),
                suite,
                reach,
            );
        },
        _ => {},
    }
}

/// The operands of an expression that occurs occur with it, where the walk
/// enters them.
pub proof fn law_operands_occur(
    outer: Expression,
    e: Expression,
    suite: Seq<Statement>,
    reach: Reach,
)
    requires
        occurs(Place::Expression(outer), suite, reach),
        match outer.kind {
            ExprKind::BoolOp { op, values } => values@.contains(e),
            ExprKind::BinOp { left, op, right } => *left == e || *right == e,
            ExprKind::UnaryOp { op, operand } => *operand == e,
            ExprKind::If { test, body, orelse } => *test == e || *body == e || *orelse == e,
            ExprKind::Call { func, args, keywords } => {
                ||| args@.contains(e)
                ||| reach.call_func && *func == e
            },
            ExprKind::Compare { left, ops, comparators } => reach.compare && (*left == e
                || comparators@.contains(e)),
            ExprKind::Named { target, value } => reach.named && *value == e,
            ExprKind::Lambda { parameters, body } => reach.lambda && *body == e,
            ExprKind::Starred { value } => reach.starred && *value == e,
            ExprKind::List { elts } => reach.sequences && elts@.contains(e),
            ExprKind::Tuple { elts } => reach.sequences && elts@.contains(e),
            ExprKind::Subscript { value, slice } => reach.subscript && (*value == e || *slice == e),
            ExprKind::Attribute { value, attr } => reach.attribute && *value == e,
            ExprKind::Dict { items } => reach.displays && exists|k: int|
                0 <= k < items@.len() && ((#[trigger] items@[k]).key == Some(e) || items@[k].value
                    == e),
            ExprKind::SetDisplay { elts } => reach.displays && elts@.contains(e),
            _ => false,
        },
    ensures
        occurs(Place::Expression(e), suite, reach),
{
    let p = Place::Expression(outer);
    lemma_parts_all_occur(p, suite, reach);
    let all = parts(p, reach);
    let one = seq![Place::Expression(e)];
    assert(one[0] == Place::Expression(e));
    match outer.kind {
        ExprKind::BoolOp { op, values } => lemma_item_occurs(values@, e, suite, reach),
        ExprKind::BinOp { left, op, right } => {
            assert(all[0] == Place::Expression(*left) && all[1] == Place::Expression(*right));
        },
        ExprKind::If { test, body, orelse } => {
            assert(all[0] == Place::Expression(*test));
            assert(all[1] == Place::Expression(*body));
            assert(all[2] == Place::Expression(*orelse));
        },
        ExprKind::Call { func, args, keywords } => {
            lemma_split_occur(
                given(reach.call_func, seq![Place::Expression(*func)]),
                expressions(args@),
                suite,
                reach,
            );
            if args@.contains(e) {
                lemma_item_occurs(args@, e, suite, reach);
            }
        },
        ExprKind::Compare { left, ops, comparators } => {
            lemma_split_occur(
                seq![Place::Expression(*left)],
                expressions(comparators@),
                suite,
                reach,
            );
            if comparators@.contains(e) {
                lemma_item_occurs(comparators@, e, suite, reach);
            }
        },
        ExprKind::List { elts } => lemma_item_occurs(elts@, e, suite, reach),
        ExprKind::Tuple { elts } => lemma_item_occurs(elts@, e, suite, reach),
        ExprKind::SetDisplay { elts } => lemma_item_occurs(elts@, e, suite, reach),
        ExprKind::Subscript { value, slice } => {
            assert(all[0] == Place::Expression(*value) && all[1] == Place::Expression(*slice));
        },
        ExprKind::Dict { items } => {
            let k = choose|k: int|
                0 <= k < items@.len() && ((#[trigger] items@[k]).key == Some(e) || items@[k].value
                    == e);
            lemma_entry_occurs(items@, k, e, suite, reach);
        },
        _ => {},
    }
}

proof fn lemma_item_occurs(
    list: Seq<Expression>,
    e: Expression,
    suite: Seq<Statement>,
    reach: Reach,
)
    requires
        all_occur(expressions(list), suite, reach),
        list.contains(e),
    ensures
        occurs(Place::Expression(e), suite, reach),
{
    let i = choose|i: int| 0 <= i < list.len() && list[i] == e;
    assert(expressions(list)[i] == Place::Expression(e));
}

proof fn lemma_entry_occurs(
    items: Seq<DictItem>,
    k: int,
    e: Expression,
    suite: Seq<Statement>,
    reach: Reach,
)
    requires
        all_occur(keys_and_values(items), suite, reach),
        0 <= k < items.len(),
        items[k].key == Some(e) || items[k].value == e,
    ensures
        occurs(Place::Expression(e), suite, reach),
    decreases items.len(),
{
    let init = keys_and_values(items.drop_last());
    let key = present(items.last().key);
    let value = seq![Place::Expression(items.last().value)];
    lemma_split_occur(init + key, value, suite, reach);
    lemma_split_occur(init, key, suite, reach);
    if k < items.len() - 1 {
        lemma_entry_occurs(items.drop_last(), k, e, suite, reach);
    } else {
        assert(items.last() == items[k]);
        let one = seq![Place::Expression(e)];
        assert(one[0] == Place::Expression(e));
    }
}

/// A walk finds the edits that stand in a relation to nodes that occur, where
/// these are the edits that the rule proposes at each node.
pub proof fn lemma_walk_by_relation<R: Rule>(
    rule: R,
    suite: Seq<Statement>,
    source: Seq<char>,
    e: Edit,
    reach: Reach,
    relation: spec_fn(Place) -> bool,
)
    requires
        rule.reach() == reach,
        forall|p: Place|
            #![trigger own_edits(rule, p, source)]
            own_edits(rule, p, source).contains(e) <==> relation(p),
    ensures
        suite_edits(rule, suite, source).contains(e) <==> exists|p: Place| #[trigger]
            occurs(p, suite, reach) && relation(p),
{
    law_walk_is_exact(rule, suite, source, e);
    if suite_edits(rule, suite, source).contains(e) {
        let p = choose|p: Place| #[trigger]
            occurs(p, suite, rule.reach()) && own_edits(rule, p, source).contains(e);
        assert(relation(p));
    }
    if exists|p: Place| #[trigger] occurs(p, suite, reach) && relation(p) {
        let p = choose|p: Place| #[trigger] occurs(p, suite, reach) && relation(p);
        assert(own_edits(rule, p, source).contains(e));
    }
}

} // verus!
