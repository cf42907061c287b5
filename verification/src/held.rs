//! Which expressions stand in which others, and that a listing has them all.
use crate::ast::{
    Case, CasePattern, Clause, Decorator, DictItem, ExprKind, Expression, Generator, Handler,
    Number, Param, ParamList, Statement, StmtKind, StringElement, StringPart, TypeParam, WithItem,
};
use crate::expressions::{
    annotations_exprs, boxed_exprs, boxed_parameters_exprs, cases_exprs, clauses_exprs,
    decorators_exprs, defaults_exprs, element_exprs, elements_exprs, expression_exprs, floats_among,
    generators_exprs, handlers_exprs, items_exprs, list_exprs, operand_exprs, option_exprs,
    parameters_exprs, pattern_exprs, patterns_exprs, statement_exprs, string_parts_exprs,
    suite_exprs, type_params_exprs, variadic_exprs, with_items_exprs,
};
use vstd::prelude::*;

verus! {

/// Anything that expressions can stand in.
pub enum Node {
    Statement(Statement),
    Expression(Expression),
    Clause(Clause),
    Handler(Handler),
    TypeParam(TypeParam),
    Default(Param),
    Annotation(Param),
    WithItem(WithItem),
    Case(Case),
    Pattern(CasePattern),
    Generator(Generator),
    StringPart(StringPart),
    Element(StringElement),
    Item(DictItem),
    Decorator(Decorator),
}

/// The parts that a list of them makes.
pub open spec fn statements(list: Seq<Statement>) -> Seq<Node> {
    list.map_values(|x: Statement| Node::Statement(x))
}

/// The parts that a list of them makes.
pub open spec fn expressions(list: Seq<Expression>) -> Seq<Node> {
    list.map_values(|x: Expression| Node::Expression(x))
}

/// The parts that a list of them makes.
pub open spec fn clauses(list: Seq<Clause>) -> Seq<Node> {
    list.map_values(|x: Clause| Node::Clause(x))
}

/// The parts that a list of them makes.
pub open spec fn handlers(list: Seq<Handler>) -> Seq<Node> {
    list.map_values(|x: Handler| Node::Handler(x))
}

/// The parts that a list of them makes.
pub open spec fn type_params(list: Seq<TypeParam>) -> Seq<Node> {
    list.map_values(|x: TypeParam| Node::TypeParam(x))
}

/// The parts that a list of them makes.
pub open spec fn defaults(list: Seq<Param>) -> Seq<Node> {
    list.map_values(|x: Param| Node::Default(x))
}

/// The parts that a list of them makes.
pub open spec fn annotations(list: Seq<Param>) -> Seq<Node> {
    list.map_values(|x: Param| Node::Annotation(x))
}

/// The parts that a list of them makes.
pub open spec fn with_items(list: Seq<WithItem>) -> Seq<Node> {
    list.map_values(|x: WithItem| Node::WithItem(x))
}

/// The parts that a list of them makes.
pub open spec fn cases(list: Seq<Case>) -> Seq<Node> {
    list.map_values(|x: Case| Node::Case(x))
}

/// The parts that a list of them makes.
pub open spec fn patterns(list: Seq<CasePattern>) -> Seq<Node> {
    list.map_values(|x: CasePattern| Node::Pattern(x))
}

/// The parts that a list of them makes.
pub open spec fn generators(list: Seq<Generator>) -> Seq<Node> {
    list.map_values(|x: Generator| Node::Generator(x))
}

/// The parts that a list of them makes.
pub open spec fn string_parts(list: Seq<StringPart>) -> Seq<Node> {
    list.map_values(|x: StringPart| Node::StringPart(x))
}

/// The parts that a list of them makes.
pub open spec fn elements(list: Seq<StringElement>) -> Seq<Node> {
    list.map_values(|x: StringElement| Node::Element(x))
}

/// The parts that a list of them makes.
pub open spec fn items(list: Seq<DictItem>) -> Seq<Node> {
    list.map_values(|x: DictItem| Node::Item(x))
}

/// The parts that a list of them makes.
pub open spec fn decorators(list: Seq<Decorator>) -> Seq<Node> {
    list.map_values(|x: Decorator| Node::Decorator(x))
}

/// An expression that may be there.
pub open spec fn present(expr: Option<Expression>) -> Seq<Node> {
    match expr {
        Some(e) => seq![Node::Expression(e)],
        None => Seq::empty(),
    }
}

/// A boxed expression that may be there.
pub open spec fn unboxed(expr: Option<Box<Expression>>) -> Seq<Node> {
    match expr {
        Some(e) => seq![Node::Expression(*e)],
        None => Seq::empty(),
    }
}

/// One expression.
pub open spec fn one(expr: Expression) -> Seq<Node> {
    seq![Node::Expression(expr)]
}

/// The annotation of a parameter that may be there.
pub open spec fn annotated(parameter: Option<Param>) -> Seq<Node> {
    match parameter {
        Some(p) => present(p.annotation),
        None => Seq::empty(),
    }
}

/// The parts of parameters: first their defaults, then their annotations.
pub open spec fn parameter_parts(p: ParamList) -> Seq<Node> {
    (defaults(p.positional_only@) + defaults(p.positional@) + defaults(p.keyword_only@)) + (
    annotations(p.positional_only@) + annotations(p.positional@) + annotated(p.variadic)
        + annotations(p.keyword_only@) + annotated(p.keyword_variadic))
}

/// The direct parts of a statement, in the order in which they are listed.
pub open spec fn statement_nodes(stmt: Statement) -> Seq<Node> {
    match stmt.kind {
        StmtKind::FunctionDef(f) => decorators(f.decorators@) + type_params(f.type_params@)
            + parameter_parts(f.parameters) + present(f.returns) + statements(f.body@),
        StmtKind::ClassDef(c) => decorators(c.decorators@) + type_params(c.type_params@)
            + expressions(c.bases@) + expressions(c.keywords@) + statements(c.body@),
        StmtKind::Return { value } => present(value),
        StmtKind::Delete { targets } => expressions(targets@),
        StmtKind::Assign { targets, value } => one(value) + expressions(targets@),
        StmtKind::AugAssign { target, value, .. } => one(value) + one(target),
        StmtKind::AnnAssign { target, annotation, value } => present(value) + one(annotation)
            + one(target),
        StmtKind::For { target, iter, body, orelse } => one(iter) + one(target) + statements(body@)
            + statements(orelse@),
        StmtKind::While { test, body, orelse } => one(test) + statements(body@) + statements(
            orelse@,
        ),
        StmtKind::If { test, body, clauses: rest } => one(test) + statements(body@) + clauses(
            rest@,
        ),
        StmtKind::With { items: held, body } => with_items(held@) + statements(body@),
        StmtKind::Raise { exception, cause } => present(exception) + present(cause),
        StmtKind::Try { body, handlers: held, orelse, finalbody } => statements(body@) + handlers(
            held@,
        ) + statements(orelse@) + statements(finalbody@),
        StmtKind::Assert { test, msg } => one(test) + present(msg),
        StmtKind::Expr { value } => one(value),
        StmtKind::Match { subject, cases: held } => one(subject) + cases(held@),
        StmtKind::TypeAlias { name, type_params: held, value } => one(value) + type_params(held@)
            + one(name),
        _ => Seq::empty(),
    }
}

/// The direct operands of an expression, in the order in which they are listed.
pub open spec fn expression_nodes(expr: Expression) -> Seq<Node> {
    match expr.kind {
        ExprKind::BoolOp { values, .. } => expressions(values@),
        ExprKind::Named { target, value } => one(*value) + one(*target),
        ExprKind::BinOp { left, right, .. } => one(*left) + one(*right),
        ExprKind::UnaryOp { operand, .. } => one(*operand),
        ExprKind::Lambda { parameters, body } => (match parameters {
            Some(p) => parameter_parts(*p),
            None => Seq::empty(),
        }) + one(*body),
        ExprKind::If { test, body, orelse } => one(*test) + one(*body) + one(*orelse),
        ExprKind::Dict { items: held } => items(held@),
        ExprKind::SetDisplay { elts } => expressions(elts@),
        ExprKind::Compare { left, comparators, .. } => one(*left) + expressions(comparators@),
        ExprKind::Call { func, args, keywords } => one(*func) + expressions(args@) + expressions(
            keywords@,
        ),
        ExprKind::Attribute { value, .. } => one(*value),
        ExprKind::Subscript { value, slice } => one(*value) + one(*slice),
        ExprKind::Starred { value } => one(*value),
        ExprKind::List { elts } => expressions(elts@),
        ExprKind::Tuple { elts } => expressions(elts@),
        ExprKind::Await { value } => one(*value),
        ExprKind::Yield { value } => unboxed(value),
        ExprKind::YieldFrom { value } => one(*value),
        ExprKind::Slice { lower, upper, step } => unboxed(lower) + unboxed(upper) + unboxed(step),
        ExprKind::Template { parts } => string_parts(parts@),
        ExprKind::Comprehension { generators: held, key, value } => generators(held@) + unboxed(
            key,
        ) + one(*value),
        _ => Seq::empty(),
    }
}

/// The direct parts of a pattern.
pub open spec fn pattern_nodes(pattern: CasePattern) -> Seq<Node> {
    match pattern {
        CasePattern::Value { value } => one(value),
        CasePattern::Sequence { patterns: held } => patterns(held@),
        CasePattern::Mapping { keys, patterns: held } => expressions(keys@) + patterns(held@),
        CasePattern::Class { class, patterns: held, keywords } => one(class) + patterns(held@)
            + patterns(keywords@),
        CasePattern::As { pattern: inner } => match inner {
            Some(p) => seq![Node::Pattern(*p)],
            None => Seq::empty(),
        },
        CasePattern::Or { patterns: held } => patterns(held@),
        CasePattern::Plain => Seq::empty(),
    }
}

/// The direct parts of anything that expressions can stand in.
pub open spec fn inner(node: Node) -> Seq<Node> {
    match node {
        Node::Statement(s) => statement_nodes(s),
        Node::Expression(e) => expression_nodes(e),
        Node::Clause(c) => present(c.test) + statements(c.body@),
        Node::Handler(h) => present(h.exception) + statements(h.body@),
        Node::TypeParam(p) => present(p.bound) + present(p.default),
        Node::Default(p) => present(p.default),
        Node::Annotation(p) => present(p.annotation),
        Node::WithItem(w) => one(w.context) + present(w.target),
        Node::Case(c) => seq![Node::Pattern(c.pattern)] + present(c.guard) + statements(c.body@),
        Node::Pattern(p) => pattern_nodes(p),
        Node::Generator(g) => one(g.iter) + one(g.target) + expressions(g.ifs@),
        Node::StringPart(p) => elements(p.elements@),
        Node::Element(e) => match e {
            StringElement::Text => Seq::empty(),
            StringElement::Interpolation { value, format } => one(value) + (match format {
                Some(held) => elements(held@),
                None => Seq::empty(),
            }),
        },
        Node::Item(i) => present(i.key) + one(i.value),
        Node::Decorator(d) => one(d.expression),
    }
}

/// The expressions that are listed for a part.
pub open spec fn listed_in(node: Node) -> Seq<Expression> {
    match node {
        Node::Statement(s) => suite_exprs(seq![s]),
        Node::Expression(e) => list_exprs(seq![e]),
        Node::Clause(c) => clauses_exprs(seq![c]),
        Node::Handler(h) => handlers_exprs(seq![h]),
        Node::TypeParam(p) => type_params_exprs(seq![p]),
        Node::Default(p) => defaults_exprs(seq![p]),
        Node::Annotation(p) => annotations_exprs(seq![p]),
        Node::WithItem(w) => with_items_exprs(seq![w]),
        Node::Case(c) => cases_exprs(seq![c]),
        Node::Pattern(p) => patterns_exprs(seq![p]),
        Node::Generator(g) => generators_exprs(seq![g]),
        Node::StringPart(p) => string_parts_exprs(seq![p]),
        Node::Element(e) => elements_exprs(seq![e]),
        Node::Item(i) => items_exprs(seq![i]),
        Node::Decorator(d) => decorators_exprs(seq![d]),
    }
}

/// The expressions that are listed for parts, one part after the other.
pub open spec fn row(nodes: Seq<Node>) -> Seq<Expression> {
    nodes.map_values(|n: Node| listed_in(n)).flatten()
}

proof fn lemma_row_push(nodes: Seq<Node>, node: Node)
    ensures
        row(nodes.push(node)) == row(nodes) + listed_in(node),
{
    let f = |n: Node| listed_in(n);
    let all = nodes.push(node).map_values(f);
    assert(all =~= nodes.map_values(f).push(listed_in(node)));
    all.lemma_flatten_and_flatten_alt_are_equivalent();
    nodes.map_values(f).lemma_flatten_and_flatten_alt_are_equivalent();
    assert(all.drop_last() =~= nodes.map_values(f));
    assert(all.last() == listed_in(node));
}

proof fn lemma_row_of_none()
    ensures
        row(Seq::empty()) == Seq::<Expression>::empty(),
{
    let f = |n: Node| listed_in(n);
    assert(Seq::<Node>::empty().map_values(f) =~= Seq::<Seq<Expression>>::empty());
}

proof fn lemma_row_of_one(node: Node)
    ensures
        row(seq![node]) == listed_in(node),
{
    lemma_row_push(Seq::empty(), node);
    lemma_row_of_none();
    assert(Seq::<Node>::empty().push(node) =~= seq![node]);
    assert(row(seq![node]) =~= listed_in(node));
}

broadcast proof fn lemma_row_of_both(a: Seq<Node>, b: Seq<Node>)
    ensures
        #[trigger] row(a + b) == row(a) + row(b),
    decreases b.len(),
{
    if b.len() == 0 {
        lemma_row_of_none();
        assert(a + b =~= a);
        assert(b =~= Seq::<Node>::empty());
        assert(row(a + b) =~= row(a) + row(b));
    } else {
        lemma_row_of_both(a, b.drop_last());
        lemma_row_push(a + b.drop_last(), b.last());
        lemma_row_push(b.drop_last(), b.last());
        assert(a + b =~= (a + b.drop_last()).push(b.last()));
        assert(b =~= b.drop_last().push(b.last()));
        assert(row(a + b) =~= row(a) + row(b));
    }
}

proof fn lemma_single_statements(x: Statement)
    ensures
        suite_exprs(seq![x]) == statement_exprs(x),
{
    let list = seq![x];
    assert(list.drop_last() =~= Seq::<Statement>::empty());
    assert(suite_exprs(list.drop_last()) =~= Seq::<Expression>::empty());
    assert(list.last() == x);
    assert(suite_exprs(list) =~= statement_exprs(x));
}

broadcast proof fn lemma_row_of_statements(list: Seq<Statement>)
    ensures
        #[trigger] row(statements(list)) == suite_exprs(list),
    decreases list.len(),
{
    if list.len() == 0 {
        lemma_row_of_none();
        assert(statements(list) =~= Seq::<Node>::empty());
    } else {
        let rest = list.drop_last();
        let last = list.last();
        lemma_row_of_statements(rest);
        lemma_single_statements(last);
        lemma_row_push(statements(rest), Node::Statement(last));
        assert(statements(list) =~= statements(rest).push(Node::Statement(last)));
        assert(suite_exprs(list) =~= suite_exprs(rest) + suite_exprs(seq![last]));
    }
}

proof fn lemma_single_expressions(x: Expression)
    ensures
        list_exprs(seq![x]) == expression_exprs(x),
{
    let list = seq![x];
    assert(list.drop_last() =~= Seq::<Expression>::empty());
    assert(list_exprs(list.drop_last()) =~= Seq::<Expression>::empty());
    assert(list.last() == x);
    assert(list_exprs(list) =~= expression_exprs(x));
}

broadcast proof fn lemma_row_of_expressions(list: Seq<Expression>)
    ensures
        #[trigger] row(expressions(list)) == list_exprs(list),
    decreases list.len(),
{
    if list.len() == 0 {
        lemma_row_of_none();
        assert(expressions(list) =~= Seq::<Node>::empty());
    } else {
        let rest = list.drop_last();
        let last = list.last();
        lemma_row_of_expressions(rest);
        lemma_single_expressions(last);
        lemma_row_push(expressions(rest), Node::Expression(last));
        assert(expressions(list) =~= expressions(rest).push(Node::Expression(last)));
        assert(list_exprs(list) =~= list_exprs(rest) + list_exprs(seq![last]));
    }
}

proof fn lemma_single_clauses(x: Clause)
    ensures
        clauses_exprs(seq![x]) == option_exprs(x.test) + suite_exprs(x.body@),
{
    let list = seq![x];
    assert(list.drop_last() =~= Seq::<Clause>::empty());
    assert(clauses_exprs(list.drop_last()) =~= Seq::<Expression>::empty());
    assert(list.last() == x);
    assert(clauses_exprs(list) =~= option_exprs(x.test) + suite_exprs(x.body@));
}

broadcast proof fn lemma_row_of_clauses(list: Seq<Clause>)
    ensures
        #[trigger] row(clauses(list)) == clauses_exprs(list),
    decreases list.len(),
{
    if list.len() == 0 {
        lemma_row_of_none();
        assert(clauses(list) =~= Seq::<Node>::empty());
    } else {
        let rest = list.drop_last();
        let last = list.last();
        lemma_row_of_clauses(rest);
        lemma_single_clauses(last);
        lemma_row_push(clauses(rest), Node::Clause(last));
        assert(clauses(list) =~= clauses(rest).push(Node::Clause(last)));
        assert(clauses_exprs(list) =~= clauses_exprs(rest) + clauses_exprs(seq![last]));
    }
}

proof fn lemma_single_handlers(x: Handler)
    ensures
        handlers_exprs(seq![x]) == option_exprs(x.exception) + suite_exprs(x.body@),
{
    let list = seq![x];
    assert(list.drop_last() =~= Seq::<Handler>::empty());
    assert(handlers_exprs(list.drop_last()) =~= Seq::<Expression>::empty());
    assert(list.last() == x);
    assert(handlers_exprs(list) =~= option_exprs(x.exception) + suite_exprs(x.body@));
}

broadcast proof fn lemma_row_of_handlers(list: Seq<Handler>)
    ensures
        #[trigger] row(handlers(list)) == handlers_exprs(list),
    decreases list.len(),
{
    if list.len() == 0 {
        lemma_row_of_none();
        assert(handlers(list) =~= Seq::<Node>::empty());
    } else {
        let rest = list.drop_last();
        let last = list.last();
        lemma_row_of_handlers(rest);
        lemma_single_handlers(last);
        lemma_row_push(handlers(rest), Node::Handler(last));
        assert(handlers(list) =~= handlers(rest).push(Node::Handler(last)));
        assert(handlers_exprs(list) =~= handlers_exprs(rest) + handlers_exprs(seq![last]));
    }
}

proof fn lemma_single_type_params(x: TypeParam)
    ensures
        type_params_exprs(seq![x]) == option_exprs(x.bound) + option_exprs(x.default),
{
    let list = seq![x];
    assert(list.drop_last() =~= Seq::<TypeParam>::empty());
    assert(type_params_exprs(list.drop_last()) =~= Seq::<Expression>::empty());
    assert(list.last() == x);
    assert(type_params_exprs(list) =~= option_exprs(x.bound) + option_exprs(x.default));
}

broadcast proof fn lemma_row_of_type_params(list: Seq<TypeParam>)
    ensures
        #[trigger] row(type_params(list)) == type_params_exprs(list),
    decreases list.len(),
{
    if list.len() == 0 {
        lemma_row_of_none();
        assert(type_params(list) =~= Seq::<Node>::empty());
    } else {
        let rest = list.drop_last();
        let last = list.last();
        lemma_row_of_type_params(rest);
        lemma_single_type_params(last);
        lemma_row_push(type_params(rest), Node::TypeParam(last));
        assert(type_params(list) =~= type_params(rest).push(Node::TypeParam(last)));
        assert(type_params_exprs(list) =~= type_params_exprs(rest) + type_params_exprs(seq![last]));
    }
}

proof fn lemma_single_defaults(x: Param)
    ensures
        defaults_exprs(seq![x]) == option_exprs(x.default),
{
    let list = seq![x];
    assert(list.drop_last() =~= Seq::<Param>::empty());
    assert(defaults_exprs(list.drop_last()) =~= Seq::<Expression>::empty());
    assert(list.last() == x);
    assert(defaults_exprs(list) =~= option_exprs(x.default));
}

broadcast proof fn lemma_row_of_defaults(list: Seq<Param>)
    ensures
        #[trigger] row(defaults(list)) == defaults_exprs(list),
    decreases list.len(),
{
    if list.len() == 0 {
        lemma_row_of_none();
        assert(defaults(list) =~= Seq::<Node>::empty());
    } else {
        let rest = list.drop_last();
        let last = list.last();
        lemma_row_of_defaults(rest);
        lemma_single_defaults(last);
        lemma_row_push(defaults(rest), Node::Default(last));
        assert(defaults(list) =~= defaults(rest).push(Node::Default(last)));
        assert(defaults_exprs(list) =~= defaults_exprs(rest) + defaults_exprs(seq![last]));
    }
}

proof fn lemma_single_annotations(x: Param)
    ensures
        annotations_exprs(seq![x]) == option_exprs(x.annotation),
{
    let list = seq![x];
    assert(list.drop_last() =~= Seq::<Param>::empty());
    assert(annotations_exprs(list.drop_last()) =~= Seq::<Expression>::empty());
    assert(list.last() == x);
    assert(annotations_exprs(list) =~= option_exprs(x.annotation));
}

broadcast proof fn lemma_row_of_annotations(list: Seq<Param>)
    ensures
        #[trigger] row(annotations(list)) == annotations_exprs(list),
    decreases list.len(),
{
    if list.len() == 0 {
        lemma_row_of_none();
        assert(annotations(list) =~= Seq::<Node>::empty());
    } else {
        let rest = list.drop_last();
        let last = list.last();
        lemma_row_of_annotations(rest);
        lemma_single_annotations(last);
        lemma_row_push(annotations(rest), Node::Annotation(last));
        assert(annotations(list) =~= annotations(rest).push(Node::Annotation(last)));
        assert(annotations_exprs(list) =~= annotations_exprs(rest) + annotations_exprs(seq![last]));
    }
}

proof fn lemma_single_with_items(x: WithItem)
    ensures
        with_items_exprs(seq![x]) == expression_exprs(x.context) + option_exprs(x.target),
{
    let list = seq![x];
    assert(list.drop_last() =~= Seq::<WithItem>::empty());
    assert(with_items_exprs(list.drop_last()) =~= Seq::<Expression>::empty());
    assert(list.last() == x);
    assert(with_items_exprs(list) =~= expression_exprs(x.context) + option_exprs(x.target));
}

broadcast proof fn lemma_row_of_with_items(list: Seq<WithItem>)
    ensures
        #[trigger] row(with_items(list)) == with_items_exprs(list),
    decreases list.len(),
{
    if list.len() == 0 {
        lemma_row_of_none();
        assert(with_items(list) =~= Seq::<Node>::empty());
    } else {
        let rest = list.drop_last();
        let last = list.last();
        lemma_row_of_with_items(rest);
        lemma_single_with_items(last);
        lemma_row_push(with_items(rest), Node::WithItem(last));
        assert(with_items(list) =~= with_items(rest).push(Node::WithItem(last)));
        assert(with_items_exprs(list) =~= with_items_exprs(rest) + with_items_exprs(seq![last]));
    }
}

proof fn lemma_single_cases(x: Case)
    ensures
        cases_exprs(seq![x])
            == pattern_exprs(x.pattern) + option_exprs(x.guard) + suite_exprs(x.body@),
{
    let list = seq![x];
    assert(list.drop_last() =~= Seq::<Case>::empty());
    assert(cases_exprs(list.drop_last()) =~= Seq::<Expression>::empty());
    assert(list.last() == x);
    assert(cases_exprs(list)
        =~= pattern_exprs(x.pattern) + option_exprs(x.guard) + suite_exprs(x.body@));
}

broadcast proof fn lemma_row_of_cases(list: Seq<Case>)
    ensures
        #[trigger] row(cases(list)) == cases_exprs(list),
    decreases list.len(),
{
    if list.len() == 0 {
        lemma_row_of_none();
        assert(cases(list) =~= Seq::<Node>::empty());
    } else {
        let rest = list.drop_last();
        let last = list.last();
        lemma_row_of_cases(rest);
        lemma_single_cases(last);
        lemma_row_push(cases(rest), Node::Case(last));
        assert(cases(list) =~= cases(rest).push(Node::Case(last)));
        assert(cases_exprs(list) =~= cases_exprs(rest) + cases_exprs(seq![last]));
    }
}

proof fn lemma_single_patterns(x: CasePattern)
    ensures
        patterns_exprs(seq![x]) == pattern_exprs(x),
{
    let list = seq![x];
    assert(list.drop_last() =~= Seq::<CasePattern>::empty());
    assert(patterns_exprs(list.drop_last()) =~= Seq::<Expression>::empty());
    assert(list.last() == x);
    assert(patterns_exprs(list) =~= pattern_exprs(x));
}

broadcast proof fn lemma_row_of_patterns(list: Seq<CasePattern>)
    ensures
        #[trigger] row(patterns(list)) == patterns_exprs(list),
    decreases list.len(),
{
    if list.len() == 0 {
        lemma_row_of_none();
        assert(patterns(list) =~= Seq::<Node>::empty());
    } else {
        let rest = list.drop_last();
        let last = list.last();
        lemma_row_of_patterns(rest);
        lemma_single_patterns(last);
        lemma_row_push(patterns(rest), Node::Pattern(last));
        assert(patterns(list) =~= patterns(rest).push(Node::Pattern(last)));
        assert(patterns_exprs(list) =~= patterns_exprs(rest) + patterns_exprs(seq![last]));
    }
}

proof fn lemma_single_generators(x: Generator)
    ensures
        generators_exprs(seq![x])
            == expression_exprs(x.iter) + expression_exprs(x.target) + list_exprs(x.ifs@),
{
    let list = seq![x];
    assert(list.drop_last() =~= Seq::<Generator>::empty());
    assert(generators_exprs(list.drop_last()) =~= Seq::<Expression>::empty());
    assert(list.last() == x);
    assert(generators_exprs(list)
        =~= expression_exprs(x.iter) + expression_exprs(x.target) + list_exprs(x.ifs@));
}

broadcast proof fn lemma_row_of_generators(list: Seq<Generator>)
    ensures
        #[trigger] row(generators(list)) == generators_exprs(list),
    decreases list.len(),
{
    if list.len() == 0 {
        lemma_row_of_none();
        assert(generators(list) =~= Seq::<Node>::empty());
    } else {
        let rest = list.drop_last();
        let last = list.last();
        lemma_row_of_generators(rest);
        lemma_single_generators(last);
        lemma_row_push(generators(rest), Node::Generator(last));
        assert(generators(list) =~= generators(rest).push(Node::Generator(last)));
        assert(generators_exprs(list) =~= generators_exprs(rest) + generators_exprs(seq![last]));
    }
}

proof fn lemma_single_string_parts(x: StringPart)
    ensures
        string_parts_exprs(seq![x]) == elements_exprs(x.elements@),
{
    let list = seq![x];
    assert(list.drop_last() =~= Seq::<StringPart>::empty());
    assert(string_parts_exprs(list.drop_last()) =~= Seq::<Expression>::empty());
    assert(list.last() == x);
    assert(string_parts_exprs(list) =~= elements_exprs(x.elements@));
}

broadcast proof fn lemma_row_of_string_parts(list: Seq<StringPart>)
    ensures
        #[trigger] row(string_parts(list)) == string_parts_exprs(list),
    decreases list.len(),
{
    if list.len() == 0 {
        lemma_row_of_none();
        assert(string_parts(list) =~= Seq::<Node>::empty());
    } else {
        let rest = list.drop_last();
        let last = list.last();
        lemma_row_of_string_parts(rest);
        lemma_single_string_parts(last);
        lemma_row_push(string_parts(rest), Node::StringPart(last));
        assert(string_parts(list) =~= string_parts(rest).push(Node::StringPart(last)));
        assert(string_parts_exprs(list)
            =~= string_parts_exprs(rest) + string_parts_exprs(seq![last]));
    }
}

proof fn lemma_single_elements(x: StringElement)
    ensures
        elements_exprs(seq![x]) == element_exprs(x),
{
    let list = seq![x];
    assert(list.drop_last() =~= Seq::<StringElement>::empty());
    assert(elements_exprs(list.drop_last()) =~= Seq::<Expression>::empty());
    assert(list.last() == x);
    assert(elements_exprs(list) =~= element_exprs(x));
}

broadcast proof fn lemma_row_of_elements(list: Seq<StringElement>)
    ensures
        #[trigger] row(elements(list)) == elements_exprs(list),
    decreases list.len(),
{
    if list.len() == 0 {
        lemma_row_of_none();
        assert(elements(list) =~= Seq::<Node>::empty());
    } else {
        let rest = list.drop_last();
        let last = list.last();
        lemma_row_of_elements(rest);
        lemma_single_elements(last);
        lemma_row_push(elements(rest), Node::Element(last));
        assert(elements(list) =~= elements(rest).push(Node::Element(last)));
        assert(elements_exprs(list) =~= elements_exprs(rest) + elements_exprs(seq![last]));
    }
}

proof fn lemma_single_items(x: DictItem)
    ensures
        items_exprs(seq![x]) == option_exprs(x.key) + expression_exprs(x.value),
{
    let list = seq![x];
    assert(list.drop_last() =~= Seq::<DictItem>::empty());
    assert(items_exprs(list.drop_last()) =~= Seq::<Expression>::empty());
    assert(list.last() == x);
    assert(items_exprs(list) =~= option_exprs(x.key) + expression_exprs(x.value));
}

broadcast proof fn lemma_row_of_items(list: Seq<DictItem>)
    ensures
        #[trigger] row(items(list)) == items_exprs(list),
    decreases list.len(),
{
    if list.len() == 0 {
        lemma_row_of_none();
        assert(items(list) =~= Seq::<Node>::empty());
    } else {
        let rest = list.drop_last();
        let last = list.last();
        lemma_row_of_items(rest);
        lemma_single_items(last);
        lemma_row_push(items(rest), Node::Item(last));
        assert(items(list) =~= items(rest).push(Node::Item(last)));
        assert(items_exprs(list) =~= items_exprs(rest) + items_exprs(seq![last]));
    }
}

proof fn lemma_single_decorators(x: Decorator)
    ensures
        decorators_exprs(seq![x]) == expression_exprs(x.expression),
{
    let list = seq![x];
    assert(list.drop_last() =~= Seq::<Decorator>::empty());
    assert(decorators_exprs(list.drop_last()) =~= Seq::<Expression>::empty());
    assert(list.last() == x);
    assert(decorators_exprs(list) =~= expression_exprs(x.expression));
}

broadcast proof fn lemma_row_of_decorators(list: Seq<Decorator>)
    ensures
        #[trigger] row(decorators(list)) == decorators_exprs(list),
    decreases list.len(),
{
    if list.len() == 0 {
        lemma_row_of_none();
        assert(decorators(list) =~= Seq::<Node>::empty());
    } else {
        let rest = list.drop_last();
        let last = list.last();
        lemma_row_of_decorators(rest);
        lemma_single_decorators(last);
        lemma_row_push(decorators(rest), Node::Decorator(last));
        assert(decorators(list) =~= decorators(rest).push(Node::Decorator(last)));
        assert(decorators_exprs(list) =~= decorators_exprs(rest) + decorators_exprs(seq![last]));
    }
}

broadcast proof fn lemma_row_of_present(expr: Option<Expression>)
    ensures
        #[trigger] row(present(expr)) == option_exprs(expr),
{
    match expr {
        Some(e) => {
            lemma_row_of_one(Node::Expression(e));
            lemma_single_expressions(e);
        },
        None => {
            lemma_row_of_none();
        },
    }
}

broadcast proof fn lemma_row_of_unboxed(expr: Option<Box<Expression>>)
    ensures
        #[trigger] row(unboxed(expr)) == boxed_exprs(expr),
{
    match expr {
        Some(e) => {
            lemma_row_of_one(Node::Expression(*e));
            lemma_single_expressions(*e);
        },
        None => {
            lemma_row_of_none();
        },
    }
}

broadcast proof fn lemma_row_of_an_expression(expr: Expression)
    ensures
        #[trigger] row(one(expr)) == expression_exprs(expr),
{
    lemma_row_of_one(Node::Expression(expr));
    lemma_single_expressions(expr);
}

broadcast proof fn lemma_row_of_annotated(parameter: Option<Param>)
    ensures
        #[trigger] row(annotated(parameter)) == variadic_exprs(parameter),
{
    match parameter {
        Some(p) => {
            lemma_row_of_present(p.annotation);
        },
        None => {
            lemma_row_of_none();
        },
    }
}

broadcast group group_rows {
    lemma_row_of_both,
    lemma_row_of_present,
    lemma_row_of_unboxed,
    lemma_row_of_an_expression,
    lemma_row_of_annotated,
    lemma_row_of_statements,
    lemma_row_of_expressions,
    lemma_row_of_clauses,
    lemma_row_of_handlers,
    lemma_row_of_type_params,
    lemma_row_of_defaults,
    lemma_row_of_annotations,
    lemma_row_of_with_items,
    lemma_row_of_cases,
    lemma_row_of_patterns,
    lemma_row_of_generators,
    lemma_row_of_string_parts,
    lemma_row_of_elements,
    lemma_row_of_items,
    lemma_row_of_decorators,
}

broadcast proof fn lemma_row_of_parameters(p: ParamList)
    ensures
        #[trigger] row(parameter_parts(p)) == parameters_exprs(p),
{
    broadcast use group_rows;

}

proof fn lemma_statement(s: Statement)
    ensures
        statement_exprs(s) == row(statement_nodes(s)),
{
    broadcast use {group_rows, lemma_row_of_parameters};

    lemma_row_of_none();
}

proof fn lemma_expression(e: Expression)
    ensures
        expression_exprs(e) == seq![e] + row(expression_nodes(e)),
{
    broadcast use {group_rows, lemma_row_of_parameters};

    lemma_row_of_none();
    if let ExprKind::Lambda { parameters, body } = e.kind {
        if let Some(p) = parameters {
            assert(boxed_parameters_exprs(parameters) == parameters_exprs(*p));
        } else {
            assert(boxed_parameters_exprs(parameters) =~= Seq::<Expression>::empty());
        }
        assert(operand_exprs(e) =~= row(expression_nodes(e)));
    }
    assert(operand_exprs(e) =~= row(expression_nodes(e)));
}

proof fn lemma_pattern(p: CasePattern)
    ensures
        pattern_exprs(p) == row(pattern_nodes(p)),
{
    broadcast use group_rows;

    lemma_row_of_none();
    if let CasePattern::As { pattern } = p {
        if let Some(q) = pattern {
            lemma_row_of_one(Node::Pattern(*q));
            lemma_single_patterns(*q);
        }
    }
}

/// What is listed for a part is itself, where it is an expression, and then what
/// is listed for its direct parts, all of them, one after the other.
pub proof fn law_every_part_is_listed(node: Node)
    ensures
        listed_in(node) == (if let Node::Expression(e) = node {
            seq![e]
        } else {
            Seq::empty()
        }) + row(inner(node)),
{
    broadcast use group_rows;

    lemma_row_of_none();
    let own = if let Node::Expression(e) = node {
        seq![e]
    } else {
        Seq::<Expression>::empty()
    };
    match node {
        Node::Statement(s) => {
            lemma_single_statements(s);
            lemma_statement(s);
        },
        Node::Expression(e) => {
            lemma_single_expressions(e);
            lemma_expression(e);
        },
        Node::Clause(c) => lemma_single_clauses(c),
        Node::Handler(h) => lemma_single_handlers(h),
        Node::TypeParam(p) => lemma_single_type_params(p),
        Node::Default(p) => lemma_single_defaults(p),
        Node::Annotation(p) => lemma_single_annotations(p),
        Node::WithItem(w) => lemma_single_with_items(w),
        Node::Case(c) => {
            lemma_single_cases(c);
            lemma_row_of_one(Node::Pattern(c.pattern));
            lemma_single_patterns(c.pattern);
        },
        Node::Pattern(p) => {
            lemma_single_patterns(p);
            lemma_pattern(p);
        },
        Node::Generator(g) => lemma_single_generators(g),
        Node::StringPart(p) => lemma_single_string_parts(p),
        Node::Element(e) => {
            lemma_single_elements(e);
            match e {
                StringElement::Text => {},
                StringElement::Interpolation { value, format } => {
                    if format is None {
                        assert(row(inner(node)) =~= expression_exprs(value));
                    }
                    assert(element_exprs(e) =~= row(inner(node)));
                },
            }
        },
        Node::Item(i) => lemma_single_items(i),
        Node::Decorator(d) => lemma_single_decorators(d),
    }
    assert(listed_in(node) =~= own + row(inner(node)));
}

proof fn lemma_row_has(nodes: Seq<Node>, k: int, e: Expression)
    requires
        0 <= k < nodes.len(),
        listed_in(nodes[k]).contains(e),
    ensures
        row(nodes).contains(e),
{
    let before = nodes.take(k);
    let part = seq![nodes[k]];
    let rest = nodes.skip(k + 1);
    assert(before + part + rest =~= nodes);
    lemma_row_of_both(before + part, rest);
    lemma_row_of_both(before, part);
    lemma_row_of_one(nodes[k]);
    let own = listed_in(nodes[k]);
    let i = choose|i: int| 0 <= i < own.len() && own[i] == e;
    assert(row(nodes)[row(before).len() + i] == e);
}

/// An expression that is listed for a part of something is listed for the whole.
pub proof fn law_the_whole_lists_its_parts(node: Node, k: int, e: Expression)
    requires
        0 <= k < inner(node).len(),
        listed_in(inner(node)[k]).contains(e),
    ensures
        listed_in(node).contains(e),
{
    law_every_part_is_listed(node);
    lemma_row_has(inner(node), k, e);
    let own: Seq<Expression> = if let Node::Expression(x) = node {
        seq![x]
    } else {
        Seq::empty()
    };
    let i = choose|i: int| 0 <= i < row(inner(node)).len() && row(inner(node))[i] == e;
    assert(listed_in(node)[own.len() + i] == e);
}

/// The expressions of a module are those of its statements, one after the other.
pub proof fn law_every_statement_is_listed(suite: Seq<Statement>)
    ensures
        suite_exprs(suite) == row(suite.map_values(|s: Statement| Node::Statement(s))),
{
    lemma_row_of_statements(suite);
}

/// Of the expressions of a module, the float literals are picked, in their order.
pub proof fn law_float_literals_are_picked(list: Seq<Expression>)
    ensures
        floats_among(list) == list.filter_map(
            |e: Expression|
                match e.kind {
                    ExprKind::NumberLiteral { value } => match value {
                        Number::Float(bits) => Some(bits),
                        _ => None,
                    },
                    _ => None,
                },
        ),
    decreases list.len(),
{
    let pick = |e: Expression|
        match e.kind {
            ExprKind::NumberLiteral { value } => match value {
                Number::Float(bits) => Some(bits),
                _ => None,
            },
            _ => None,
        };
    if list.len() > 0 {
        law_float_literals_are_picked(list.drop_last());
        assert(floats_among(list) =~= list.filter_map(pick));
    }
}

} // verus!
