//! Python source text to syntax tree.
//!
//! The parser and its tree come from the `ruff` crates. Each reader below
//! takes one node of that tree and hands out the library's node for it,
//! field by field.
use crate::ast::{
    Alias, Case, CasePattern, ClassDef, Clause, Decorator, DictItem, Expression, ExprKind,
    FunctionDef, Generator, Handler, Module, Number, Param, ParamList, Span, Statement, StmtKind,
    StringElement, StringPart, TypeParam, WithItem,
};
use crate::text;
use ruff_python_ast as python;
use ruff_text_size::Ranged;
use vstd::prelude::*;

verus! {

/// `ruff_python_ast::Stmt`, carried but not looked into.
#[verifier::external_type_specification]
#[verifier::external_body]
pub struct ExStmt(python::Stmt);

/// `ruff_python_ast::Expr`, carried but not looked into.
#[verifier::external_type_specification]
#[verifier::external_body]
pub struct ExExpr(python::Expr);

/// `ruff_python_ast::Parameters`, carried but not looked into.
#[verifier::external_type_specification]
#[verifier::external_body]
pub struct ExParameters(python::Parameters);

/// `ruff_python_ast::Parameter`, carried but not looked into.
#[verifier::external_type_specification]
#[verifier::external_body]
pub struct ExParameter(python::Parameter);

/// `ruff_python_ast::ParameterWithDefault`, carried but not looked into.
#[verifier::external_type_specification]
#[verifier::external_body]
pub struct ExParameterWithDefault(python::ParameterWithDefault);

/// `ruff_python_ast::Pattern`, carried but not looked into.
#[verifier::external_type_specification]
#[verifier::external_body]
pub struct ExPattern(python::Pattern);

/// `ruff_python_ast::InterpolatedStringElement`, carried but not looked into.
#[verifier::external_type_specification]
#[verifier::external_body]
pub struct ExInterpolatedStringElement(python::InterpolatedStringElement);

/// What `ruff_python_parser::parse_module` makes of a source text: the syntax
/// tree of a valid module, or the message for an invalid one.
pub uninterp spec fn parsed_module(source: Seq<char>) -> Result<Module, Seq<char>>;

/// A result with its error message read as a sequence of characters.
pub open spec fn outcome<T>(r: Result<T, String>) -> Result<T, Seq<char>> {
    match r {
        Ok(value) => Ok(value),
        Err(message) => Err(message@),
    }
}

/// Calls `ruff_python_parser::parse_module`, whose result depends on the
/// text alone, and reads its tree into the library's own. An error is
/// handed out as the message that it displays. The parser counts bytes in 32
/// bits and takes no longer text.
#[verifier::external_body]
pub fn parse_module(source: &str) -> (r: Result<Module, String>)
    requires
        text::bytes(source@).len() <= u32::MAX,
    ensures
        outcome(r) == parsed_module(source@),
{
    ruff_python_parser::parse_module(source).map(
        |parsed| Module { body: stmts(parsed.suite()) },
    ).map_err(|err| err.to_string())
}

/// Reads a slice of `ruff_python_ast::Stmt`.
#[verifier::external_body]
fn stmts(body: &[python::Stmt]) -> Vec<Statement> {
    body.iter().map(|s| Statement {
        span: Span { start: s.start().to_usize(), end: s.end().to_usize() },
        kind: definition(s),
    }).collect()
}

/// Reads the functions among `ruff_python_ast::Stmt`.
#[verifier::external_body]
fn definition(s: &python::Stmt) -> StmtKind {
    match s {
        python::Stmt::FunctionDef(f) => StmtKind::FunctionDef(FunctionDef {
            name: f.name.to_string(),
            decorators: decorators(s),
            type_params: type_params(s),
            parameters: parameters(&f.parameters),
            returns: option(&f.returns),
            body: stmts(&f.body),
        }),
        _ => class_stmt(s),
    }
}

/// Reads the classes among `ruff_python_ast::Stmt`.
#[verifier::external_body]
fn class_stmt(s: &python::Stmt) -> StmtKind {
    match s {
        python::Stmt::ClassDef(c) => StmtKind::ClassDef(ClassDef {
            name: c.name.to_string(),
            decorators: decorators(s),
            type_params: type_params(s),
            bases: exprs(c.bases()),
            keywords: c.keywords().iter().map(|k| expr(&k.value)).collect(),
            body: stmts(&c.body),
        }),
        _ => block_stmt(s),
    }
}

/// Reads the `ruff_python_ast::Decorator`s of a definition.
#[verifier::external_body]
fn decorators(s: &python::Stmt) -> Vec<Decorator> {
    let list = match s {
        python::Stmt::FunctionDef(f) => &f.decorator_list,
        python::Stmt::ClassDef(c) => &c.decorator_list,
        _ => return vec![],
    };
    list.iter().map(|d| Decorator {
        span: Span { start: d.start().to_usize(), end: d.end().to_usize() },
        expression: expr(&d.expression),
    }).collect()
}

/// Reads the `ruff_python_ast::TypeParams` of a definition or an alias.
#[verifier::external_body]
fn type_params(s: &python::Stmt) -> Vec<TypeParam> {
    let params = match s {
        python::Stmt::FunctionDef(f) => &f.type_params,
        python::Stmt::ClassDef(c) => &c.type_params,
        python::Stmt::TypeAlias(t) => &t.type_params,
        _ => return vec![],
    };
    params.iter().flat_map(|p| p.iter()).map(|p| match p {
        python::TypeParam::TypeVar(v) => TypeParam { bound: option(&v.bound),
            default: option(&v.default) },
        python::TypeParam::TypeVarTuple(v) => TypeParam { bound: None, default: option(&v.default) },
        python::TypeParam::ParamSpec(v) => TypeParam { bound: None, default: option(&v.default) },
    }).collect()
}

/// Reads a `ruff_python_ast::Parameter`.
#[verifier::external_body]
fn variadic(p: &Option<Box<python::Parameter>>) -> Option<Param> {
    p.as_deref().map(|q| Param { annotation: option(&q.annotation), default: None })
}

/// Reads a slice of `ruff_python_ast::ParameterWithDefault`.
#[verifier::external_body]
fn plain_parameters(list: &[python::ParameterWithDefault]) -> Vec<Param> {
    list.iter().map(|p| Param {
        annotation: option(&p.parameter.annotation),
        default: option(&p.default),
    }).collect()
}

/// Reads `ruff_python_ast::Parameters`.
#[verifier::external_body]
fn parameters(p: &python::Parameters) -> ParamList {
    ParamList {
        positional_only: plain_parameters(&p.posonlyargs),
        positional: plain_parameters(&p.args),
        variadic: variadic(&p.vararg),
        keyword_only: plain_parameters(&p.kwonlyargs),
        keyword_variadic: variadic(&p.kwarg),
    }
}

/// Reads the loops and conditionals among `ruff_python_ast::Stmt`.
#[verifier::external_body]
fn block_stmt(s: &python::Stmt) -> StmtKind {
    match s {
        python::Stmt::For(f) => StmtKind::For { target: expr(&f.target), iter: expr(&f.iter),
            body: stmts(&f.body), orelse: stmts(&f.orelse) },
        python::Stmt::While(w) => StmtKind::While { test: expr(&w.test), body: stmts(&w.body),
            orelse: stmts(&w.orelse) },
        python::Stmt::If(i) => StmtKind::If { test: expr(&i.test), body: stmts(&i.body),
            clauses: i.elif_else_clauses.iter().map(|c| Clause {
                test: c.test.as_ref().map(expr), body: stmts(&c.body),
            }).collect() },
        _ => guarded_stmt(s),
    }
}

/// Reads the `with` and `try` statements among `ruff_python_ast::Stmt`.
#[verifier::external_body]
fn guarded_stmt(s: &python::Stmt) -> StmtKind {
    match s {
        python::Stmt::With(w) => StmtKind::With { items: w.items.iter().map(|i| WithItem {
            context: expr(&i.context_expr), target: option(&i.optional_vars),
        }).collect(), body: stmts(&w.body) },
        python::Stmt::Try(t) => StmtKind::Try { body: stmts(&t.body),
            handlers: t.handlers.iter().map(|python::ExceptHandler::ExceptHandler(h)| Handler {
                exception: option(&h.type_), body: stmts(&h.body),
            }).collect(),
            orelse: stmts(&t.orelse), finalbody: stmts(&t.finalbody) },
        _ => simple_stmt(s),
    }
}

/// Reads the assignments and the like among `ruff_python_ast::Stmt`.
#[verifier::external_body]
fn simple_stmt(s: &python::Stmt) -> StmtKind {
    match s {
        python::Stmt::Return(r) => StmtKind::Return { value: option(&r.value) },
        python::Stmt::Delete(d) => StmtKind::Delete { targets: exprs(&d.targets) },
        python::Stmt::Assign(a) => StmtKind::Assign { targets: exprs(&a.targets),
            value: expr(&a.value) },
        python::Stmt::AugAssign(a) => StmtKind::AugAssign { target: expr(&a.target),
            op: a.op.as_str(), value: expr(&a.value) },
        python::Stmt::AnnAssign(a) => StmtKind::AnnAssign { target: expr(&a.target),
            annotation: expr(&a.annotation), value: option(&a.value) },
        _ => plain_stmt(s),
    }
}

/// Reads the other statements that are told apart among `ruff_python_ast::Stmt`.
#[verifier::external_body]
fn plain_stmt(s: &python::Stmt) -> StmtKind {
    match s {
        python::Stmt::Raise(r) => StmtKind::Raise { exception: option(&r.exc),
            cause: option(&r.cause) },
        python::Stmt::Assert(a) => StmtKind::Assert { test: expr(&a.test), msg: option(&a.msg) },
        python::Stmt::Expr(e) => StmtKind::Expr { value: expr(&e.value) },
        python::Stmt::Pass(_) => StmtKind::Pass,
        python::Stmt::Break(_) => StmtKind::Break,
        python::Stmt::Continue(_) => StmtKind::Continue,
        _ => import_stmt(s),
    }
}

/// Reads the imports from modules among `ruff_python_ast::Stmt`.
#[verifier::external_body]
fn import_stmt(s: &python::Stmt) -> StmtKind {
    match s {
        python::Stmt::ImportFrom(i) => StmtKind::ImportFrom {
            module: i.module.as_ref().map(|m| m.to_string()),
            names: i.names.iter().map(|n| Alias {
                name: n.name.to_string(),
                asname: n.asname.as_ref().map(|a| a.to_string()),
            }).collect(),
            level: i.level,
        },
        _ => case_stmt(s),
    }
}

/// Reads the `match` and `type` statements among `ruff_python_ast::Stmt`, and
/// the rest, which hold nothing that is read.
#[verifier::external_body]
fn case_stmt(s: &python::Stmt) -> StmtKind {
    match s {
        python::Stmt::Match(m) => StmtKind::Match { subject: expr(&m.subject),
            cases: m.cases.iter().map(|c| Case { pattern: pattern(&c.pattern),
                guard: option(&c.guard), body: stmts(&c.body) }).collect() },
        python::Stmt::TypeAlias(t) => StmtKind::TypeAlias { name: expr(&t.name),
            type_params: type_params(s), value: expr(&t.value) },
        _ => StmtKind::Other,
    }
}

/// Reads a `ruff_python_ast::Pattern`.
#[verifier::external_body]
fn pattern(p: &python::Pattern) -> CasePattern {
    match p {
        python::Pattern::MatchValue(v) => CasePattern::Value { value: expr(&v.value) },
        python::Pattern::MatchSequence(s) => CasePattern::Sequence {
            patterns: patterns(&s.patterns) },
        python::Pattern::MatchAs(a) => CasePattern::As {
            pattern: a.pattern.as_deref().map(|q| Box::new(pattern(q))) },
        python::Pattern::MatchOr(o) => CasePattern::Or { patterns: patterns(&o.patterns) },
        _ => keyed_pattern(p),
    }
}

/// Reads the mapping and class forms of a `ruff_python_ast::Pattern`, and the
/// rest, which hold nothing that is read.
#[verifier::external_body]
fn keyed_pattern(p: &python::Pattern) -> CasePattern {
    match p {
        python::Pattern::MatchMapping(m) => CasePattern::Mapping { keys: exprs(&m.keys),
            patterns: patterns(&m.patterns) },
        python::Pattern::MatchClass(c) => CasePattern::Class { class: expr(&c.cls),
            patterns: patterns(&c.arguments.patterns),
            keywords: c.arguments.keywords.iter().map(|k| pattern(&k.pattern)).collect() },
        _ => CasePattern::Plain,
    }
}

/// Reads a slice of `ruff_python_ast::Pattern`.
#[verifier::external_body]
fn patterns(list: &[python::Pattern]) -> Vec<CasePattern> {
    list.iter().map(pattern).collect()
}

/// Reads a `ruff_python_ast::Expr`.
#[verifier::external_body]
fn expr(e: &python::Expr) -> Expression {
    Expression {
        span: Span { start: e.start().to_usize(), end: e.end().to_usize() },
        kind: operation(e),
    }
}

/// Reads a `ruff_python_ast::Expr` that is held in a box.
#[verifier::external_body]
fn boxed(e: &python::Expr) -> Box<Expression> {
    Box::new(expr(e))
}

/// Reads an optional `ruff_python_ast::Expr`.
#[verifier::external_body]
fn option(e: &Option<Box<python::Expr>>) -> Option<Expression> {
    e.as_deref().map(expr)
}

/// Reads a slice of `ruff_python_ast::Expr`.
#[verifier::external_body]
fn exprs(list: &[python::Expr]) -> Vec<Expression> {
    list.iter().map(expr).collect()
}

/// Reads the operations among `ruff_python_ast::Expr`.
#[verifier::external_body]
fn operation(e: &python::Expr) -> ExprKind {
    match e {
        python::Expr::BoolOp(b) => ExprKind::BoolOp { op: b.op.as_str(),
            values: exprs(&b.values) },
        python::Expr::BinOp(b) => ExprKind::BinOp { left: boxed(&b.left), op: b.op.as_str(),
            right: boxed(&b.right) },
        python::Expr::UnaryOp(u) => ExprKind::UnaryOp { op: u.op.as_str(),
            operand: boxed(&u.operand) },
        python::Expr::Compare(c) => ExprKind::Compare { left: boxed(&c.left),
            ops: c.ops.iter().map(|op| op.as_str()).collect(),
            comparators: exprs(&c.comparators) },
        _ => access(e),
    }
}

/// Reads the names, accesses and calls among `ruff_python_ast::Expr`.
#[verifier::external_body]
fn access(e: &python::Expr) -> ExprKind {
    match e {
        python::Expr::Name(n) => ExprKind::Name { id: n.id.to_string() },
        python::Expr::Attribute(a) => ExprKind::Attribute { value: boxed(&a.value),
            attr: a.attr.to_string() },
        python::Expr::Subscript(s) => ExprKind::Subscript { value: boxed(&s.value),
            slice: boxed(&s.slice) },
        python::Expr::Starred(s) => ExprKind::Starred { value: boxed(&s.value) },
        python::Expr::Call(c) => ExprKind::Call { func: boxed(&c.func),
            args: exprs(&c.arguments.args),
            keywords: c.arguments.keywords.iter().map(|k| expr(&k.value)).collect() },
        _ => display(e),
    }
}

/// Reads the displays and conditionals among `ruff_python_ast::Expr`.
#[verifier::external_body]
fn display(e: &python::Expr) -> ExprKind {
    match e {
        python::Expr::List(l) => ExprKind::List { elts: exprs(&l.elts) },
        python::Expr::Tuple(t) => ExprKind::Tuple { elts: exprs(&t.elts) },
        python::Expr::Set(s) => ExprKind::SetDisplay { elts: exprs(&s.elts) },
        python::Expr::Dict(d) => ExprKind::Dict { items: d.items.iter().map(|i| DictItem {
            key: i.key.as_ref().map(expr), value: expr(&i.value),
        }).collect() },
        python::Expr::If(i) => ExprKind::If { test: boxed(&i.test), body: boxed(&i.body),
            orelse: boxed(&i.orelse) },
        _ => literal(e),
    }
}

/// Reads the literals and binding forms among `ruff_python_ast::Expr`.
#[verifier::external_body]
fn literal(e: &python::Expr) -> ExprKind {
    match e {
        python::Expr::StringLiteral(s) => ExprKind::StringLiteral { value: s.value.to_string() },
        python::Expr::NumberLiteral(_) => ExprKind::NumberLiteral { value: number(e) },
        python::Expr::BooleanLiteral(b) => ExprKind::BooleanLiteral { value: b.value },
        python::Expr::Named(n) => ExprKind::Named { target: boxed(&n.target),
            value: boxed(&n.value) },
        python::Expr::Lambda(l) => ExprKind::Lambda { body: boxed(&l.body),
            parameters: l.parameters.as_deref().map(|p| Box::new(parameters(p))) },
        _ => suspended(e),
    }
}

/// Reads the value of a `ruff_python_ast::ExprNumberLiteral`.
#[verifier::external_body]
fn number(e: &python::Expr) -> Number {
    match e {
        python::Expr::NumberLiteral(n) => match &n.value {
            python::Number::Int(i) => Number::Int(i.as_i64()),
            python::Number::Float(x) => Number::Float(x.to_bits()),
            python::Number::Complex { .. } => Number::Complex,
        },
        _ => Number::Complex,
    }
}

/// Reads an optional `ruff_python_ast::Expr` that is held in a box.
#[verifier::external_body]
fn boxed_option(e: &Option<Box<python::Expr>>) -> Option<Box<Expression>> {
    e.as_deref().map(boxed)
}

/// Reads the `await` and `yield` forms, the slices and the strings with
/// interpolations among `ruff_python_ast::Expr`.
#[verifier::external_body]
fn suspended(e: &python::Expr) -> ExprKind {
    match e {
        python::Expr::Await(a) => ExprKind::Await { value: boxed(&a.value) },
        python::Expr::Yield(y) => ExprKind::Yield { value: boxed_option(&y.value) },
        python::Expr::YieldFrom(y) => ExprKind::YieldFrom { value: boxed(&y.value) },
        python::Expr::Slice(s) => ExprKind::Slice { lower: boxed_option(&s.lower),
            upper: boxed_option(&s.upper), step: boxed_option(&s.step) },
        python::Expr::FString(_) | python::Expr::TString(_) => ExprKind::Template {
            parts: string_parts(e) },
        _ => comprehension(e),
    }
}

/// Reads the parts of a `ruff_python_ast::ExprFString` or
/// `ruff_python_ast::ExprTString`.
#[verifier::external_body]
fn string_parts(e: &python::Expr) -> Vec<StringPart> {
    match e {
        python::Expr::FString(f) => f.value.iter().map(|p| StringPart { elements: match p {
            python::FStringPart::Literal(_) => vec![],
            python::FStringPart::FString(s) => elements(&s.elements),
        } }).collect(),
        python::Expr::TString(t) => t.value.iter()
            .map(|s| StringPart { elements: elements(&s.elements) }).collect(),
        _ => vec![],
    }
}

/// Reads a slice of `ruff_python_ast::InterpolatedStringElement`.
#[verifier::external_body]
fn elements(list: &[python::InterpolatedStringElement]) -> Vec<StringElement> {
    list.iter().map(|e| match e {
        python::InterpolatedStringElement::Literal(_) => StringElement::Text,
        python::InterpolatedStringElement::Interpolation(i) => StringElement::Interpolation {
            value: expr(&i.expression),
            format: i.format_spec.as_deref().map(|s| elements(&s.elements)),
        },
    }).collect()
}

/// Reads the comprehensions among `ruff_python_ast::Expr`, and the rest, which
/// hold nothing that is read.
#[verifier::external_body]
fn comprehension(e: &python::Expr) -> ExprKind {
    match e {
        python::Expr::ListComp(c) => ExprKind::Comprehension { generators: generators(e),
            key: None, value: boxed(&c.elt) },
        python::Expr::SetComp(c) => ExprKind::Comprehension { generators: generators(e),
            key: None, value: boxed(&c.elt) },
        python::Expr::Generator(c) => ExprKind::Comprehension { generators: generators(e),
            key: None, value: boxed(&c.elt) },
        python::Expr::DictComp(c) => ExprKind::Comprehension { generators: generators(e),
            key: boxed_option(&c.key), value: boxed(&c.value) },
        _ => ExprKind::Other,
    }
}

/// Reads the `ruff_python_ast::Comprehension` clauses of a comprehension.
#[verifier::external_body]
fn generators(e: &python::Expr) -> Vec<Generator> {
    let list = match e {
        python::Expr::ListComp(c) => &c.generators,
        python::Expr::SetComp(c) => &c.generators,
        python::Expr::Generator(c) => &c.generators,
        python::Expr::DictComp(c) => &c.generators,
        _ => return vec![],
    };
    list.iter().map(|g| Generator {
        target: expr(&g.target),
        iter: expr(&g.iter),
        ifs: exprs(&g.ifs),
    }).collect()
}

} // verus!
