//! Syntax tree of a Python module, as far as mutation testing reads it.
//!
//! Positions are byte offsets into the source text, and an operator is kept
//! as its spelling, such as `+` or `is not`. Constructs that hold no
//! expression or statement are kept as [`ExprKind::Other`] and
//! [`StmtKind::Other`].
use vstd::prelude::*;

verus! {

/// A byte range of the source text.
#[derive(Debug, Clone, Copy, PartialEq, Eq, Structural)]
pub struct Span {
    /// Offset of the first byte.
    pub start: usize,
    /// Offset after the last byte.
    pub end: usize,
}

impl Span {
    /// Whether `offset` lies in the range, its end not counted.
    pub open spec fn holds(self, offset: int) -> bool {
        self.start <= offset < self.end
    }

    /// Whether `offset` lies in the range, its end not counted.
    pub fn contains(&self, offset: usize) -> (r: bool)
        ensures
            r == self.holds(offset as int),
    {
        self.start <= offset && offset < self.end
    }
}

/// Value of a number literal.
#[derive(Debug, Clone, Copy, PartialEq, Eq, Structural)]
pub enum Number {
    /// An integer, when it fits in 64 bits with a sign.
    Int(Option<i64>),
    /// A float, as the bits of its double-precision encoding.
    Float(u64),
    /// A complex number.
    Complex,
}

/// An expression.
#[derive(Debug)]
pub struct Expression {
    pub span: Span,
    pub kind: ExprKind,
}

/// What an expression is.
#[derive(Debug)]
#[allow(inconsistent_fields)]
pub enum ExprKind {
    BoolOp { op: &'static str, values: Vec<Expression> },
    Named { target: Box<Expression>, value: Box<Expression> },
    BinOp { left: Box<Expression>, op: &'static str, right: Box<Expression> },
    UnaryOp { op: &'static str, operand: Box<Expression> },
    Lambda { parameters: Option<Box<ParamList>>, body: Box<Expression> },
    If { test: Box<Expression>, body: Box<Expression>, orelse: Box<Expression> },
    Dict { items: Vec<DictItem> },
    SetDisplay { elts: Vec<Expression> },
    Compare { left: Box<Expression>, ops: Vec<&'static str>, comparators: Vec<Expression> },
    /// `keywords` holds the values of the keyword arguments.
    Call { func: Box<Expression>, args: Vec<Expression>, keywords: Vec<Expression> },
    StringLiteral { value: String },
    NumberLiteral { value: Number },
    BooleanLiteral { value: bool },
    Attribute { value: Box<Expression>, attr: String },
    Subscript { value: Box<Expression>, slice: Box<Expression> },
    Starred { value: Box<Expression> },
    Name { id: String },
    List { elts: Vec<Expression> },
    Tuple { elts: Vec<Expression> },
    Await { value: Box<Expression> },
    Yield { value: Option<Box<Expression>> },
    YieldFrom { value: Box<Expression> },
    Slice { lower: Option<Box<Expression>>, upper: Option<Box<Expression>>, step: Option<Box<Expression>> },
    /// A string with interpolations, by its parts that stand side by side.
    Template { parts: Vec<StringPart> },
    /// `key` is that of a dict comprehension.
    Comprehension { generators: Vec<Generator>, key: Option<Box<Expression>>, value: Box<Expression> },
    /// Any other expression.
    Other,
}

/// One part of a string with interpolations. A plain part has no elements.
#[derive(Debug)]
pub struct StringPart {
    pub elements: Vec<StringElement>,
}

/// An element of a string with interpolations.
#[derive(Debug)]
pub enum StringElement {
    /// Plain text.
    Text,
    /// An expression, with its format where it has one.
    Interpolation { value: Expression, format: Option<Vec<StringElement>> },
}

/// A `for` clause of a comprehension, with its conditions.
#[derive(Debug)]
pub struct Generator {
    pub target: Expression,
    pub iter: Expression,
    pub ifs: Vec<Expression>,
}

/// A parameter.
#[derive(Debug)]
pub struct Param {
    pub annotation: Option<Expression>,
    pub default: Option<Expression>,
}

/// The parameters of a function or a lambda. The variadic ones have no default.
#[derive(Debug)]
pub struct ParamList {
    pub positional_only: Vec<Param>,
    pub positional: Vec<Param>,
    pub variadic: Option<Param>,
    pub keyword_only: Vec<Param>,
    pub keyword_variadic: Option<Param>,
}

/// A type parameter.
#[derive(Debug)]
pub struct TypeParam {
    pub bound: Option<Expression>,
    pub default: Option<Expression>,
}

/// One entry of a dict display; `**value` has no key.
#[derive(Debug)]
pub struct DictItem {
    pub key: Option<Expression>,
    pub value: Expression,
}

/// A statement.
#[derive(Debug)]
pub struct Statement {
    pub span: Span,
    pub kind: StmtKind,
}

/// What a statement is.
#[derive(Debug)]
#[allow(inconsistent_fields)]
pub enum StmtKind {
    FunctionDef(FunctionDef),
    ClassDef(ClassDef),
    Return { value: Option<Expression> },
    Delete { targets: Vec<Expression> },
    Assign { targets: Vec<Expression>, value: Expression },
    AugAssign { target: Expression, op: &'static str, value: Expression },
    AnnAssign { target: Expression, annotation: Expression, value: Option<Expression> },
    For { target: Expression, iter: Expression, body: Vec<Statement>, orelse: Vec<Statement> },
    While { test: Expression, body: Vec<Statement>, orelse: Vec<Statement> },
    If { test: Expression, body: Vec<Statement>, clauses: Vec<Clause> },
    With { items: Vec<WithItem>, body: Vec<Statement> },
    Raise { exception: Option<Expression>, cause: Option<Expression> },
    Try { body: Vec<Statement>, handlers: Vec<Handler>, orelse: Vec<Statement>, finalbody: Vec<Statement> },
    Assert { test: Expression, msg: Option<Expression> },
    ImportFrom { module: Option<String>, names: Vec<Alias>, level: u32 },
    Expr { value: Expression },
    Pass,
    Break,
    Continue,
    Match { subject: Expression, cases: Vec<Case> },
    TypeAlias { name: Expression, type_params: Vec<TypeParam>, value: Expression },
    /// Any other statement.
    Other,
}

/// A function definition. Its statement's span starts at the first decorator.
#[derive(Debug)]
pub struct FunctionDef {
    pub name: String,
    pub decorators: Vec<Decorator>,
    pub type_params: Vec<TypeParam>,
    pub parameters: ParamList,
    pub returns: Option<Expression>,
    pub body: Vec<Statement>,
}

/// A class definition. Its statement's span starts at the first decorator.
#[derive(Debug)]
pub struct ClassDef {
    pub name: String,
    pub decorators: Vec<Decorator>,
    pub type_params: Vec<TypeParam>,
    pub bases: Vec<Expression>,
    /// Values of the keyword arguments.
    pub keywords: Vec<Expression>,
    pub body: Vec<Statement>,
}

/// A decorator, from its `@` on.
#[derive(Debug)]
pub struct Decorator {
    pub span: Span,
    pub expression: Expression,
}

/// An `elif` clause, or an `else` clause when there is no test.
#[derive(Debug)]
pub struct Clause {
    pub test: Option<Expression>,
    pub body: Vec<Statement>,
}

/// An `except` clause.
#[derive(Debug)]
pub struct Handler {
    pub exception: Option<Expression>,
    pub body: Vec<Statement>,
}

/// One name of a `from` import.
#[derive(Debug)]
pub struct Alias {
    pub name: String,
    pub asname: Option<String>,
}

/// One item of a `with` statement.
#[derive(Debug)]
pub struct WithItem {
    pub context: Expression,
    pub target: Option<Expression>,
}

/// A `case` of a `match` statement.
#[derive(Debug)]
pub struct Case {
    pub pattern: CasePattern,
    pub guard: Option<Expression>,
    pub body: Vec<Statement>,
}

/// A pattern of a `case`.
#[derive(Debug)]
#[allow(inconsistent_fields)]
pub enum CasePattern {
    Value { value: Expression },
    Sequence { patterns: Vec<CasePattern> },
    Mapping { keys: Vec<Expression>, patterns: Vec<CasePattern> },
    /// `keywords` holds the patterns of the keyword arguments.
    Class { class: Expression, patterns: Vec<CasePattern>, keywords: Vec<CasePattern> },
    As { pattern: Option<Box<CasePattern>> },
    Or { patterns: Vec<CasePattern> },
    /// A pattern that holds no expression.
    Plain,
}

/// A parsed Python module.
#[derive(Debug)]
pub struct Module {
    pub body: Vec<Statement>,
}

} // verus!
