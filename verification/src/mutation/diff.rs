//! Structured diffs of mutations, as the plugin backend applies them.
//!
//! [`derive_diff`] finds the definition or binding that a mutant changes and
//! cuts its new source out of the mutated text.
use crate::ast::{
    ClassDef, Clause, Decorator, ExprKind, Expression, FunctionDef, Handler, Module, Span,
    Statement, StmtKind,
};
use crate::lines;
use crate::mutation::mutant::{law_splice_replaces_only_the_region, spliced, Mutant, SkipReason};
use crate::text;
use crate::text::texts;
use vstd::prelude::*;

verus! {

/// Scope in which a [`MutationDiff::StatementBind`] should be executed.
#[derive(Debug, Clone, PartialEq, Eq)]
pub enum BindScope {
    /// Bind into the target module's `__dict__`.
    Module,
    /// Bind into a class's namespace. `qualname` is dotted (e.g. `Outer.Inner`).
    Class {
        /// Dotted qualified name of the target class.
        qualname: String,
    },
}

/// One unit of structural change derived from a [`Mutant`].
#[derive(Debug, Clone, PartialEq, Eq)]
#[allow(inconsistent_fields)]
pub enum MutationDiff {
    /// Function body changed. `qualname` may be dotted for nested functions.
    /// `new_source` is the raw `def` block with decorators stripped.
    FunctionBody {
        /// Dotted qualified name of the function (e.g. `outer.inner`).
        qualname: String,
        /// Full `def` block source with decorators stripped.
        new_source: String,
    },
    /// Module- or class-scope statement-level binding change.
    StatementBind {
        /// Names assigned by this statement. May have one entry (bare assign)
        /// or many (tuple unpack, chained `a = b = ...`).
        names: Vec<String>,
        /// Full mutated statement source.
        stmt_source: String,
        /// Target namespace.
        scope: BindScope,
    },
    /// Class method body changed. `method_name` uses a dotted suffix
    /// (`x.fget`, `.fset`, `.fdel`) for property accessors.
    ClassMethod {
        /// Dotted qualified name of the class (e.g. `Outer.Inner`).
        class_qualname: String,
        /// Name of the method, with the accessor suffix where there is one.
        method_name: String,
        /// Full `def` block source for the mutated method.
        new_source: String,
    },
    /// Module-level binding requiring statement-mode compilation
    /// (decorator removal, class re-definition).
    ModuleAttr {
        /// Name of the module-level binding.
        name: String,
        /// Full source of the new statement.
        new_source: String,
    },
}

/// A bind scope as a mathematical value.
pub enum ScopeView {
    Module,
    Class { qualname: Seq<char> },
}

/// A diff as a mathematical value.
#[allow(inconsistent_fields)]
pub enum DiffView {
    FunctionBody { qualname: Seq<char>, new_source: Seq<char> },
    StatementBind { names: Seq<Seq<char>>, stmt_source: Seq<char>, scope: ScopeView },
    ClassMethod { class_qualname: Seq<char>, method_name: Seq<char>, new_source: Seq<char> },
    ModuleAttr { name: Seq<char>, new_source: Seq<char> },
}

impl View for BindScope {
    type V = ScopeView;

    open spec fn view(&self) -> ScopeView {
        match self {
            BindScope::Module => ScopeView::Module,
            BindScope::Class { qualname } => ScopeView::Class { qualname: qualname@ },
        }
    }
}

impl View for MutationDiff {
    type V = DiffView;

    open spec fn view(&self) -> DiffView {
        match self {
            MutationDiff::FunctionBody { qualname, new_source } => DiffView::FunctionBody {
                qualname: qualname@,
                new_source: new_source@,
            },
            MutationDiff::StatementBind { names, stmt_source, scope } => DiffView::StatementBind {
                names: texts(names@),
                stmt_source: stmt_source@,
                scope: scope@,
            },
            MutationDiff::ClassMethod { class_qualname, method_name, new_source } =>
                DiffView::ClassMethod {
                class_qualname: class_qualname@,
                method_name: method_name@,
                new_source: new_source@,
            },
            MutationDiff::ModuleAttr { name, new_source } => DiffView::ModuleAttr {
                name: name@,
                new_source: new_source@,
            },
        }
    }
}

/// What a mutation does to the text around it.
pub struct Change {
    /// Where the replaced region starts.
    pub offset: int,
    /// By how many bytes the text grows.
    pub growth: int,
    /// The text with the mutation applied.
    pub mutated: Seq<char>,
}

/// The change that a mutant makes, seen in the mutated text.
pub open spec fn change(mutant: Mutant, mutated: Seq<char>) -> Change {
    Change {
        offset: mutant.byte_offset as int,
        growth: growth(mutant),
        mutated,
    }
}

/// By how many bytes a mutant makes the text grow.
pub open spec fn growth(mutant: Mutant) -> int {
    text::bytes(mutant.mutated_text@).len() - mutant.byte_length
}

/// Where a statement that ended at `end` ends in a text that grows by `growth`.
pub open spec fn moved_end(growth: int, end: int) -> int {
    if 0 <= end + growth <= usize::MAX {
        end + growth
    } else {
        end
    }
}

/// The end of a source moves to the end of the mutated source. Any other end
/// moves by what the text grows or shrinks, and stays where it was where that
/// would take it before the start.
pub proof fn law_ends_move_with_the_text(mutant: Mutant, source: Seq<char>, end: int)
    requires
        mutant.fits(source),
        text::bytes(source).len() < isize::MAX,
        text::bytes(mutant.mutated_text@).len() < isize::MAX,
        0 <= end < isize::MAX,
    ensures
        ({
            let mutated = spliced(
                source,
                mutant.byte_offset as int,
                mutant.byte_length as int,
                mutant.mutated_text@,
            );
            let moved = end + text::bytes(mutant.mutated_text@).len() - mutant.byte_length;
            &&& moved_end(growth(mutant), text::bytes(source).len() as int) == text::bytes(
                mutated,
            ).len()
            &&& moved_end(growth(mutant), end) == if moved >= 0 {
                moved
            } else {
                end
            }
        }),
{
    law_splice_replaces_only_the_region(
        source,
        mutant.byte_offset as int,
        mutant.byte_length as int,
        mutant.mutated_text@,
    );
}

/// The mutated text of a statement, or nothing where it cannot be cut out.
pub open spec fn mutated_text(c: Change, span: Span) -> Seq<char> {
    let end = moved_end(c.growth, span.end as int);
    if text::is_span(c.mutated, span.start as int, end) {
        text::span(c.mutated, span.start as int, end)
    } else {
        Seq::empty()
    }
}

/// Whether a line holds a decorator.
pub open spec fn is_decorator_line(line: Seq<char>) -> bool {
    lines::trim_start(line).len() > 0 && lines::trim_start(line)[0] == '@'
}

/// Lines without the decorator lines that they start with.
pub open spec fn after_decorators(list: Seq<Seq<char>>) -> Seq<Seq<char>>
    decreases list.len(),
{
    if list.len() > 0 && is_decorator_line(list[0]) {
        after_decorators(list.drop_first())
    } else {
        list
    }
}

/// A source block without its leading decorator lines, with plain newlines
/// and none at the end.
pub open spec fn undecorated(source: Seq<char>) -> Seq<char> {
    lines::join(after_decorators(lines::lines(source)), seq!['\n'])
}

/// A name inside a qualified scope.
pub open spec fn qualified(prefix: Seq<char>, name: Seq<char>) -> Seq<char> {
    if prefix.len() == 0 {
        name
    } else {
        prefix + "."@ + name
    }
}

/// The qualified name and the span of the innermost function that holds an
/// offset, given those of the function around `body`.
pub open spec fn innermost(body: Seq<Statement>, at: int, name: Seq<char>, own: Span) -> (
    Seq<char>,
    Span,
)
    decreases body,
{
    if body.len() == 0 {
        (name, own)
    } else if body[0].span.holds(at) && body[0].kind is FunctionDef {
        match body[0].kind {
            StmtKind::FunctionDef(f) => innermost(
                f.body@,
                at,
                qualified(name, f.name@),
                body[0].span,
            ),
            _ => (name, own),
        }
    } else {
        innermost(body.drop_first(), at, name, own)
    }
}

/// The diff for a mutation inside a function.
pub open spec fn function_diff(f: FunctionDef, span: Span, c: Change) -> DiffView {
    let (qualname, own) = innermost(f.body@, c.offset, f.name@, span);
    DiffView::FunctionBody { qualname, new_source: undecorated(mutated_text(c, own)) }
}

/// The names bound by an assignment target, unless part of it is not a name.
pub open spec fn target_names(target: Expression) -> Option<Seq<Seq<char>>>
    decreases target, 0nat,
{
    match target.kind {
        ExprKind::Name { id } => Some(seq![id@]),
        ExprKind::Tuple { elts } => all_target_names(elts@),
        ExprKind::List { elts } => all_target_names(elts@),
        _ => None,
    }
}

/// The names bound by targets in a row, unless part of one is not a name.
pub open spec fn all_target_names(targets: Seq<Expression>) -> Option<Seq<Seq<char>>>
    decreases targets, 1nat,
{
    if targets.len() == 0 {
        Some(Seq::empty())
    } else {
        match (all_target_names(targets.drop_last()), target_names(targets.last())) {
            (Some(init), Some(last)) => Some(init + last),
            _ => None,
        }
    }
}

/// The names that an assignment binds; none when a target is not made of
/// names, or when there is only an annotation.
pub open spec fn bound_names(kind: StmtKind) -> Seq<Seq<char>> {
    match kind {
        StmtKind::Assign { targets, .. } => match all_target_names(targets@) {
            Some(names) => names,
            None => Seq::empty(),
        },
        StmtKind::AnnAssign { target, value, .. } => if value is Some {
            match target.kind {
                ExprKind::Name { id } => seq![id@],
                _ => Seq::empty(),
            }
        } else {
            Seq::empty()
        },
        StmtKind::AugAssign { target, .. } => match target.kind {
            ExprKind::Name { id } => seq![id@],
            _ => Seq::empty(),
        },
        _ => Seq::empty(),
    }
}

/// The diff for a mutation of an assignment, when it binds names.
pub open spec fn bind_diff(stmt: Statement, c: Change, scope: ScopeView) -> Option<DiffView> {
    let names = bound_names(stmt.kind);
    if names.len() == 0 {
        None
    } else {
        Some(DiffView::StatementBind { names, stmt_source: mutated_text(c, stmt.span), scope })
    }
}

/// The property accessor that the first telling decorator makes of a method.
pub open spec fn accessor(decorators: Seq<Decorator>) -> Seq<char>
    decreases decorators.len(),
{
    if decorators.len() == 0 {
        ""@
    } else {
        match decorators[0].expression.kind {
            ExprKind::Name { id } => if id@ == "property"@ {
                "fget"@
            } else {
                accessor(decorators.drop_first())
            },
            ExprKind::Attribute { attr, .. } => if attr@ == "setter"@ {
                "fset"@
            } else if attr@ == "deleter"@ {
                "fdel"@
            } else {
                accessor(decorators.drop_first())
            },
            _ => accessor(decorators.drop_first()),
        }
    }
}

/// The name of a method, with its accessor where it has one.
pub open spec fn method_label(f: FunctionDef) -> Seq<char> {
    let suffix = accessor(f.decorators@);
    if suffix.len() == 0 {
        f.name@
    } else {
        f.name@ + "."@ + suffix
    }
}

/// The diff for a mutation inside the body of the class named `class`.
pub open spec fn class_diff(body: Seq<Statement>, class: Seq<char>, c: Change) -> Option<DiffView>
    decreases body,
{
    if body.len() == 0 {
        None
    } else if !body[0].span.holds(c.offset) {
        class_diff(body.drop_first(), class, c)
    } else {
        match body[0].kind {
            StmtKind::FunctionDef(f) => Some(
                DiffView::ClassMethod {
                    class_qualname: class,
                    method_name: method_label(f),
                    new_source: undecorated(mutated_text(c, body[0].span)),
                },
            ),
            StmtKind::ClassDef(inner) => class_diff(
                inner.body@,
                qualified(class, inner.name@),
                c,
            ),
            StmtKind::Assign { .. } => bind_diff(body[0], c, ScopeView::Class { qualname: class }),
            StmtKind::AnnAssign { .. } => bind_diff(
                body[0],
                c,
                ScopeView::Class { qualname: class },
            ),
            StmtKind::AugAssign { .. } => bind_diff(
                body[0],
                c,
                ScopeView::Class { qualname: class },
            ),
            _ => None,
        }
    }
}

/// The diff for a mutation inside a statement at module level.
pub open spec fn top_level_diff(stmt: Statement, c: Change) -> Option<DiffView> {
    match stmt.kind {
        StmtKind::FunctionDef(f) => Some(function_diff(f, stmt.span, c)),
        StmtKind::ClassDef(class) => class_diff(class.body@, class.name@, c),
        StmtKind::Assign { .. } => bind_diff(stmt, c, ScopeView::Module),
        StmtKind::AnnAssign { .. } => bind_diff(stmt, c, ScopeView::Module),
        StmtKind::AugAssign { .. } => bind_diff(stmt, c, ScopeView::Module),
        _ => None,
    }
}

/// The first diff of two.
pub open spec fn either(a: Option<DiffView>, b: Option<DiffView>) -> Option<DiffView> {
    match a {
        Some(d) => Some(d),
        None => b,
    }
}

/// The first diff in the branches of a control-flow statement.
pub open spec fn branch_diff(stmt: Statement, c: Change) -> Option<DiffView>
    decreases stmt, 0nat,
{
    match stmt.kind {
        StmtKind::If { body, clauses, .. } => either(
            suite_diff(body@, c),
            clauses_diff(clauses@, c),
        ),
        StmtKind::While { body, orelse, .. } => either(
            suite_diff(body@, c),
            suite_diff(orelse@, c),
        ),
        StmtKind::For { body, orelse, .. } => either(suite_diff(body@, c), suite_diff(orelse@, c)),
        StmtKind::Try { body, handlers, orelse, finalbody } => either(
            suite_diff(body@, c),
            either(
                suite_diff(orelse@, c),
                either(suite_diff(finalbody@, c), handlers_diff(handlers@, c)),
            ),
        ),
        _ => None,
    }
}

/// The first diff in a suite of statements inside a branch.
pub open spec fn suite_diff(suite: Seq<Statement>, c: Change) -> Option<DiffView>
    decreases suite, 1nat,
{
    if suite.len() == 0 {
        None
    } else if suite[0].span.holds(c.offset) {
        either(
            top_level_diff(suite[0], c),
            either(branch_diff(suite[0], c), suite_diff(suite.drop_first(), c)),
        )
    } else {
        suite_diff(suite.drop_first(), c)
    }
}

/// The first diff in the `elif` and `else` clauses of an `if`.
pub open spec fn clauses_diff(clauses: Seq<Clause>, c: Change) -> Option<DiffView>
    decreases clauses, 1nat,
{
    if clauses.len() == 0 {
        None
    } else {
        either(suite_diff(clauses[0].body@, c), clauses_diff(clauses.drop_first(), c))
    }
}

/// The first diff in the handlers of a `try`.
pub open spec fn handlers_diff(handlers: Seq<Handler>, c: Change) -> Option<DiffView>
    decreases handlers, 1nat,
{
    if handlers.len() == 0 {
        None
    } else {
        either(suite_diff(handlers[0].body@, c), handlers_diff(handlers.drop_first(), c))
    }
}

/// Whether an offset lies in the test of an `if` or `while`, or in the
/// iterable of a `for`.
pub open spec fn in_condition(kind: StmtKind, at: int) -> bool {
    match kind {
        StmtKind::If { test, .. } => test.span.holds(at),
        StmtKind::While { test, .. } => test.span.holds(at),
        StmtKind::For { iter, .. } => iter.span.holds(at),
        _ => false,
    }
}

/// The first of two reasons.
pub open spec fn first_reason(a: Option<SkipReason>, b: Option<SkipReason>) -> Option<SkipReason> {
    match a {
        Some(reason) => Some(reason),
        None => b,
    }
}

/// Why a mutation inside a statement has no diff, by the innermost statement
/// that holds it: it is in a condition, or in an assignment whose targets are
/// not names, or in a statement that cannot be bound on its own.
pub open spec fn skip_reason(stmt: Statement, at: int) -> SkipReason
    decreases stmt, 1nat,
{
    if in_condition(stmt.kind, at) {
        SkipReason::ConditionMutation
    } else {
        match inner_reason(stmt, at) {
            Some(reason) => reason,
            None => match stmt.kind {
                StmtKind::AnnAssign { value: Some(_), .. } => SkipReason::UnmappableTarget,
                StmtKind::Assign { .. } => SkipReason::UnmappableTarget,
                StmtKind::AugAssign { .. } => SkipReason::UnmappableTarget,
                _ => SkipReason::UnsupportedStatement,
            },
        }
    }
}

/// The reason for the statement that holds an offset in the branches of a
/// control-flow statement or the body of a class.
pub open spec fn inner_reason(stmt: Statement, at: int) -> Option<SkipReason>
    decreases stmt, 0nat,
{
    match stmt.kind {
        StmtKind::If { body, clauses, .. } => first_reason(
            suite_reason(body@, at),
            clauses_reason(clauses@, at),
        ),
        StmtKind::While { body, orelse, .. } => first_reason(
            suite_reason(body@, at),
            suite_reason(orelse@, at),
        ),
        StmtKind::For { body, orelse, .. } => first_reason(
            suite_reason(body@, at),
            suite_reason(orelse@, at),
        ),
        StmtKind::Try { body, handlers, orelse, finalbody } => first_reason(
            first_reason(suite_reason(body@, at), handlers_reason(handlers@, at)),
            first_reason(suite_reason(orelse@, at), suite_reason(finalbody@, at)),
        ),
        StmtKind::ClassDef(class) => suite_reason(class.body@, at),
        _ => None,
    }
}

/// The reason for the first statement of a suite that holds an offset.
pub open spec fn suite_reason(suite: Seq<Statement>, at: int) -> Option<SkipReason>
    decreases suite, 2nat,
{
    if suite.len() == 0 {
        None
    } else if suite[0].span.holds(at) {
        Some(skip_reason(suite[0], at))
    } else {
        suite_reason(suite.drop_first(), at)
    }
}

/// The reason for the first statement that holds an offset in the `elif` and
/// `else` clauses of an `if`.
pub open spec fn clauses_reason(clauses: Seq<Clause>, at: int) -> Option<SkipReason>
    decreases clauses, 2nat,
{
    if clauses.len() == 0 {
        None
    } else {
        first_reason(
            suite_reason(clauses[0].body@, at),
            clauses_reason(clauses.drop_first(), at),
        )
    }
}

/// The reason for the first statement that holds an offset in the handlers of
/// a `try`.
pub open spec fn handlers_reason(handlers: Seq<Handler>, at: int) -> Option<SkipReason>
    decreases handlers, 2nat,
{
    if handlers.len() == 0 {
        None
    } else {
        first_reason(
            suite_reason(handlers[0].body@, at),
            handlers_reason(handlers.drop_first(), at),
        )
    }
}

/// The diff for a mutation inside a statement of a module, or why there is none.
pub open spec fn statement_diff(stmt: Statement, c: Change) -> Result<DiffView, SkipReason> {
    match top_level_diff(stmt, c) {
        Some(d) => Ok(d),
        None => if in_condition(stmt.kind, c.offset) {
            Err(SkipReason::ConditionMutation)
        } else {
            match branch_diff(stmt, c) {
                Some(d) => Ok(d),
                None => Err(skip_reason(stmt, c.offset)),
            }
        },
    }
}

/// The diff for a mutation of a module, from the statement that holds it.
pub open spec fn module_diff(body: Seq<Statement>, c: Change) -> Result<DiffView, SkipReason>
    decreases body.len(),
{
    if body.len() == 0 {
        Err(SkipReason::UnsupportedStatement)
    } else if body[0].span.holds(c.offset) {
        statement_diff(body[0], c)
    } else {
        module_diff(body.drop_first(), c)
    }
}

/// The diff for the removal of a decorator, from the first definition of the
/// module that holds it.
pub open spec fn decorator_diff(body: Seq<Statement>, c: Change) -> Option<DiffView>
    decreases body.len(),
{
    if body.len() == 0 {
        None
    } else if body[0].span.holds(c.offset) && body[0].kind is FunctionDef {
        Some(
            DiffView::ModuleAttr {
                name: body[0].kind->FunctionDef_0.name@,
                new_source: undecorated(mutated_text(c, body[0].span)),
            },
        )
    } else if body[0].span.holds(c.offset) && body[0].kind is ClassDef {
        Some(
            DiffView::ModuleAttr {
                name: body[0].kind->ClassDef_0.name@,
                new_source: undecorated(mutated_text(c, body[0].span)),
            },
        )
    } else {
        decorator_diff(body.drop_first(), c)
    }
}

/// The diff for a mutant, or why it has none.
pub open spec fn mutant_diff(mutant: Mutant, body: Seq<Statement>, mutated: Seq<char>) -> Result<
    DiffView,
    SkipReason,
> {
    let c = change(mutant, mutated);
    if mutant.mutator_name@ == "remove_decorator"@ && decorator_diff(body, c) is Some {
        Ok(decorator_diff(body, c)->0)
    } else {
        module_diff(body, c)
    }
}

/// An optional diff as a mathematical value.
pub open spec fn viewed(d: Option<MutationDiff>) -> Option<DiffView> {
    match d {
        Some(d) => Some(d@),
        None => None,
    }
}

/// Compute the new end byte offset of a statement after a mutation is applied.
///
/// An end that cannot be moved stays where it was.
pub fn mutated_stmt_end(original_end: usize, mutant: &Mutant) -> (r: usize)
    ensures
        r == moved_end(growth(*mutant), original_end as int),
{
    let new_len: usize = mutant.mutated_text.as_str().as_bytes().len();
    let moved: i128 = original_end as i128 + new_len as i128 - mutant.byte_length as i128;
    if 0 <= moved && moved <= usize::MAX as i128 {
        moved as usize
    } else {
        original_end
    }
}

/// The mutated text of a statement.
fn cut_statement<'s>(span: Span, mutant: &Mutant, mutated_source: &'s str) -> (r: &'s str)
    ensures
        r@ == mutated_text(change(*mutant, mutated_source@), span),
{
    let end: usize = mutated_stmt_end(span.end, mutant);
    match text::slice(mutated_source, span.start, end) {
        Some(part) => part,
        None => {
            proof {
                reveal_strlit("");
                assert(""@ =~= Seq::<char>::empty());
            }
            ""
        },
    }
}

/// Whether a line holds a decorator.
fn starts_with_decorator(line: &Vec<char>) -> (r: bool)
    ensures
        r == is_decorator_line(line@),
{
    let at: usize = lines::skip_white(line);
    at < line.len() && line[at] == '@'
}

/// Strip leading decorator lines (`@...`) from a function or class block.
///
/// Lines are removed from the front while the first character that is not
/// white space is `@`. The remaining lines are joined with a newline.
pub fn strip_decorators(source: &str) -> (r: String)
    ensures
        r@ == undecorated(source@),
{
    let list: Vec<Vec<char>> = lines::split_lines(&lines::chars(source));
    let ghost all = lines::lines(source@);
    let mut from: usize = 0;
    assert(all.skip(0) =~= all);
    while from < list.len() && starts_with_decorator(&list[from])
        invariant
            from <= list@.len(),
            all == list@.map_values(|line: Vec<char>| line@),
            after_decorators(all) == after_decorators(all.skip(from as int)),
        decreases list.len() - from,
    {
        assert(all.skip(from as int)[0] == list@[from as int]@);
        assert(all.skip(from as int).drop_first() =~= all.skip(from + 1));
        from = from + 1;
    }
    let ghost kept = all.skip(from as int);
    proof {
        if from < list.len() {
            assert(kept[0] == list@[from as int]@);
        }
        assert(after_decorators(all) == kept);
    }
    let mut out: String = String::new();
    let mut i: usize = from;
    assert(out@ =~= lines::join(kept.take(0), seq!['\n']));
    while i < list.len()
        invariant
            from <= i <= list@.len(),
            all == list@.map_values(|line: Vec<char>| line@),
            kept == all.skip(from as int),
            out@ == lines::join(kept.take(i - from), seq!['\n']),
        decreases list.len() - i,
    {
        let ghost before = out@;
        if i > from {
            out.push('\n');
        }
        lines::push_range(&list[i], 0, list[i].len(), &mut out);
        proof {
            let next = kept.take(i - from + 1);
            assert(next.drop_last() =~= kept.take(i - from));
            assert(next.last() == list@[i as int]@);
            assert(list@[i as int]@.subrange(0, list@[i as int]@.len() as int)
                =~= list@[i as int]@);
            if i == from {
                assert(before =~= Seq::<char>::empty());
                assert(out@ =~= next[0]);
            } else {
                assert(out@ =~= before + seq!['\n'] + next.last());
            }
        }
        i = i + 1;
    }
    assert(kept.take(i - from) =~= kept);
    out
}

/// A name inside a qualified scope.
fn qualify(prefix: &str, name: &str) -> (r: String)
    ensures
        r@ == qualified(prefix@, name@),
{
    if prefix.unicode_len() == 0 {
        name.to_owned()
    } else {
        text::cat3(prefix, ".", name)
    }
}

/// The qualified name and the span of the innermost function that holds an
/// offset, given those of the function around `body`.
fn find_innermost(body: &Vec<Statement>, at: usize, name: String, own: Span) -> (r: (String, Span))
    ensures
        r.0@ == innermost(body@, at as int, name@, own).0,
        r.1 == innermost(body@, at as int, name@, own).1,
    decreases body,
{
    let mut i: usize = 0;
    assert(body@.skip(0) =~= body@);
    while i < body.len()
        invariant
            i <= body@.len(),
            innermost(body@, at as int, name@, own) == innermost(
                body@.skip(i as int),
                at as int,
                name@,
                own,
            ),
        decreases body.len() - i,
    {
        assert(body@.skip(i as int).drop_first() =~= body@.skip(i + 1));
        assert(body@.skip(i as int)[0] == body@[i as int]);
        let stmt: &Statement = &body[i];
        if stmt.span.contains(at) {
            if let StmtKind::FunctionDef(f) = &stmt.kind {
                assert(decreases_to!(body => body@[i as int]));
                return find_innermost(&f.body, at, qualify(name.as_str(), f.name.as_str()), stmt.span);
            }
        }
        i = i + 1;
    }
    (name, own)
}

/// The diff for a mutation inside a function: that of the innermost function
/// whose body contains the mutant's offset, with a dotted `qualname`.
fn descend_function(f: &FunctionDef, span: Span, mutated_source: &str, mutant: &Mutant) -> (r:
    MutationDiff)
    ensures
        r@ == function_diff(*f, span, change(*mutant, mutated_source@)),
{
    let (qualname, own) = find_innermost(&f.body, mutant.byte_offset, f.name.clone(), span);
    let new_source: String = strip_decorators(cut_statement(own, mutant, mutated_source));
    MutationDiff::FunctionBody { qualname, new_source }
}

/// Collect bare names from an assignment target. Returns `false` if the
/// target contains any non-bindable form (subscript, attribute, starred).
fn collect_names_from_target(target: &Expression, out: &mut Vec<String>) -> (r: bool)
    ensures
        r == (target_names(*target) is Some),
        r ==> texts(final(out)@) == texts(old(out)@) + target_names(*target)->0,
    decreases target, 0nat,
{
    match &target.kind {
        ExprKind::Name { id } => {
            out.push(id.clone());
            assert(texts(out@) =~= texts(old(out)@) + seq![id@]);
            true
        },
        ExprKind::Tuple { elts } => collect_names_from_targets(elts, out),
        ExprKind::List { elts } => collect_names_from_targets(elts, out),
        _ => false,
    }
}

/// Collect bare names from assignment targets in a row.
fn collect_names_from_targets(targets: &Vec<Expression>, out: &mut Vec<String>) -> (r: bool)
    ensures
        r == (all_target_names(targets@) is Some),
        r ==> texts(final(out)@) == texts(old(out)@) + all_target_names(targets@)->0,
    decreases targets, 1nat,
{
    let mut i: usize = 0;
    assert(targets@.take(0) =~= Seq::empty());
    assert(texts(out@) =~= texts(old(out)@) + all_target_names(targets@.take(0))->0);
    while i < targets.len()
        invariant
            i <= targets@.len(),
            all_target_names(targets@.take(i as int)) is Some,
            texts(out@) == texts(old(out)@) + all_target_names(targets@.take(i as int))->0,
        decreases targets.len() - i,
    {
        let ghost some = targets@.take(i + 1);
        assert(some.drop_last() =~= targets@.take(i as int));
        assert(some.last() == targets@[i as int]);
        assert(decreases_to!(targets => targets@[i as int]));
        if !collect_names_from_target(&targets[i], out) {
            proof {
                lemma_unbindable_stays(targets@, i + 1);
            }
            return false;
        }
        assert(texts(out@) =~= texts(old(out)@) + all_target_names(some)->0);
        i = i + 1;
    }
    assert(targets@.take(i as int) =~= targets@);
    true
}

/// A target that is not made of names spoils all targets in a row with it.
proof fn lemma_unbindable_stays(targets: Seq<Expression>, i: int)
    requires
        0 <= i <= targets.len(),
        all_target_names(targets.take(i)) is None,
    ensures
        all_target_names(targets) is None,
    decreases targets.len() - i,
{
    if i < targets.len() {
        assert(targets.take(i + 1).drop_last() =~= targets.take(i));
        lemma_unbindable_stays(targets, i + 1);
    } else {
        assert(targets.take(i) =~= targets);
    }
}

/// The name of an expression that is a bare name.
fn single_name(target: &Expression) -> (r: Vec<String>)
    ensures
        texts(r@) == (match target.kind {
            ExprKind::Name { id } => seq![id@],
            _ => Seq::empty(),
        }),
{
    let mut out: Vec<String> = Vec::new();
    if let ExprKind::Name { id } = &target.kind {
        out.push(id.clone());
        assert(texts(out@) =~= seq![id@]);
    } else {
        assert(texts(out@) =~= Seq::empty());
    }
    out
}

/// Extract bound names from an assign-shaped statement.
///
/// There are none when any target is not made of names, or when there is only
/// an annotation.
pub fn extract_assign_names(stmt: &Statement) -> (r: Vec<String>)
    ensures
        texts(r@) == bound_names(stmt.kind),
{
    let mut out: Vec<String> = Vec::new();
    assert(texts(out@) =~= Seq::empty());
    match &stmt.kind {
        StmtKind::Assign { targets, .. } => {
            if collect_names_from_targets(targets, &mut out) {
                assert(texts(out@) =~= all_target_names(targets@)->0);
                out
            } else {
                let none: Vec<String> = Vec::new();
                assert(texts(none@) =~= Seq::empty());
                none
            }
        },
        StmtKind::AnnAssign { target, value, .. } => {
            if value.is_some() {
                single_name(target)
            } else {
                out
            }
        },
        StmtKind::AugAssign { target, .. } => single_name(target),
        _ => out,
    }
}

/// The diff for a mutation of an assignment, when it binds names.
fn derive_bind(stmt: &Statement, mutant: &Mutant, mutated_source: &str, scope: BindScope) -> (r:
    Option<MutationDiff>)
    ensures
        viewed(r) == bind_diff(*stmt, change(*mutant, mutated_source@), scope@),
{
    let names: Vec<String> = extract_assign_names(stmt);
    assert(texts(names@).len() == names@.len());
    if names.len() == 0 {
        return None;
    }
    let stmt_source: String = cut_statement(stmt.span, mutant, mutated_source).to_owned();
    Some(MutationDiff::StatementBind { names, stmt_source, scope })
}

/// The property accessor suffix for a method decorated with `@property`,
/// `@x.setter`, or `@x.deleter`, and nothing for plain methods.
pub fn property_suffix(decorators: &Vec<Decorator>) -> (r: &'static str)
    ensures
        r@ == accessor(decorators@),
{
    let mut i: usize = 0;
    assert(decorators@.skip(0) =~= decorators@);
    while i < decorators.len()
        invariant
            i <= decorators@.len(),
            accessor(decorators@) == accessor(decorators@.skip(i as int)),
        decreases decorators.len() - i,
    {
        assert(decorators@.skip(i as int).drop_first() =~= decorators@.skip(i + 1));
        assert(decorators@.skip(i as int)[0] == decorators@[i as int]);
        match &decorators[i].expression.kind {
            ExprKind::Name { id } => {
                if text::same(id.as_str(), "property") {
                    return "fget";
                }
            },
            ExprKind::Attribute { attr, .. } => {
                if text::same(attr.as_str(), "setter") {
                    return "fset";
                }
                if text::same(attr.as_str(), "deleter") {
                    return "fdel";
                }
            },
            _ => {},
        }
        i = i + 1;
    }
    ""
}

/// The name of a method, with its accessor where it has one.
fn name_method(f: &FunctionDef) -> (r: String)
    ensures
        r@ == method_label(*f),
{
    let suffix: &str = property_suffix(&f.decorators);
    if suffix.unicode_len() == 0 {
        f.name.clone()
    } else {
        text::cat3(f.name.as_str(), ".", suffix)
    }
}

/// Derive a [`MutationDiff`] for a class body when the mutation offset falls
/// inside it, with a dotted `class_qualname` for nested classes.
fn derive_for_class_body(
    body: &Vec<Statement>,
    class_qualname: String,
    mutant: &Mutant,
    mutated_source: &str,
) -> (r: Option<MutationDiff>)
    ensures
        viewed(r) == class_diff(body@, class_qualname@, change(*mutant, mutated_source@)),
    decreases body,
{
    let ghost c = change(*mutant, mutated_source@);
    let mut i: usize = 0;
    assert(body@.skip(0) =~= body@);
    while i < body.len()
        invariant
            i <= body@.len(),
            c == change(*mutant, mutated_source@),
            class_diff(body@, class_qualname@, c) == class_diff(
                body@.skip(i as int),
                class_qualname@,
                c,
            ),
        decreases body.len() - i,
    {
        assert(body@.skip(i as int).drop_first() =~= body@.skip(i + 1));
        assert(body@.skip(i as int)[0] == body@[i as int]);
        let stmt: &Statement = &body[i];
        if stmt.span.contains(mutant.byte_offset) {
            match &stmt.kind {
                StmtKind::FunctionDef(f) => {
                    let new_source: String = strip_decorators(
                        cut_statement(stmt.span, mutant, mutated_source),
                    );
                    let method_name: String = name_method(f);
                    return Some(
                        MutationDiff::ClassMethod { class_qualname, method_name, new_source },
                    );
                },
                StmtKind::ClassDef(inner) => {
                    assert(decreases_to!(body => body@[i as int]));
                    let qualname: String = qualify(class_qualname.as_str(), inner.name.as_str());
                    return derive_for_class_body(&inner.body, qualname, mutant, mutated_source);
                },
                StmtKind::Assign { .. } | StmtKind::AnnAssign { .. } | StmtKind::AugAssign { .. } => {
                    return derive_bind(
                        stmt,
                        mutant,
                        mutated_source,
                        BindScope::Class { qualname: class_qualname },
                    );
                },
                _ => { return None; },
            }
        }
        i = i + 1;
    }
    None
}

/// Attempt to derive a [`MutationDiff`] for a single top-level statement.
fn derive_for_top_level(stmt: &Statement, mutated_source: &str, mutant: &Mutant) -> (r: Option<
    MutationDiff,
>)
    ensures
        viewed(r) == top_level_diff(*stmt, change(*mutant, mutated_source@)),
{
    match &stmt.kind {
        StmtKind::FunctionDef(f) => Some(descend_function(f, stmt.span, mutated_source, mutant)),
        StmtKind::ClassDef(class) => derive_for_class_body(
            &class.body,
            class.name.clone(),
            mutant,
            mutated_source,
        ),
        StmtKind::Assign { .. } | StmtKind::AnnAssign { .. } | StmtKind::AugAssign { .. } => {
            derive_bind(stmt, mutant, mutated_source, BindScope::Module)
        },
        _ => None,
    }
}

/// Recurse into the branches of a control-flow statement. If the mutant
/// offset is inside a statement of a branch that has a diff, return that.
fn walk_control_flow(stmt: &Statement, mutated_source: &str, mutant: &Mutant) -> (r: Option<
    MutationDiff,
>)
    ensures
        viewed(r) == branch_diff(*stmt, change(*mutant, mutated_source@)),
    decreases stmt, 0nat,
{
    match &stmt.kind {
        StmtKind::If { body, clauses, .. } => {
            if let Some(d) = walk_branch(body, mutated_source, mutant) {
                return Some(d);
            }
            walk_clauses(clauses, mutated_source, mutant)
        },
        StmtKind::While { body, orelse, .. } => {
            if let Some(d) = walk_branch(body, mutated_source, mutant) {
                return Some(d);
            }
            walk_branch(orelse, mutated_source, mutant)
        },
        StmtKind::For { body, orelse, .. } => {
            if let Some(d) = walk_branch(body, mutated_source, mutant) {
                return Some(d);
            }
            walk_branch(orelse, mutated_source, mutant)
        },
        StmtKind::Try { body, handlers, orelse, finalbody } => {
            if let Some(d) = walk_branch(body, mutated_source, mutant) {
                return Some(d);
            }
            if let Some(d) = walk_branch(orelse, mutated_source, mutant) {
                return Some(d);
            }
            if let Some(d) = walk_branch(finalbody, mutated_source, mutant) {
                return Some(d);
            }
            walk_handlers(handlers, mutated_source, mutant)
        },
        _ => None,
    }
}

/// The first diff in a suite of statements inside a branch.
fn walk_branch(suite: &Vec<Statement>, mutated_source: &str, mutant: &Mutant) -> (r: Option<
    MutationDiff,
>)
    ensures
        viewed(r) == suite_diff(suite@, change(*mutant, mutated_source@)),
    decreases suite, 1nat,
{
    let ghost c = change(*mutant, mutated_source@);
    let mut i: usize = 0;
    assert(suite@.skip(0) =~= suite@);
    while i < suite.len()
        invariant
            i <= suite@.len(),
            c == change(*mutant, mutated_source@),
            suite_diff(suite@, c) == suite_diff(suite@.skip(i as int), c),
        decreases suite.len() - i,
    {
        assert(suite@.skip(i as int).drop_first() =~= suite@.skip(i + 1));
        assert(suite@.skip(i as int)[0] == suite@[i as int]);
        let stmt: &Statement = &suite[i];
        if stmt.span.contains(mutant.byte_offset) {
            if let Some(d) = derive_for_top_level(stmt, mutated_source, mutant) {
                return Some(d);
            }
            assert(decreases_to!(suite => suite@[i as int]));
            if let Some(d) = walk_control_flow(stmt, mutated_source, mutant) {
                return Some(d);
            }
        }
        i = i + 1;
    }
    None
}

/// The first diff in the `elif` and `else` clauses of an `if`.
fn walk_clauses(clauses: &Vec<Clause>, mutated_source: &str, mutant: &Mutant) -> (r: Option<
    MutationDiff,
>)
    ensures
        viewed(r) == clauses_diff(clauses@, change(*mutant, mutated_source@)),
    decreases clauses, 1nat,
{
    let ghost c = change(*mutant, mutated_source@);
    let mut i: usize = 0;
    assert(clauses@.skip(0) =~= clauses@);
    while i < clauses.len()
        invariant
            i <= clauses@.len(),
            c == change(*mutant, mutated_source@),
            clauses_diff(clauses@, c) == clauses_diff(clauses@.skip(i as int), c),
        decreases clauses.len() - i,
    {
        assert(clauses@.skip(i as int).drop_first() =~= clauses@.skip(i + 1));
        assert(clauses@.skip(i as int)[0] == clauses@[i as int]);
        assert(decreases_to!(clauses => clauses@[i as int]));
        if let Some(d) = walk_branch(&clauses[i].body, mutated_source, mutant) {
            return Some(d);
        }
        i = i + 1;
    }
    None
}

/// The first diff in the handlers of a `try`.
fn walk_handlers(handlers: &Vec<Handler>, mutated_source: &str, mutant: &Mutant) -> (r: Option<
    MutationDiff,
>)
    ensures
        viewed(r) == handlers_diff(handlers@, change(*mutant, mutated_source@)),
    decreases handlers, 1nat,
{
    let ghost c = change(*mutant, mutated_source@);
    let mut i: usize = 0;
    assert(handlers@.skip(0) =~= handlers@);
    while i < handlers.len()
        invariant
            i <= handlers@.len(),
            c == change(*mutant, mutated_source@),
            handlers_diff(handlers@, c) == handlers_diff(handlers@.skip(i as int), c),
        decreases handlers.len() - i,
    {
        assert(handlers@.skip(i as int).drop_first() =~= handlers@.skip(i + 1));
        assert(handlers@.skip(i as int)[0] == handlers@[i as int]);
        assert(decreases_to!(handlers => handlers@[i as int]));
        if let Some(d) = walk_branch(&handlers[i].body, mutated_source, mutant) {
            return Some(d);
        }
        i = i + 1;
    }
    None
}

/// Whether `off` falls inside the test expression of a control-flow
/// statement. For a `for` this is the iterable.
fn is_in_condition(stmt: &Statement, off: usize) -> (r: bool)
    ensures
        r == in_condition(stmt.kind, off as int),
{
    match &stmt.kind {
        StmtKind::If { test, .. } => test.span.contains(off),
        StmtKind::While { test, .. } => test.span.contains(off),
        StmtKind::For { iter, .. } => iter.span.contains(off),
        _ => false,
    }
}

/// Why a mutation inside a statement has no diff.
fn classify(stmt: &Statement, off: usize) -> (r: SkipReason)
    ensures
        r == skip_reason(*stmt, off as int),
    decreases stmt, 1nat,
{
    if is_in_condition(stmt, off) {
        return SkipReason::ConditionMutation;
    }
    if let Some(reason) = classify_inner(stmt, off) {
        return reason;
    }
    match &stmt.kind {
        StmtKind::AnnAssign { value: Some(_), .. }
        | StmtKind::Assign { .. }
        | StmtKind::AugAssign { .. } => SkipReason::UnmappableTarget,
        _ => SkipReason::UnsupportedStatement,
    }
}

/// The reason for the statement that holds an offset in the branches of a
/// control-flow statement or the body of a class.
fn classify_inner(stmt: &Statement, off: usize) -> (r: Option<SkipReason>)
    ensures
        r == inner_reason(*stmt, off as int),
    decreases stmt, 0nat,
{
    match &stmt.kind {
        StmtKind::If { body, clauses, .. } => {
            if let Some(reason) = classify_suite(body, off) {
                return Some(reason);
            }
            classify_clauses(clauses, off)
        },
        StmtKind::While { body, orelse, .. } => {
            if let Some(reason) = classify_suite(body, off) {
                return Some(reason);
            }
            classify_suite(orelse, off)
        },
        StmtKind::For { body, orelse, .. } => {
            if let Some(reason) = classify_suite(body, off) {
                return Some(reason);
            }
            classify_suite(orelse, off)
        },
        StmtKind::Try { body, handlers, orelse, finalbody } => {
            if let Some(reason) = classify_suite(body, off) {
                return Some(reason);
            }
            if let Some(reason) = classify_handlers(handlers, off) {
                return Some(reason);
            }
            if let Some(reason) = classify_suite(orelse, off) {
                return Some(reason);
            }
            classify_suite(finalbody, off)
        },
        StmtKind::ClassDef(class) => classify_suite(&class.body, off),
        _ => None,
    }
}

/// The reason for the first statement of a suite that holds an offset.
fn classify_suite(suite: &Vec<Statement>, off: usize) -> (r: Option<SkipReason>)
    ensures
        r == suite_reason(suite@, off as int),
    decreases suite, 2nat,
{
    let mut i: usize = 0;
    assert(suite@.skip(0) =~= suite@);
    while i < suite.len()
        invariant
            i <= suite@.len(),
            suite_reason(suite@, off as int) == suite_reason(suite@.skip(i as int), off as int),
        decreases suite.len() - i,
    {
        assert(suite@.skip(i as int).drop_first() =~= suite@.skip(i + 1));
        assert(suite@.skip(i as int)[0] == suite@[i as int]);
        if suite[i].span.contains(off) {
            assert(decreases_to!(suite => suite@[i as int]));
            return Some(classify(&suite[i], off));
        }
        i = i + 1;
    }
    None
}

/// The reason for the first statement that holds an offset in the `elif` and
/// `else` clauses of an `if`.
fn classify_clauses(clauses: &Vec<Clause>, off: usize) -> (r: Option<SkipReason>)
    ensures
        r == clauses_reason(clauses@, off as int),
    decreases clauses, 2nat,
{
    let mut i: usize = 0;
    assert(clauses@.skip(0) =~= clauses@);
    while i < clauses.len()
        invariant
            i <= clauses@.len(),
            clauses_reason(clauses@, off as int) == clauses_reason(
                clauses@.skip(i as int),
                off as int,
            ),
        decreases clauses.len() - i,
    {
        assert(clauses@.skip(i as int).drop_first() =~= clauses@.skip(i + 1));
        assert(clauses@.skip(i as int)[0] == clauses@[i as int]);
        assert(decreases_to!(clauses => clauses@[i as int]));
        if let Some(reason) = classify_suite(&clauses[i].body, off) {
            return Some(reason);
        }
        i = i + 1;
    }
    None
}

/// The reason for the first statement that holds an offset in the handlers of
/// a `try`.
fn classify_handlers(handlers: &Vec<Handler>, off: usize) -> (r: Option<SkipReason>)
    ensures
        r == handlers_reason(handlers@, off as int),
    decreases handlers, 2nat,
{
    let mut i: usize = 0;
    assert(handlers@.skip(0) =~= handlers@);
    while i < handlers.len()
        invariant
            i <= handlers@.len(),
            handlers_reason(handlers@, off as int) == handlers_reason(
                handlers@.skip(i as int),
                off as int,
            ),
        decreases handlers.len() - i,
    {
        assert(handlers@.skip(i as int).drop_first() =~= handlers@.skip(i + 1));
        assert(handlers@.skip(i as int)[0] == handlers@[i as int]);
        assert(decreases_to!(handlers => handlers@[i as int]));
        if let Some(reason) = classify_suite(&handlers[i].body, off) {
            return Some(reason);
        }
        i = i + 1;
    }
    None
}

/// Derive a [`MutationDiff::ModuleAttr`] for a decorator-removal mutant, from
/// the first top-level definition that holds its offset.
fn derive_decorator_removal(mutant: &Mutant, body: &Vec<Statement>, mutated_source: &str) -> (r:
    Option<MutationDiff>)
    ensures
        viewed(r) == decorator_diff(body@, change(*mutant, mutated_source@)),
{
    let ghost c = change(*mutant, mutated_source@);
    let mut i: usize = 0;
    assert(body@.skip(0) =~= body@);
    while i < body.len()
        invariant
            i <= body@.len(),
            c == change(*mutant, mutated_source@),
            decorator_diff(body@, c) == decorator_diff(body@.skip(i as int), c),
        decreases body.len() - i,
    {
        assert(body@.skip(i as int).drop_first() =~= body@.skip(i + 1));
        assert(body@.skip(i as int)[0] == body@[i as int]);
        let stmt: &Statement = &body[i];
        if stmt.span.contains(mutant.byte_offset) {
            let name: Option<&String> = match &stmt.kind {
                StmtKind::FunctionDef(f) => Some(&f.name),
                StmtKind::ClassDef(class) => Some(&class.name),
                _ => None,
            };
            if let Some(name) = name {
                let new_source: String = strip_decorators(
                    cut_statement(stmt.span, mutant, mutated_source),
                );
                return Some(MutationDiff::ModuleAttr { name: name.clone(), new_source });
            }
        }
        i = i + 1;
    }
    None
}

/// The diff for a mutation inside a statement of a module, or why there is none.
fn derive_for_statement(stmt: &Statement, mutated_source: &str, mutant: &Mutant) -> (r: Result<
    MutationDiff,
    SkipReason,
>)
    ensures
        match statement_diff(*stmt, change(*mutant, mutated_source@)) {
            Ok(d) => r matches Ok(found) && found@ == d,
            Err(reason) => r == Err::<MutationDiff, SkipReason>(reason),
        },
{
    if let Some(d) = derive_for_top_level(stmt, mutated_source, mutant) {
        return Ok(d);
    }
    if is_in_condition(stmt, mutant.byte_offset) {
        return Err(SkipReason::ConditionMutation);
    }
    if let Some(d) = walk_control_flow(stmt, mutated_source, mutant) {
        return Ok(d);
    }
    Err(classify(stmt, mutant.byte_offset))
}

/// Derive the structured diff for a mutant, or return a [`SkipReason`]
/// when the mutation cannot be represented.
///
/// Returns:
/// - one `MutationDiff` on success
/// - `Err(SkipReason::ConditionMutation)` for mutations on `if`/`while`/`for`
///   test expressions
/// - `Err(SkipReason::UnmappableTarget)` for assigns with targets that are
///   not names
/// - `Err(SkipReason::UnsupportedStatement)` for any other unhandled case
pub fn derive_diff(
    mutant: &Mutant,
    original_ast: &Module,
    _mutated_ast: &Module,
    mutated_source: &str,
) -> (r: Result<Vec<MutationDiff>, SkipReason>)
    ensures
        match mutant_diff(*mutant, original_ast.body@, mutated_source@) {
            Ok(d) => r matches Ok(list) && list@.len() == 1 && list@[0]@ == d,
            Err(reason) => r == Err::<Vec<MutationDiff>, SkipReason>(reason),
        },
{
    let ghost c = change(*mutant, mutated_source@);
    let body: &Vec<Statement> = &original_ast.body;
    if text::same(mutant.mutator_name.as_str(), "remove_decorator") {
        if let Some(d) = derive_decorator_removal(mutant, body, mutated_source) {
            return Ok(vec![d]);
        }
    }
    let mut i: usize = 0;
    assert(body@.skip(0) =~= body@);
    while i < body.len()
        invariant
            i <= body@.len(),
            body == &original_ast.body,
            c == change(*mutant, mutated_source@),
            mutant_diff(*mutant, original_ast.body@, mutated_source@) == module_diff(
                body@.skip(i as int),
                c,
            ),
        decreases body.len() - i,
    {
        assert(body@.skip(i as int).drop_first() =~= body@.skip(i + 1));
        assert(body@.skip(i as int)[0] == body@[i as int]);
        let stmt: &Statement = &body[i];
        if stmt.span.contains(mutant.byte_offset) {
            return match derive_for_statement(stmt, mutated_source, mutant) {
                Ok(d) => Ok(vec![d]),
                Err(reason) => Err(reason),
            };
        }
        i = i + 1;
    }
    Err(SkipReason::UnsupportedStatement)
}

} // verus!
