//! What holds of the diff of a mutant.
//!
//! The laws say, for each kind of statement that a mutant can change, which
//! diff it has, and when it has none.
use crate::ast::{Decorator, ExprKind, Expression, FunctionDef, Span, Statement, StmtKind};
use crate::lines;
use crate::mutation::diff::{
    accessor, after_decorators, all_target_names, bound_names, branch_diff, change, class_diff,
    clauses_diff, decorator_diff, handlers_diff, innermost, is_decorator_line, method_label,
    module_diff, mutant_diff, mutated_text, qualified, skip_reason, statement_diff, suite_diff,
    suite_reason, target_names, top_level_diff, undecorated, Change, DiffView, ScopeView,
};
use crate::mutation::mutant::{Mutant, SkipReason};
use crate::text;
use vstd::prelude::*;

verus! {

/// Whether a statement is the first of a suite to hold an offset.
pub open spec fn is_holder(suite: Seq<Statement>, i: int, at: int) -> bool {
    &&& 0 <= i < suite.len()
    &&& suite[i].span.start <= at < suite[i].span.end
    &&& forall|j: int|
        0 <= j < i ==> !((#[trigger] suite[j]).span.start <= at && at < suite[j].span.end)
}

/// Whether no statement of a suite holds an offset.
pub open spec fn no_holder(suite: Seq<Statement>, at: int) -> bool {
    forall|j: int|
        0 <= j < suite.len() ==> !((#[trigger] suite[j]).span.start <= at && at
            < suite[j].span.end)
}

proof fn lemma_rest(suite: Seq<Statement>, i: int, at: int)
    requires
        suite.len() > 0,
    ensures
        i > 0 && is_holder(suite, i, at) ==> is_holder(suite.drop_first(), i - 1, at),
        no_holder(suite, at) ==> no_holder(suite.drop_first(), at),
{
    let rest = suite.drop_first();
    if i > 0 && is_holder(suite, i, at) {
        assert(rest[i - 1] == suite[i]);
        assert forall|j: int| 0 <= j < i - 1 implies !((#[trigger] rest[j]).span.start <= at && at
            < rest[j].span.end) by {
            assert(rest[j] == suite[j + 1]);
        }
    }
    if no_holder(suite, at) {
        assert forall|j: int| 0 <= j < rest.len() implies !((#[trigger] rest[j]).span.start <= at
            && at < rest[j].span.end) by {
            assert(rest[j] == suite[j + 1]);
        }
    }
}

/// The diff of a module is that of its first statement that holds the change;
/// there is none where no statement does.
pub proof fn law_the_holder_decides(body: Seq<Statement>, c: Change, i: int)
    ensures
        is_holder(body, i, c.offset) ==> module_diff(body, c) == statement_diff(body[i], c),
        no_holder(body, c.offset) ==> module_diff(body, c) == Err::<DiffView, SkipReason>(
            SkipReason::UnsupportedStatement,
        ),
    decreases body.len(),
{
    if body.len() > 0 {
        lemma_rest(body, i, c.offset);
        assert(body[0].span.holds(c.offset) <==> body[0].span.start <= c.offset
            < body[0].span.end);
        if !body[0].span.holds(c.offset) {
            law_the_holder_decides(body.drop_first(), c, i - 1);
            if is_holder(body, i, c.offset) {
                assert(i > 0);
                assert(body.drop_first()[i - 1] == body[i]);
            }
        }
    }
}

/// Unless it removes a decorator, a mutant has the diff of the first statement
/// of the module that holds it: a function has a new body, a class the diff of
/// its body, an assignment that binds names is bound again in the module, and
/// any other statement has the first diff of its branches.
pub proof fn law_diffs_of_a_module(
    mutant: Mutant,
    body: Seq<Statement>,
    mutated: Seq<char>,
    i: int,
)
    requires
        mutant.mutator_name@ != "remove_decorator"@,
        is_holder(body, i, mutant.byte_offset as int),
    ensures
        ({
            let c = change(mutant, mutated);
            let at = mutant.byte_offset as int;
            let diff = mutant_diff(mutant, body, mutated);
            match body[i].kind {
                StmtKind::FunctionDef(f) => {
                    let (qualname, span) = innermost(f.body@, at, f.name@, body[i].span);
                    diff == Ok::<DiffView, SkipReason>(
                        DiffView::FunctionBody {
                            qualname,
                            new_source: undecorated(mutated_text(c, span)),
                        },
                    )
                },
                StmtKind::ClassDef(class) => class_diff(class.body@, class.name@, c) matches Some(d)
                    ==> diff == Ok::<DiffView, SkipReason>(d),
                StmtKind::Assign { .. } | StmtKind::AnnAssign { .. } | StmtKind::AugAssign { .. } =>
                    bound_names(body[i].kind).len() > 0 ==> diff == Ok::<DiffView, SkipReason>(
                    DiffView::StatementBind {
                        names: bound_names(body[i].kind),
                        stmt_source: mutated_text(c, body[i].span),
                        scope: ScopeView::Module,
                    },
                ),
                StmtKind::If { test, .. } => if test.span.start <= at && at < test.span.end {
                    diff == Err::<DiffView, SkipReason>(SkipReason::ConditionMutation)
                } else {
                    branch_diff(body[i], c) matches Some(d) ==> diff == Ok::<DiffView, SkipReason>(
                        d,
                    )
                },
                StmtKind::While { test, .. } => if test.span.start <= at && at < test.span.end {
                    diff == Err::<DiffView, SkipReason>(SkipReason::ConditionMutation)
                } else {
                    branch_diff(body[i], c) matches Some(d) ==> diff == Ok::<DiffView, SkipReason>(
                        d,
                    )
                },
                StmtKind::For { iter, .. } => if iter.span.start <= at && at < iter.span.end {
                    diff == Err::<DiffView, SkipReason>(SkipReason::ConditionMutation)
                } else {
                    branch_diff(body[i], c) matches Some(d) ==> diff == Ok::<DiffView, SkipReason>(
                        d,
                    )
                },
                StmtKind::Try { .. } => branch_diff(body[i], c) matches Some(d) ==> diff == Ok::<
                    DiffView,
                    SkipReason,
                >(d),
                _ => diff is Err,
            }
        }),
{
    let c = change(mutant, mutated);
    law_the_holder_decides(body, c, i);
    match body[i].kind {
        StmtKind::If { test, .. } => {
            assert(test.span.holds(c.offset) <==> test.span.start <= c.offset < test.span.end);
        },
        StmtKind::While { test, .. } => {
            assert(test.span.holds(c.offset) <==> test.span.start <= c.offset < test.span.end);
        },
        StmtKind::For { iter, .. } => {
            assert(iter.span.holds(c.offset) <==> iter.span.start <= c.offset < iter.span.end);
        },
        _ => {},
    }
}

/// A mutant that removes a decorator rebinds the first definition of the
/// module that holds it, without its decorators.
pub proof fn law_decorator_removal_rebinds_the_definition(
    mutant: Mutant,
    body: Seq<Statement>,
    mutated: Seq<char>,
    i: int,
)
    requires
        mutant.mutator_name@ == "remove_decorator"@,
        is_holder(body, i, mutant.byte_offset as int),
    ensures
        ({
            let new_source = undecorated(mutated_text(change(mutant, mutated), body[i].span));
            let diff = mutant_diff(mutant, body, mutated);
            &&& body[i].kind matches StmtKind::FunctionDef(f) ==> diff == Ok::<
                DiffView,
                SkipReason,
            >(DiffView::ModuleAttr { name: f.name@, new_source })
            &&& body[i].kind matches StmtKind::ClassDef(c) ==> diff == Ok::<DiffView, SkipReason>(
                DiffView::ModuleAttr { name: c.name@, new_source },
            )
        }),
{
    lemma_decorator_diff(body, change(mutant, mutated), i);
}

proof fn lemma_decorator_diff(body: Seq<Statement>, c: Change, i: int)
    requires
        is_holder(body, i, c.offset),
    ensures
        ({
            let new_source = undecorated(mutated_text(c, body[i].span));
            &&& body[i].kind matches StmtKind::FunctionDef(f) ==> decorator_diff(body, c) == Some(
                DiffView::ModuleAttr { name: f.name@, new_source },
            )
            &&& body[i].kind matches StmtKind::ClassDef(d) ==> decorator_diff(body, c) == Some(
                DiffView::ModuleAttr { name: d.name@, new_source },
            )
        }),
    decreases body.len(),
{
    assert(body[0].span.holds(c.offset) <==> body[0].span.start <= c.offset < body[0].span.end);
    lemma_rest(body, i, c.offset);
    if i > 0 {
        lemma_decorator_diff(body.drop_first(), c, i - 1);
        assert(body.drop_first()[i - 1] == body[i]);
    }
}

/// Whether a decorator is `@property`.
pub open spec fn is_property(d: Decorator) -> bool {
    d.expression.kind matches ExprKind::Name { id } && id@ == "property"@
}

/// Whether a decorator is `@x.setter`.
pub open spec fn is_setter(d: Decorator) -> bool {
    d.expression.kind matches ExprKind::Attribute { value, attr } && attr@ == "setter"@
}

/// Whether a decorator is `@x.deleter`.
pub open spec fn is_deleter(d: Decorator) -> bool {
    d.expression.kind matches ExprKind::Attribute { value, attr } && attr@ == "deleter"@
}

/// Whether a decorator makes a property accessor of a method.
pub open spec fn is_telling(d: Decorator) -> bool {
    is_property(d) || is_setter(d) || is_deleter(d)
}

proof fn lemma_accessor(decorators: Seq<Decorator>, k: int)
    requires
        0 <= k <= decorators.len(),
        forall|j: int| 0 <= j < k ==> !is_telling(#[trigger] decorators[j]),
    ensures
        accessor(decorators) == accessor(decorators.skip(k)),
    decreases k,
{
    if k == 0 {
        assert(decorators.skip(0) =~= decorators);
    } else {
        let rest = decorators.drop_first();
        assert(!is_telling(decorators[0]));
        assert forall|j: int| 0 <= j < k - 1 implies !is_telling(#[trigger] rest[j]) by {
            assert(rest[j] == decorators[j + 1]);
        }
        lemma_accessor(rest, k - 1);
        assert(rest.skip(k - 1) =~= decorators.skip(k));
    }
}

/// A method is named in its diff by its name; with `@property` that is followed
/// by `.fget`, with `@x.setter` by `.fset`, and with `@x.deleter` by `.fdel`.
/// The first such decorator decides.
pub proof fn law_accessors_have_their_suffix(f: FunctionDef, k: int)
    requires
        0 <= k <= f.decorators@.len(),
        forall|j: int| 0 <= j < k ==> !is_telling(#[trigger] f.decorators@[j]),
    ensures
        k == f.decorators@.len() ==> method_label(f) == f.name@,
        k < f.decorators@.len() ==> {
            let d = f.decorators@[k];
            &&& is_property(d) ==> method_label(f) == f.name@ + seq!['.', 'f', 'g', 'e', 't']
            &&& is_setter(d) ==> method_label(f) == f.name@ + seq!['.', 'f', 's', 'e', 't']
            &&& is_deleter(d) ==> method_label(f) == f.name@ + seq!['.', 'f', 'd', 'e', 'l']
        },
{
    let decorators = f.decorators@;
    lemma_accessor(decorators, k);
    reveal_strlit("");
    reveal_strlit(".");
    reveal_strlit("fget");
    reveal_strlit("fset");
    reveal_strlit("fdel");
    reveal_strlit("setter");
    reveal_strlit("deleter");
    assert("setter"@.len() != "deleter"@.len());
    if k < decorators.len() {
        assert(decorators.skip(k)[0] == decorators[k]);
        assert(f.name@ + "."@ + "fget"@ =~= f.name@ + seq!['.', 'f', 'g', 'e', 't']);
        assert(f.name@ + "."@ + "fset"@ =~= f.name@ + seq!['.', 'f', 's', 'e', 't']);
        assert(f.name@ + "."@ + "fdel"@ =~= f.name@ + seq!['.', 'f', 'd', 'e', 'l']);
    }
}

/// The three accessors of a property have different names.
pub proof fn law_accessors_differ(getter: FunctionDef, setter: FunctionDef, deleter: FunctionDef)
    requires
        getter.name@ == setter.name@,
        getter.name@ == deleter.name@,
        getter.decorators@.len() == 1,
        setter.decorators@.len() == 1,
        deleter.decorators@.len() == 1,
        is_property(getter.decorators@[0]),
        is_setter(setter.decorators@[0]),
        is_deleter(deleter.decorators@[0]),
    ensures
        method_label(getter) != method_label(setter),
        method_label(getter) != method_label(deleter),
        method_label(setter) != method_label(deleter),
{
    law_accessors_have_their_suffix(getter, 0);
    law_accessors_have_their_suffix(setter, 0);
    law_accessors_have_their_suffix(deleter, 0);
    let n = getter.name@.len() as int;
    assert(method_label(getter)[n + 2] == 'g');
    assert(method_label(setter)[n + 2] == 's');
    assert(method_label(deleter)[n + 2] == 'd');
}

/// The diff of a class body is that of its first statement that holds the
/// change: a method is replaced in the class, an inner class has the diff of
/// its body under its dotted name, and an assignment that binds names is bound
/// again in the class.
pub proof fn law_diffs_of_a_class(
    body: Seq<Statement>,
    class: Seq<char>,
    c: Change,
    i: int,
)
    ensures
        no_holder(body, c.offset) ==> class_diff(body, class, c) is None,
        is_holder(body, i, c.offset) ==> class_diff(body, class, c) == match body[i].kind {
            StmtKind::FunctionDef(f) => Some(
                DiffView::ClassMethod {
                    class_qualname: class,
                    method_name: method_label(f),
                    new_source: undecorated(mutated_text(c, body[i].span)),
                },
            ),
            StmtKind::ClassDef(inner) => class_diff(
                inner.body@,
                if class == Seq::<char>::empty() {
                    inner.name@
                } else {
                    class + seq!['.'] + inner.name@
                },
                c,
            ),
            StmtKind::Assign { .. } | StmtKind::AnnAssign { .. } | StmtKind::AugAssign { .. } =>
                if bound_names(body[i].kind).len() > 0 {
                Some(
                    DiffView::StatementBind {
                        names: bound_names(body[i].kind),
                        stmt_source: mutated_text(c, body[i].span),
                        scope: ScopeView::Class { qualname: class },
                    },
                )
            } else {
                None
            },
            _ => None,
        },
    decreases body.len(),
{
    if body.len() > 0 {
        assert(body[0].span.holds(c.offset) <==> body[0].span.start <= c.offset
            < body[0].span.end);
        lemma_rest(body, i, c.offset);
        if !body[0].span.holds(c.offset) {
            law_diffs_of_a_class(body.drop_first(), class, c, i - 1);
            if is_holder(body, i, c.offset) {
                assert(i > 0);
                assert(body.drop_first()[i - 1] == body[i]);
            }
        } else if is_holder(body, i, c.offset) {
            assert(i == 0);
            if let StmtKind::ClassDef(inner) = body[0].kind {
                lemma_qualified(class, inner.name@);
            }
        }
    }
}

proof fn lemma_qualified(prefix: Seq<char>, name: Seq<char>)
    ensures
        qualified(prefix, name) == if prefix == Seq::<char>::empty() {
            name
        } else {
            prefix + seq!['.'] + name
        },
{
    reveal_strlit(".");
    assert("."@ =~= seq!['.']);
    if prefix.len() == 0 {
        assert(prefix =~= Seq::<char>::empty());
    }
}

/// A getter of a class at module level is replaced as the getter, a setter as
/// the setter and a deleter as the deleter.
pub proof fn law_diffs_of_accessors(
    mutant: Mutant,
    body: Seq<Statement>,
    mutated: Seq<char>,
    i: int,
    k: int,
)
    requires
        mutant.mutator_name@ != "remove_decorator"@,
        is_holder(body, i, mutant.byte_offset as int),
        body[i].kind is ClassDef,
        is_holder(body[i].kind->ClassDef_0.body@, k, mutant.byte_offset as int),
        body[i].kind->ClassDef_0.body@[k].kind is FunctionDef,
        body[i].kind->ClassDef_0.body@[k].kind->FunctionDef_0.decorators@.len() == 1,
    ensures
        ({
            let class = body[i].kind->ClassDef_0;
            let f = class.body@[k].kind->FunctionDef_0;
            let d = f.decorators@[0];
            &&& mutant_diff(mutant, body, mutated) matches Ok(
                DiffView::ClassMethod { class_qualname, method_name, new_source },
            )
            &&& class_qualname == class.name@
            &&& is_property(d) ==> method_name == f.name@ + seq!['.', 'f', 'g', 'e', 't']
            &&& is_setter(d) ==> method_name == f.name@ + seq!['.', 'f', 's', 'e', 't']
            &&& is_deleter(d) ==> method_name == f.name@ + seq!['.', 'f', 'd', 'e', 'l']
            &&& !is_telling(f.decorators@[0]) ==> method_name == f.name@
        }),
{
    let class = body[i].kind->ClassDef_0;
    let f = class.body@[k].kind->FunctionDef_0;
    law_diffs_of_a_module(mutant, body, mutated, i);
    law_diffs_of_a_class(class.body@, class.name@, change(mutant, mutated), k);
    law_accessors_have_their_suffix(f, 0);
    if !is_telling(f.decorators@[0]) {
        law_accessors_have_their_suffix(f, 1);
    }
}

/// Whether a statement is a function that holds an offset.
pub open spec fn is_holding_function(s: Statement, at: int) -> bool {
    s.kind is FunctionDef && s.span.start <= at < s.span.end
}

/// The innermost function around a change is the function itself where none
/// directly in it holds the change, and else the innermost one around the
/// change in the first that does, under its dotted name.
pub proof fn law_innermost_function(
    body: Seq<Statement>,
    at: int,
    name: Seq<char>,
    own: Span,
    i: int,
)
    ensures
        (forall|j: int| 0 <= j < body.len() ==> !is_holding_function(#[trigger] body[j], at))
            ==> innermost(body, at, name, own) == (name, own),
        0 <= i < body.len() && is_holding_function(body[i], at) && (forall|j: int|
            0 <= j < i ==> !is_holding_function(#[trigger] body[j], at)) ==> innermost(
            body,
            at,
            name,
            own,
        ) == innermost(
            body[i].kind->FunctionDef_0.body@,
            at,
            if name == Seq::<char>::empty() {
                body[i].kind->FunctionDef_0.name@
            } else {
                name + seq!['.'] + body[i].kind->FunctionDef_0.name@
            },
            body[i].span,
        ),
    decreases body.len(),
{
    if body.len() > 0 {
        let rest = body.drop_first();
        assert(is_holding_function(body[0], at) <==> body[0].span.holds(at)
            && body[0].kind is FunctionDef);
        law_innermost_function(rest, at, name, own, i - 1);
        if forall|j: int| 0 <= j < body.len() ==> !is_holding_function(#[trigger] body[j], at) {
            assert forall|j: int| 0 <= j < rest.len() implies !is_holding_function(
                #[trigger] rest[j],
                at,
            ) by {
                assert(rest[j] == body[j + 1]);
            }
        }
        if 0 <= i < body.len() && is_holding_function(body[i], at) && (forall|j: int|
            0 <= j < i ==> !is_holding_function(#[trigger] body[j], at)) {
            if i == 0 {
                lemma_qualified(name, body[0].kind->FunctionDef_0.name@);
            } else {
                assert(!is_holding_function(body[0], at));
                assert(rest[i - 1] == body[i]);
                assert forall|j: int| 0 <= j < i - 1 implies !is_holding_function(
                    #[trigger] rest[j],
                    at,
                ) by {
                    assert(rest[j] == body[j + 1]);
                }
            }
        }
    }
}

/// A source block loses the decorator lines that it starts with and no other
/// line.
pub proof fn law_only_leading_decorators_go(source: Seq<char>) -> (n: int)
    ensures
        0 <= n <= lines::lines(source).len(),
        undecorated(source) == lines::join(lines::lines(source).skip(n), seq!['\n']),
        forall|i: int|
            0 <= i < n ==> is_decorator_line(#[trigger] lines::lines(source)[i]),
        n < lines::lines(source).len() ==> !is_decorator_line(lines::lines(source)[n]),
{
    lemma_after_decorators(lines::lines(source))
}

proof fn lemma_after_decorators(list: Seq<Seq<char>>) -> (n: int)
    ensures
        0 <= n <= list.len(),
        after_decorators(list) == list.skip(n),
        forall|i: int| 0 <= i < n ==> is_decorator_line(#[trigger] list[i]),
        n < list.len() ==> !is_decorator_line(list[n]),
    decreases list.len(),
{
    if list.len() > 0 && is_decorator_line(list[0]) {
        let rest = list.drop_first();
        let n = lemma_after_decorators(rest);
        assert(rest.skip(n) =~= list.skip(n + 1));
        assert forall|i: int| 0 <= i < n + 1 implies is_decorator_line(#[trigger] list[i]) by {
            if i > 0 {
                assert(list[i] == rest[i - 1]);
            }
        }
        if n < rest.len() {
            assert(list[n + 1] == rest[n]);
        }
        n + 1
    } else {
        assert(list.skip(0) =~= list);
        0
    }
}

/// A decorator line is one whose first character that is not white space is
/// `@`.
pub proof fn law_decorator_lines(line: Seq<char>, i: int)
    requires
        0 <= i < line.len(),
        !lines::is_white(line[i]),
        forall|j: int| 0 <= j < i ==> lines::is_white(#[trigger] line[j]),
    ensures
        is_decorator_line(line) <==> line[i] == '@',
    decreases line.len(),
{
    if i > 0 {
        let rest = line.drop_first();
        assert(rest[i - 1] == line[i]);
        assert forall|j: int| 0 <= j < i - 1 implies lines::is_white(#[trigger] rest[j]) by {
            assert(rest[j] == line[j + 1]);
        }
        assert(lines::is_white(line[0]));
        law_decorator_lines(rest, i - 1);
    }
}

/// A target binds its own name, or the names that its elements bind, in order;
/// any other target binds none that are known.
pub proof fn law_targets_bind_their_names(target: Expression, a: Seq<Expression>, b: Seq<Expression>)
    ensures
        target.kind matches ExprKind::Name { id } ==> target_names(target) == Some(seq![id@]),
        target.kind matches ExprKind::Tuple { elts } ==> target_names(target) == all_target_names(
            elts@,
        ),
        target.kind matches ExprKind::List { elts } ==> target_names(target) == all_target_names(
            elts@,
        ),
        target.kind !is Name && target.kind !is Tuple && target.kind !is List ==> target_names(
            target,
        ) is None,
        all_target_names(seq![target]) == target_names(target),
        all_target_names(Seq::empty()) == Some(Seq::<Seq<char>>::empty()),
        all_target_names(a + b) is Some <==> all_target_names(a) is Some && all_target_names(
            b,
        ) is Some,
        all_target_names(a + b) matches Some(names) ==> names == all_target_names(a)->0
            + all_target_names(b)->0,
    decreases b.len(),
{
    let one = seq![target];
    assert(one.drop_last() =~= Seq::<Expression>::empty());
    assert(one.last() == target);
    if let Some(names) = target_names(target) {
        assert(Seq::<Seq<char>>::empty() + names =~= names);
    }
    if b.len() == 0 {
        assert(a + b =~= a);
        if let Some(names) = all_target_names(a) {
            assert(names + Seq::<Seq<char>>::empty() =~= names);
        }
    } else {
        assert((a + b).drop_last() =~= a + b.drop_last());
        assert((a + b).last() == b.last());
        law_targets_bind_their_names(target, a, b.drop_last());
        if let (Some(x), Some(y), Some(z)) = (
            all_target_names(a),
            all_target_names(b.drop_last()),
            target_names(b.last()),
        ) {
            assert(x + y + z =~= x + (y + z));
        }
    }
}

/// An assignment binds what its targets bind; one with an annotation binds its
/// name only with a value.
pub proof fn law_assignments_bind_names(kind: StmtKind)
    ensures
        kind matches StmtKind::Assign { targets, value } ==> bound_names(kind) == (
        if all_target_names(targets@) is Some {
            all_target_names(targets@)->0
        } else {
            Seq::empty()
        }),
        kind matches StmtKind::AugAssign { target, op, value } ==> bound_names(kind) == (
        if target.kind is Name {
            seq![target.kind->Name_id@]
        } else {
            Seq::empty()
        }),
        kind matches StmtKind::AnnAssign { target, annotation, value } ==> bound_names(kind) == (
        if target.kind is Name && value is Some {
            seq![target.kind->Name_id@]
        } else {
            Seq::empty()
        }),
        kind !is Assign && kind !is AugAssign && kind !is AnnAssign ==> bound_names(kind)
            == Seq::<Seq<char>>::empty(),
{
}

/// The diff of a branch is that of the first of its statements that holds the
/// change and has one, itself or in its own branches.
pub proof fn law_diffs_of_a_branch(suite: Seq<Statement>, c: Change, i: int)
    requires
        is_holder(suite, i, c.offset),
    ensures
        top_level_diff(suite[i], c) is Some ==> suite_diff(suite, c) == top_level_diff(suite[i], c),
        top_level_diff(suite[i], c) is None && branch_diff(suite[i], c) is Some ==> suite_diff(
            suite,
            c,
        ) == branch_diff(suite[i], c),
    decreases suite.len(),
{
    assert(suite[0].span.holds(c.offset) <==> suite[0].span.start <= c.offset
        < suite[0].span.end);
    lemma_rest(suite, i, c.offset);
    if i > 0 {
        law_diffs_of_a_branch(suite.drop_first(), c, i - 1);
        assert(suite.drop_first()[i - 1] == suite[i]);
    }
}

/// A branch without a statement that holds the change has no diff.
pub proof fn law_no_diff_outside_a_branch(suite: Seq<Statement>, c: Change)
    requires
        no_holder(suite, c.offset),
    ensures
        suite_diff(suite, c) is None,
    decreases suite.len(),
{
    if suite.len() > 0 {
        assert(suite[0].span.holds(c.offset) <==> suite[0].span.start <= c.offset
            < suite[0].span.end);
        lemma_rest(suite, 0, c.offset);
        law_no_diff_outside_a_branch(suite.drop_first(), c);
    }
}

/// Where the change lies in one block of a control-flow statement only, the
/// statement has the diff of that block: the body, an `elif` or `else`, a
/// handler, or a `finally`.
pub proof fn law_every_block_has_its_diff(s: Statement, c: Change, k: int)
    ensures
        s.kind matches StmtKind::If { test, body, clauses } ==> {
            &&& suite_diff(body@, c) is Some ==> branch_diff(s, c) == suite_diff(body@, c)
            &&& no_holder(body@, c.offset) && 0 <= k < clauses@.len() && (forall|j: int|
                0 <= j < k ==> no_holder((#[trigger] clauses@[j]).body@, c.offset)) && suite_diff(
                clauses@[k].body@,
                c,
            ) is Some ==> branch_diff(s, c) == suite_diff(clauses@[k].body@, c)
        },
        s.kind matches StmtKind::While { test, body, orelse } ==> {
            &&& suite_diff(body@, c) is Some ==> branch_diff(s, c) == suite_diff(body@, c)
            &&& no_holder(body@, c.offset) ==> branch_diff(s, c) == suite_diff(orelse@, c)
        },
        s.kind matches StmtKind::For { target, iter, body, orelse } ==> {
            &&& suite_diff(body@, c) is Some ==> branch_diff(s, c) == suite_diff(body@, c)
            &&& no_holder(body@, c.offset) ==> branch_diff(s, c) == suite_diff(orelse@, c)
        },
        s.kind matches StmtKind::Try { body, handlers, orelse, finalbody } ==> {
            &&& suite_diff(body@, c) is Some ==> branch_diff(s, c) == suite_diff(body@, c)
            &&& no_holder(body@, c.offset) && suite_diff(orelse@, c) is Some ==> branch_diff(s, c)
                == suite_diff(orelse@, c)
            &&& no_holder(body@, c.offset) && no_holder(orelse@, c.offset) && suite_diff(
                finalbody@,
                c,
            ) is Some ==> branch_diff(s, c) == suite_diff(finalbody@, c)
            &&& no_holder(body@, c.offset) && no_holder(orelse@, c.offset) && no_holder(
                finalbody@,
                c.offset,
            ) && 0 <= k < handlers@.len() && (forall|j: int|
                0 <= j < k ==> no_holder((#[trigger] handlers@[j]).body@, c.offset)) && suite_diff(
                handlers@[k].body@,
                c,
            ) is Some ==> branch_diff(s, c) == suite_diff(handlers@[k].body@, c)
        },
{
    match s.kind {
        StmtKind::If { test, body, clauses } => {
            if no_holder(body@, c.offset) {
                law_no_diff_outside_a_branch(body@, c);
            }
            if 0 <= k < clauses@.len() && (forall|j: int|
                0 <= j < k ==> no_holder((#[trigger] clauses@[j]).body@, c.offset)) {
                lemma_clauses_diff(clauses@, c, k);
            }
        },
        StmtKind::While { test, body, orelse } => {
            if no_holder(body@, c.offset) {
                law_no_diff_outside_a_branch(body@, c);
            }
        },
        StmtKind::For { target, iter, body, orelse } => {
            if no_holder(body@, c.offset) {
                law_no_diff_outside_a_branch(body@, c);
            }
        },
        StmtKind::Try { body, handlers, orelse, finalbody } => {
            if no_holder(body@, c.offset) {
                law_no_diff_outside_a_branch(body@, c);
            }
            if no_holder(orelse@, c.offset) {
                law_no_diff_outside_a_branch(orelse@, c);
            }
            if no_holder(finalbody@, c.offset) {
                law_no_diff_outside_a_branch(finalbody@, c);
            }
            if 0 <= k < handlers@.len() && (forall|j: int|
                0 <= j < k ==> no_holder((#[trigger] handlers@[j]).body@, c.offset)) {
                lemma_handlers_diff(handlers@, c, k);
            }
        },
        _ => {},
    }
}

proof fn lemma_clauses_diff(clauses: Seq<crate::ast::Clause>, c: Change, k: int)
    requires
        0 <= k < clauses.len(),
        forall|j: int| 0 <= j < k ==> no_holder((#[trigger] clauses[j]).body@, c.offset),
    ensures
        suite_diff(clauses[k].body@, c) is Some ==> clauses_diff(clauses, c) == suite_diff(
            clauses[k].body@,
            c,
        ),
    decreases k,
{
    if k > 0 {
        let rest = clauses.drop_first();
        assert(no_holder(clauses[0].body@, c.offset));
        law_no_diff_outside_a_branch(clauses[0].body@, c);
        assert forall|j: int| 0 <= j < k - 1 implies no_holder(
            (#[trigger] rest[j]).body@,
            c.offset,
        ) by {
            assert(rest[j] == clauses[j + 1]);
        }
        assert(rest[k - 1] == clauses[k]);
        lemma_clauses_diff(rest, c, k - 1);
    }
}

proof fn lemma_handlers_diff(handlers: Seq<crate::ast::Handler>, c: Change, k: int)
    requires
        0 <= k < handlers.len(),
        forall|j: int| 0 <= j < k ==> no_holder((#[trigger] handlers[j]).body@, c.offset),
    ensures
        suite_diff(handlers[k].body@, c) is Some ==> handlers_diff(handlers, c) == suite_diff(
            handlers[k].body@,
            c,
        ),
    decreases k,
{
    if k > 0 {
        let rest = handlers.drop_first();
        assert(no_holder(handlers[0].body@, c.offset));
        law_no_diff_outside_a_branch(handlers[0].body@, c);
        assert forall|j: int| 0 <= j < k - 1 implies no_holder(
            (#[trigger] rest[j]).body@,
            c.offset,
        ) by {
            assert(rest[j] == handlers[j + 1]);
        }
        assert(rest[k - 1] == handlers[k]);
        lemma_handlers_diff(rest, c, k - 1);
    }
}

/// Why a mutant of a statement without branches has no diff: an assignment has
/// targets that are not names, and an annotation without a value or any other
/// statement cannot be bound.
pub proof fn law_reasons_of_plain_statements(
    mutant: Mutant,
    body: Seq<Statement>,
    mutated: Seq<char>,
    i: int,
)
    requires
        mutant.mutator_name@ != "remove_decorator"@,
        is_holder(body, i, mutant.byte_offset as int),
    ensures
        ({
            let diff = mutant_diff(mutant, body, mutated);
            match body[i].kind {
                StmtKind::Assign { .. } | StmtKind::AugAssign { .. } => bound_names(
                    body[i].kind,
                ).len() == 0 ==> diff == Err::<DiffView, SkipReason>(SkipReason::UnmappableTarget),
                StmtKind::AnnAssign { target, annotation, value } => bound_names(
                    body[i].kind,
                ).len() == 0 ==> diff == Err::<DiffView, SkipReason>(
                    if value is Some {
                        SkipReason::UnmappableTarget
                    } else {
                        SkipReason::UnsupportedStatement
                    },
                ),
                StmtKind::FunctionDef(_) | StmtKind::ClassDef(_) | StmtKind::If { .. }
                | StmtKind::While { .. } | StmtKind::For { .. } | StmtKind::Try { .. } => true,
                _ => diff == Err::<DiffView, SkipReason>(SkipReason::UnsupportedStatement),
            }
        }),
{
    law_the_holder_decides(body, change(mutant, mutated), i);
}

/// The reason of a suite is that of its first statement that holds the change,
/// and a statement with blocks has the reason of the block that holds it: a
/// change in a condition is told as such at any depth.
pub proof fn law_reasons_of_nested_statements(suite: Seq<Statement>, at: int, i: int)
    requires
        is_holder(suite, i, at),
    ensures
        suite_reason(suite, at) == Some(skip_reason(suite[i], at)),
        suite[i].kind matches StmtKind::If { test, body, clauses } ==> (test.span.start <= at
            && at < test.span.end ==> skip_reason(suite[i], at) is ConditionMutation),
        suite[i].kind matches StmtKind::While { test, body, orelse } ==> (test.span.start <= at
            && at < test.span.end ==> skip_reason(suite[i], at) is ConditionMutation),
        suite[i].kind matches StmtKind::For { target, iter, body, orelse } ==> (iter.span.start
            <= at && at < iter.span.end ==> skip_reason(suite[i], at) is ConditionMutation),
        suite[i].kind is Assign || suite[i].kind is AugAssign ==> skip_reason(
            suite[i],
            at,
        ) is UnmappableTarget,
        suite[i].kind is Expr || suite[i].kind is Return ==> skip_reason(
            suite[i],
            at,
        ) is UnsupportedStatement,
    decreases suite.len(),
{
    assert(suite[0].span.holds(at) <==> suite[0].span.start <= at < suite[0].span.end);
    lemma_rest(suite, i, at);
    match suite[i].kind {
        StmtKind::If { test, .. } => {
            assert(test.span.holds(at) <==> test.span.start <= at < test.span.end);
        },
        StmtKind::While { test, .. } => {
            assert(test.span.holds(at) <==> test.span.start <= at < test.span.end);
        },
        StmtKind::For { iter, .. } => {
            assert(iter.span.holds(at) <==> iter.span.start <= at < iter.span.end);
        },
        _ => {},
    }
    if i > 0 {
        law_reasons_of_nested_statements(suite.drop_first(), at, i - 1);
        assert(suite.drop_first()[i - 1] == suite[i]);
    }
}

/// A mutated statement reaches from where it started to where its end moved, as
/// far as these cut out whole characters.
pub proof fn law_mutated_text_is_cut_out(mutant: Mutant, mutated: Seq<char>, span: Span)
    ensures
        ({
            let end = span.end + text::bytes(mutant.mutated_text@).len() - mutant.byte_length;
            let new = mutated_text(change(mutant, mutated), span);
            0 <= end <= usize::MAX ==> {
                &&& text::is_span(mutated, span.start as int, end) ==> text::bytes(new)
                    == text::bytes(mutated).subrange(span.start as int, end)
                &&& !text::is_span(mutated, span.start as int, end) ==> new == Seq::<char>::empty()
            }
        }),
{
    let end = span.end + text::bytes(mutant.mutated_text@).len() - mutant.byte_length;
    if 0 <= end <= usize::MAX && text::is_span(mutated, span.start as int, end) {
        text::lemma_span_bytes(mutated, span.start as int, end);
    }
}

} // verus!
