//! Generation of mutants for source files.
use crate::ast::{Module, Span};
use crate::error::Error;
use crate::mutation::filter::{matches_operator_filter, passes};
use crate::mutation::main_guard::{guards, inside_any, is_inside_any, main_guard_ranges};
use crate::mutation::mutant::{Mutant, MutantView};
use crate::mutation::mutator::{
    all_faithful, edits, faithful, Edit, FloatText, Mutation, MutationContext,
};
use crate::mutation::position;
use crate::mutation::registry::{
    all_builtin, law_builtin_edits_are_decided, MutatorRegistry, Registered,
};
use crate::mutation::seed::is_decided;
use crate::parse::{parse_module, parsed_module};
use crate::text;
use vstd::prelude::*;

verus! {

/// Whether a source text is short enough to be parsed and its lines to be
/// counted in 32 bits.
pub open spec fn small(source: Seq<char>) -> bool {
    &&& text::bytes(source).len() <= u32::MAX
    &&& position::newlines(text::bytes(source)) < u32::MAX
}

/// The mutant for an edit of a file.
pub open spec fn described(
    path: Seq<char>,
    source: Seq<char>,
    operator: Seq<char>,
    edit: Edit,
) -> MutantView {
    MutantView {
        file_path: path,
        line: position::line_of(text::bytes(source), edit.offset) as u32,
        column: (position::column_of(text::bytes(source), edit.offset) % 0x1_0000_0000) as u32,
        offset: edit.offset,
        length: edit.length,
        original: edit.original,
        mutated: edit.replacement,
        mutator: operator,
    }
}

/// Whether an edit becomes a mutant: its line does not suppress the operator,
/// and it lies outside of the guards.
pub open spec fn is_kept(
    source: Seq<char>,
    guarded: Seq<Span>,
    operator: Seq<char>,
    edit: Edit,
) -> bool {
    !position::suppressed(source, edit.offset, operator) && !inside_any(guarded, edit.offset)
}

/// The mutants for the edits that an operator found in a file.
pub open spec fn kept_mutants(
    path: Seq<char>,
    source: Seq<char>,
    guarded: Seq<Span>,
    operator: Seq<char>,
    found: Seq<Edit>,
) -> Seq<MutantView>
    decreases found.len(),
{
    if found.len() == 0 {
        Seq::empty()
    } else {
        let init = kept_mutants(path, source, guarded, operator, found.drop_last());
        if is_kept(source, guarded, operator, found.last()) {
            init.push(described(path, source, operator, found.last()))
        } else {
            init
        }
    }
}

/// Whether `out` is what the operators of a list generate for a file, one
/// operator after the other.
pub open spec fn generates(
    source: Seq<char>,
    ast: Module,
    ctx: MutationContext<'_>,
    filters: Seq<String>,
    operators: Seq<Registered>,
    out: Seq<MutantView>,
) -> bool
    decreases operators.len(),
{
    if operators.len() == 0 {
        out.len() == 0
    } else if passes(operators.last().label(), filters) {
        exists|init: Seq<MutantView>, found: Seq<Edit>|
            {
                &&& generates(source, ast, ctx, filters, operators.drop_last(), init)
                &&& #[trigger] operators.last().finds(source, ast, ctx, found)
                &&& out == #[trigger] followed_by(
                    init,
                    kept_mutants(
                        ctx.file_path@,
                        source,
                        guards(ast.body@),
                        operators.last().label(),
                        found,
                    ),
                )
            }
    } else {
        generates(source, ast, ctx, filters, operators.drop_last(), out)
    }
}

/// One list of mutants after another.
pub open spec fn followed_by(a: Seq<MutantView>, b: Seq<MutantView>) -> Seq<MutantView> {
    a + b
}

/// The mutants of a list as mathematical values.
pub open spec fn views(list: Seq<Mutant>) -> Seq<MutantView> {
    list.map_values(|m: Mutant| m@)
}

/// Whether every mutant of a list can be applied to `source`, names the text
/// that it replaces there, and belongs to the file at `path`.
pub open spec fn all_apply(path: Seq<char>, source: Seq<char>, list: Seq<MutantView>) -> bool {
    forall|i: int|
        0 <= i < list.len() ==> {
            &&& (#[trigger] list[i]).file_path == path
            &&& text::is_span(source, list[i].offset, list[i].offset + list[i].length)
            &&& text::span(source, list[i].offset, list[i].offset + list[i].length)
                == list[i].original
        }
}

/// The mutant for a mutation that an operator found.
fn to_mutant(path: &str, source: &str, name: &str, mutation: &Mutation) -> (r: Mutant)
    requires
        small(source@),
        faithful(source@, mutation@),
    ensures
        r@ == described(path@, source@, name@, mutation@),
{
    proof {
        let b = text::bytes(source@);
        let at = mutation@.offset;
        assert(position::before(b, at) =~= b.take(at));
        position::lemma_newlines_grow(b, at, at);
    }
    let (line, column) = position::line_column_from_offset(source, mutation.byte_offset);
    Mutant {
        file_path: path.to_owned(),
        line,
        column,
        byte_offset: mutation.byte_offset,
        byte_length: mutation.byte_length,
        original_text: mutation.original_text.clone(),
        mutated_text: mutation.replacement_text.clone(),
        mutator_name: name.to_owned(),
    }
}

/// Appends the mutants for the mutations that an operator found in a file.
fn push_mutants(
    path: &str,
    source: &str,
    guarded: &Vec<Span>,
    name: &str,
    found: &Vec<Mutation>,
    out: &mut Vec<Mutant>,
)
    requires
        small(source@),
        all_faithful(source@, edits(found@)),
        all_apply(path@, source@, views(old(out)@)),
    ensures
        views(final(out)@) == views(old(out)@) + kept_mutants(
            path@,
            source@,
            guarded@,
            name@,
            edits(found@),
        ),
        all_apply(path@, source@, views(final(out)@)),
{
    let mut i: usize = 0;
    assert(views(out@) =~= views(old(out)@) + kept_mutants(
        path@,
        source@,
        guarded@,
        name@,
        edits(found@).take(0),
    ));
    while i < found.len()
        invariant
            i <= found.len(),
            small(source@),
            all_faithful(source@, edits(found@)),
            views(out@) == views(old(out)@) + kept_mutants(
                path@,
                source@,
                guarded@,
                name@,
                edits(found@).take(i as int),
            ),
            all_apply(path@, source@, views(out@)),
        decreases found.len() - i,
    {
        let mutation: &Mutation = &found[i];
        let ghost all = edits(found@);
        proof {
            assert(all[i as int] == mutation@);
            assert(faithful(source@, all[i as int]));
            assert(all.take(i + 1).drop_last() =~= all.take(i as int));
        }
        let keep: bool = !position::is_suppressed_by_pragma(source, mutation.byte_offset, name)
            && !is_inside_any(guarded.as_slice(), mutation.byte_offset);
        if keep {
            let mutant: Mutant = to_mutant(path, source, name, mutation);
            let ghost old_out = out@;
            out.push(mutant);
            assert(views(out@) =~= views(old_out).push(mutant@));
            assert(views(old(out)@) + kept_mutants(
                path@,
                source@,
                guarded@,
                name@,
                all.take(i + 1),
            ) =~= views(old_out).push(mutant@));
        }
        i = i + 1;
    }
    assert(edits(found@).take(i as int) =~= edits(found@));
}

/// The message for a file that cannot be parsed.
pub open spec fn parse_failure(path: Seq<char>, problem: Seq<char>) -> Seq<char> {
    "failed to parse "@ + path + ": "@ + problem
}

/// The message for a file that cannot be read.
pub open spec fn read_failure(path: Seq<char>, problem: Seq<char>) -> Seq<char> {
    "failed to read "@ + path + ": "@ + problem
}

/// Generate mutants for the source text of a single file.
///
/// Parses the text and runs each mutator to produce [`Mutant`] descriptors.
/// Mutators that do not match `filter_operators` are skipped, individual
/// mutations suppressed by pragma comments are left out, and so are those
/// inside a module-level `__main__` guard.
pub fn generate_mutants_for_source(
    path: &str,
    source: &str,
    registry: &MutatorRegistry,
    seed: Option<u64>,
    filter_operators: &[String],
    floats: &[FloatText],
) -> (r: Result<Vec<Mutant>, Error>)
    requires
        small(source@),
    ensures
        match parsed_module(source@) {
            Err(problem) => r matches Err(Error::Mutation(m)) && m@ == parse_failure(
                path@,
                problem,
            ),
            Ok(ast) => r matches Ok(list) && generates(
                source@,
                ast,
                (MutationContext { file_path: path, seed, floats }),
                filter_operators@,
                registry.mutators@,
                views(list@),
            ) && all_apply(path@, source@, views(list@)),
        },
{
    let ast: Module = match parse_module(source) {
        Ok(ast) => ast,
        Err(problem) => {
            return Err(
                Error::Mutation(text::cat4("failed to parse ", path, ": ", problem.as_str())),
            );
        },
    };
    let ctx: MutationContext<'_> = MutationContext { file_path: path, seed, floats };
    let guarded: Vec<Span> = main_guard_ranges(&ast);
    let operators: &[Registered] = registry.iter();
    let mut out: Vec<Mutant> = Vec::new();
    let mut i: usize = 0;
    assert(views(out@) =~= Seq::empty());
    while i < operators.len()
        invariant
            i <= operators@.len(),
            small(source@),
            guarded@ == guards(ast.body@),
            ctx == (MutationContext { file_path: path, seed, floats }),
            generates(
                source@,
                ast,
                ctx,
                filter_operators@,
                operators@.take(i as int),
                views(out@),
            ),
            all_apply(path@, source@, views(out@)),
        decreases operators.len() - i,
    {
        let operator: &Registered = &operators[i];
        let name: &str = operator.name();
        let ghost some = operators@.take(i + 1);
        assert(some.drop_last() =~= operators@.take(i as int));
        assert(some.last() == operators@[i as int]);
        if matches_operator_filter(name, filter_operators) {
            let found: Vec<Mutation> = operator.find_mutations(source, &ast, &ctx);
            let ghost init = views(out@);
            push_mutants(path, source, &guarded, name, &found, &mut out);
            proof {
                let all = edits(found@);
                assert(some.last().finds(source@, ast, ctx, all));
                assert(views(out@) == followed_by(
                    init,
                    kept_mutants(
                        ctx.file_path@,
                        source@,
                        guards(ast.body@),
                        some.last().label(),
                        all,
                    ),
                ));
            }
        }
        i = i + 1;
    }
    assert(operators@.take(i as int) =~= operators@);
    Ok(out)
}

/// Whether a mutant may be generated for a file: its place is told as it is,
/// its line does not suppress its operator, it lies outside of the `__main__`
/// guards, and its operator is registered and passes the filters.
pub open spec fn is_allowed(
    source: Seq<char>,
    ast: Module,
    ctx: MutationContext<'_>,
    filters: Seq<String>,
    operators: Seq<Registered>,
    mutant: MutantView,
) -> bool {
    &&& mutant.file_path == ctx.file_path@
    &&& mutant == described(ctx.file_path@, source, mutant.mutator, edit_of(mutant))
    &&& !position::suppressed(source, mutant.offset, mutant.mutator)
    &&& !inside_any(guards(ast.body@), mutant.offset)
    &&& passes(mutant.mutator, filters)
    &&& exists|k: int|
        0 <= k < operators.len() && (#[trigger] operators[k]).label() == mutant.mutator
}

/// The edit that a mutant makes.
pub open spec fn edit_of(mutant: MutantView) -> Edit {
    Edit {
        offset: mutant.offset,
        length: mutant.length,
        original: mutant.original,
        replacement: mutant.mutated,
    }
}

/// The mutants for the edits of an operator are kept ones.
proof fn lemma_kept_mutants_are_kept(
    path: Seq<char>,
    source: Seq<char>,
    guarded: Seq<Span>,
    operator: Seq<char>,
    found: Seq<Edit>,
    i: int,
)
    requires
        0 <= i < kept_mutants(path, source, guarded, operator, found).len(),
    ensures
        ({
            let mutant = kept_mutants(path, source, guarded, operator, found)[i];
            &&& mutant == described(path, source, operator, edit_of(mutant))
            &&& is_kept(source, guarded, operator, edit_of(mutant))
        }),
    decreases found.len(),
{
    let init = kept_mutants(path, source, guarded, operator, found.drop_last());
    if i < init.len() {
        lemma_kept_mutants_are_kept(path, source, guarded, operator, found.drop_last(), i);
    } else {
        let mutant = described(path, source, operator, found.last());
        assert(edit_of(mutant) == found.last());
    }
}

/// Every mutant that is generated for a file is allowed there: no mutant
/// starts inside a `__main__` guard or on a line that suppresses its operator,
/// none comes from an operator that the filters leave out, and each tells its
/// place as it is.
pub proof fn law_generated_mutants_are_allowed(
    source: Seq<char>,
    ast: Module,
    ctx: MutationContext<'_>,
    filters: Seq<String>,
    operators: Seq<Registered>,
    out: Seq<MutantView>,
    i: int,
)
    requires
        generates(source, ast, ctx, filters, operators, out),
        0 <= i < out.len(),
    ensures
        is_allowed(source, ast, ctx, filters, operators, out[i]),
    decreases operators.len(),
{
    let last = operators.last();
    let rest = operators.drop_last();
    if passes(last.label(), filters) {
        let (init, found) = choose|init: Seq<MutantView>, found: Seq<Edit>|
            {
                &&& generates(source, ast, ctx, filters, rest, init)
                &&& #[trigger] last.finds(source, ast, ctx, found)
                &&& out == #[trigger] followed_by(
                    init,
                    kept_mutants(
                        ctx.file_path@,
                        source,
                        guards(ast.body@),
                        last.label(),
                        found,
                    ),
                )
            };
        if i < init.len() {
            law_generated_mutants_are_allowed(source, ast, ctx, filters, rest, init, i);
            let k = choose|k: int|
                0 <= k < rest.len() && (#[trigger] rest[k]).label() == init[i].mutator;
            assert(operators[k] == rest[k]);
        } else {
            lemma_kept_mutants_are_kept(
                ctx.file_path@,
                source,
                guards(ast.body@),
                last.label(),
                found,
                i - init.len(),
            );
            assert(operators[operators.len() - 1] == last);
        }
    } else {
        law_generated_mutants_are_allowed(source, ast, ctx, filters, rest, out, i);
        let k = choose|k: int|
            0 <= k < rest.len() && (#[trigger] rest[k]).label() == out[i].mutator;
        assert(operators[k] == rest[k]);
    }
}

/// What built-in mutators generate for a file follows from the path, the seed
/// and the float texts: two lists that they may generate are equal. With a seed
/// this needs that hashing gives one value for what it is handed.
pub proof fn law_generated_mutants_are_decided(
    source: Seq<char>,
    ast: Module,
    first: MutationContext<'_>,
    second: MutationContext<'_>,
    filters: Seq<String>,
    operators: Seq<Registered>,
    a: Seq<MutantView>,
    b: Seq<MutantView>,
)
    requires
        all_builtin(operators),
        first.file_path@ == second.file_path@,
        first.seed == second.seed,
        first.floats@ == second.floats@,
        generates(source, ast, first, filters, operators, a),
        generates(source, ast, second, filters, operators, b),
    ensures
        is_decided() || first.seed is None ==> a == b,
    decreases operators.len(),
{
    if operators.len() == 0 {
        assert(a =~= b);
    } else {
        let last = operators.last();
        let rest = operators.drop_last();
        assert(operators[operators.len() - 1] is Builtin);
        if passes(last.label(), filters) {
            let guarded = guards(ast.body@);
            let (x, p) = choose|init: Seq<MutantView>, found: Seq<Edit>|
                {
                    &&& generates(source, ast, first, filters, rest, init)
                    &&& #[trigger] last.finds(source, ast, first, found)
                    &&& a == #[trigger] followed_by(
                        init,
                        kept_mutants(first.file_path@, source, guarded, last.label(), found),
                    )
                };
            let (y, q) = choose|init: Seq<MutantView>, found: Seq<Edit>|
                {
                    &&& generates(source, ast, second, filters, rest, init)
                    &&& #[trigger] last.finds(source, ast, second, found)
                    &&& b == #[trigger] followed_by(
                        init,
                        kept_mutants(second.file_path@, source, guarded, last.label(), found),
                    )
                };
            law_builtin_edits_are_decided(last->Builtin_0, source, ast, first, second, p, q);
            law_generated_mutants_are_decided(
                source,
                ast,
                first,
                second,
                filters,
                rest,
                x,
                y,
            );
        } else {
            law_generated_mutants_are_decided(source, ast, first, second, filters, rest, a, b);
        }
    }
}

/// Of the edits of an operator, those that no pragma suppresses and no guard
/// covers become mutants, each its own, in their order.
pub proof fn law_kept_edits_become_mutants(
    path: Seq<char>,
    source: Seq<char>,
    guarded: Seq<Span>,
    operator: Seq<char>,
    found: Seq<Edit>,
)
    ensures
        kept_mutants(path, source, guarded, operator, found) == found.filter_map(
            |edit: Edit|
                if position::suppressed(source, edit.offset, operator) || inside_any(
                    guarded,
                    edit.offset,
                ) {
                    None
                } else {
                    Some(described(path, source, operator, edit))
                },
        ),
    decreases found.len(),
{
    let keep = |edit: Edit|
        if position::suppressed(source, edit.offset, operator) || inside_any(guarded, edit.offset) {
            None
        } else {
            Some(described(path, source, operator, edit))
        };
    if found.len() > 0 {
        law_kept_edits_become_mutants(path, source, guarded, operator, found.drop_last());
        assert(kept_mutants(path, source, guarded, operator, found) =~= found.filter_map(keep));
    }
}

/// A mutant says where its edit is and what it changes.
pub proof fn law_mutants_describe_their_edit(
    path: Seq<char>,
    source: Seq<char>,
    operator: Seq<char>,
    edit: Edit,
)
    requires
        position::line_of(text::bytes(source), edit.offset) <= u32::MAX,
    ensures
        ({
            let mutant = described(path, source, operator, edit);
            &&& mutant.file_path == path
            &&& mutant.mutator == operator
            &&& mutant.offset == edit.offset
            &&& mutant.length == edit.length
            &&& mutant.original == edit.original
            &&& mutant.mutated == edit.replacement
            &&& mutant.line == position::line_of(text::bytes(source), edit.offset)
            &&& 1 <= position::column_of(text::bytes(source), edit.offset) <= u32::MAX
                ==> mutant.column == position::column_of(text::bytes(source), edit.offset)
        }),
{
}

/// Whether all edits that are kept are among the mutants.
pub open spec fn holds_kept(
    path: Seq<char>,
    source: Seq<char>,
    guarded: Seq<Span>,
    operator: Seq<char>,
    found: Seq<Edit>,
    out: Seq<MutantView>,
) -> bool {
    forall|i: int|
        0 <= i < found.len() && !position::suppressed(source, (#[trigger] found[i]).offset, operator)
            && !inside_any(guarded, found[i].offset) ==> out.contains(
            described(path, source, operator, found[i]),
        )
}

proof fn lemma_kept_are_held(
    path: Seq<char>,
    source: Seq<char>,
    guarded: Seq<Span>,
    operator: Seq<char>,
    found: Seq<Edit>,
)
    ensures
        holds_kept(
            path,
            source,
            guarded,
            operator,
            found,
            kept_mutants(path, source, guarded, operator, found),
        ),
    decreases found.len(),
{
    let all = kept_mutants(path, source, guarded, operator, found);
    if found.len() > 0 {
        let rest = found.drop_last();
        let init = kept_mutants(path, source, guarded, operator, rest);
        lemma_kept_are_held(path, source, guarded, operator, rest);
        assert forall|i: int|
            0 <= i < found.len() && !position::suppressed(
                source,
                (#[trigger] found[i]).offset,
                operator,
            ) && !inside_any(guarded, found[i].offset) implies all.contains(
            described(path, source, operator, found[i]),
        ) by {
            if i < rest.len() {
                assert(rest[i] == found[i]);
                let m = described(path, source, operator, rest[i]);
                assert(init.contains(m));
                let k = choose|k: int| 0 <= k < init.len() && init[k] == m;
                assert(all[k] == m);
            } else {
                assert(all[all.len() - 1] == described(path, source, operator, found[i]));
            }
        }
    }
}

/// Every operator that passes the filters is run, and all of its edits that are
/// kept are among the mutants.
pub proof fn law_every_operator_is_run(
    source: Seq<char>,
    ast: Module,
    ctx: MutationContext<'_>,
    filters: Seq<String>,
    operators: Seq<Registered>,
    out: Seq<MutantView>,
    k: int,
) -> (found: Seq<Edit>)
    requires
        generates(source, ast, ctx, filters, operators, out),
        0 <= k < operators.len(),
        passes(operators[k].label(), filters),
    ensures
        operators[k].finds(source, ast, ctx, found),
        holds_kept(
            ctx.file_path@,
            source,
            guards(ast.body@),
            operators[k].label(),
            found,
            out,
        ),
    decreases operators.len(),
{
    let rest = operators.drop_last();
    let last = operators.last();
    let path = ctx.file_path@;
    let guarded = guards(ast.body@);
    assert(operators[operators.len() - 1] == last);
    if passes(last.label(), filters) {
        let (init, own) = choose|init: Seq<MutantView>, own: Seq<Edit>|
            {
                &&& generates(source, ast, ctx, filters, rest, init)
                &&& #[trigger] last.finds(source, ast, ctx, own)
                &&& out == #[trigger] followed_by(
                    init,
                    kept_mutants(path, source, guarded, last.label(), own),
                )
            };
        let kept = kept_mutants(path, source, guarded, last.label(), own);
        assert(out == followed_by(init, kept));
        assert forall|m: MutantView| #[trigger] init.contains(m) implies out.contains(m) by {
            let i = choose|i: int| 0 <= i < init.len() && init[i] == m;
            assert(out[i] == m);
        }
        assert forall|m: MutantView| #[trigger] kept.contains(m) implies out.contains(m) by {
            let i = choose|i: int| 0 <= i < kept.len() && kept[i] == m;
            assert(out[init.len() + i] == m);
        }
        if k < rest.len() {
            assert(rest[k] == operators[k]);
            let found = law_every_operator_is_run(source, ast, ctx, filters, rest, init, k);
            lemma_kept_are_passed_on(path, source, guarded, rest[k].label(), found, init, out);
            found
        } else {
            lemma_kept_are_held(path, source, guarded, last.label(), own);
            lemma_kept_are_passed_on(path, source, guarded, last.label(), own, kept, out);
            own
        }
    } else {
        assert(k < rest.len());
        assert(rest[k] == operators[k]);
        law_every_operator_is_run(source, ast, ctx, filters, rest, out, k)
    }
}

proof fn lemma_kept_are_passed_on(
    path: Seq<char>,
    source: Seq<char>,
    guarded: Seq<Span>,
    operator: Seq<char>,
    found: Seq<Edit>,
    part: Seq<MutantView>,
    out: Seq<MutantView>,
)
    requires
        holds_kept(path, source, guarded, operator, found, part),
        forall|m: MutantView| #[trigger] part.contains(m) ==> out.contains(m),
    ensures
        holds_kept(path, source, guarded, operator, found, out),
{
    assert forall|i: int|
        0 <= i < found.len() && !position::suppressed(source, (#[trigger] found[i]).offset, operator)
            && !inside_any(guarded, found[i].offset) implies out.contains(
        described(path, source, operator, found[i]),
    ) by {
        assert(part.contains(described(path, source, operator, found[i])));
    }
}

} // verus!
