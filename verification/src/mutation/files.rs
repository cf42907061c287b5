//! Generation of mutants for a set of files.
use crate::ast::Module;
use crate::config::types::{MutatorConfig, MutatorFlags, PerFileConfig};
use crate::error::Error;
use crate::mutation::generate::{
    all_apply, generate_mutants_for_source, generates, law_generated_mutants_are_decided,
    parse_failure, read_failure, small, views,
};
use crate::mutation::mutant::{Mutant, MutantView};
use crate::mutation::mutator::{FloatText, MutationContext};
use crate::mutation::registry::{
    all_builtin, build_registry, enabled, lemma_switched_on_are_builtin, switches, MutatorRegistry,
    Registered,
};
use crate::mutation::seed::is_decided;
use crate::order;
use crate::parse::parsed_module;
use crate::paths;
use crate::pattern;
use crate::text;
use vstd::prelude::*;

verus! {

/// Options for mutant generation that control filtering and per-file overrides.
#[derive(Debug)]
pub struct GenerationOptions<'opts> {
    /// RNG seed for deterministic mutant generation.
    pub seed: Option<u64>,
    /// Operator filter patterns.
    pub filter_operators: &'opts [String],
    /// Path filter patterns.
    pub filter_paths: &'opts [String],
    /// Per-file configuration overrides.
    pub per_file: &'opts [PerFileConfig],
    /// Global mutator config for merging with per-file overrides.
    pub global_mutators: &'opts MutatorConfig,
}

/// A source file that has been read.
#[derive(Debug)]
pub struct SourceFile {
    /// Path of the file.
    pub path: String,
    /// Its text, or why it could not be read.
    pub content: Result<String, String>,
    /// Replacement texts for its float literals.
    pub floats: Vec<FloatText>,
}

impl SourceFile {
    /// Whether the text is short enough to be parsed.
    pub open spec fn fits(self) -> bool {
        self.content matches Ok(source) ==> small(source@)
    }
}

/// The last entry whose pattern matches a path.
pub open spec fn last_match(per_file: Seq<PerFileConfig>, path: Seq<char>) -> Option<PerFileConfig>
    decreases per_file.len(),
{
    if per_file.len() == 0 {
        None
    } else if pattern::pattern_matches(per_file.last().pattern@, path) {
        Some(per_file.last())
    } else {
        last_match(per_file.drop_last(), path)
    }
}

/// Find the last matching per-file config for a path.
///
/// Later entries override earlier ones ("last match wins").
pub fn find_per_file_config<'pf>(path: &str, per_file: &'pf [PerFileConfig]) -> (r: Option<
    &'pf PerFileConfig,
>)
    ensures
        r is Some <==> last_match(per_file@, path@) is Some,
        r matches Some(found) ==> last_match(per_file@, path@) == Some(*found),
{
    let mut i: usize = per_file.len();
    assert(per_file@.take(i as int) =~= per_file@);
    while i > 0
        invariant
            i <= per_file@.len(),
            last_match(per_file@, path@) == last_match(per_file@.take(i as int), path@),
        decreases i,
    {
        assert(per_file@.take(i as int).drop_last() =~= per_file@.take(i - 1));
        if pattern::glob_matches(per_file[i - 1].pattern.as_str(), path) {
            return Some(&per_file[i - 1]);
        }
        i = i - 1;
    }
    None
}

/// A later entry that matches a path wins over all before it.
pub proof fn law_last_match_wins(per_file: Seq<PerFileConfig>, path: Seq<char>, i: int)
    requires
        0 <= i < per_file.len(),
        pattern::pattern_matches(per_file[i].pattern@, path),
        forall|j: int|
            i < j < per_file.len() ==> !pattern::pattern_matches(
                #[trigger] per_file[j].pattern@,
                path,
            ),
    ensures
        last_match(per_file, path) == Some(per_file[i]),
    decreases per_file.len(),
{
    if i < per_file.len() - 1 {
        law_last_match_wins(per_file.drop_last(), path, i);
    }
}

/// The operators that run on a file, or none when the file is skipped. They
/// are those of the registry unless the file has overrides of its own.
pub open spec fn operators_for(
    path: Seq<char>,
    registered: Seq<Registered>,
    per_file: Seq<PerFileConfig>,
    global: MutatorFlags,
) -> Option<Seq<Registered>> {
    match last_match(per_file, path) {
        None => Some(registered),
        Some(entry) => if entry.skip {
            None
        } else {
            match entry.mutators {
                None => Some(registered),
                Some(over) => Some(enabled(crate::config::types::overridden(global, over))),
            }
        },
    }
}

/// Why a file cannot be mutated, if it cannot.
pub open spec fn file_error(file: SourceFile, per_file: Seq<PerFileConfig>) -> Option<Seq<char>> {
    if last_match(per_file, file.path@) matches Some(entry) && entry.skip {
        None
    } else {
        match file.content {
            Err(problem) => Some(read_failure(file.path@, problem@)),
            Ok(source) => match parsed_module(source@) {
                Err(problem) => Some(parse_failure(file.path@, problem)),
                Ok(_) => None,
            },
        }
    }
}

/// Whether `out` is what operators generate in a context with the given path,
/// seed and float texts.
pub open spec fn runs(
    source: Seq<char>,
    ast: Module,
    path: Seq<char>,
    seed: Option<u64>,
    floats: Seq<FloatText>,
    filters: Seq<String>,
    operators: Seq<Registered>,
    out: Seq<MutantView>,
) -> bool {
    exists|ctx: MutationContext<'_>|
        {
            &&& ctx.file_path@ == path
            &&& ctx.seed == seed
            &&& ctx.floats@ == floats
            &&& #[trigger] generates(source, ast, ctx, filters, operators, out)
        }
}

/// Whether `out` is what the operators generate for a file.
pub open spec fn file_generates(
    file: SourceFile,
    registered: Seq<Registered>,
    opts: GenerationOptions<'_>,
    out: Seq<MutantView>,
) -> bool {
    match operators_for(file.path@, registered, opts.per_file@, opts.global_mutators.flags()) {
        None => out.len() == 0,
        Some(operators) => {
            &&& file.content matches Ok(source)
            &&& parsed_module(source@) matches Ok(ast)
            &&& runs(
                source@,
                ast,
                file.path@,
                opts.seed,
                file.floats@,
                opts.filter_operators@,
                operators,
                out,
            )
            &&& all_apply(file.path@, source@, out)
        },
    }
}

/// Generate mutants for a single file.
///
/// A file that its last matching per-file entry skips has none, and need not
/// be readable.
pub fn generate_mutants_for_file(
    file: &SourceFile,
    registry: &MutatorRegistry,
    opts: &GenerationOptions<'_>,
) -> (r: Result<Vec<Mutant>, Error>)
    requires
        file.fits(),
    ensures
        match file_error(*file, opts.per_file@) {
            Some(problem) => r matches Err(Error::Mutation(m)) && m@ == problem,
            None => r matches Ok(list) && file_generates(
                *file,
                registry.mutators@,
                *opts,
                views(list@),
            ),
        },
{
    let path: &str = file.path.as_str();
    let entry: Option<&PerFileConfig> = find_per_file_config(path, opts.per_file);
    if let Some(found) = entry {
        if found.skip {
            let none: Vec<Mutant> = Vec::new();
            assert(views(none@) =~= Seq::empty());
            return Ok(none);
        }
    }
    let source: &String = match &file.content {
        Ok(source) => source,
        Err(problem) => {
            return Err(
                Error::Mutation(text::cat4("failed to read ", path, ": ", problem.as_str())),
            );
        },
    };
    let floats: &[FloatText] = file.floats.as_slice();
    if let Some(found) = entry {
        if let Some(over) = &found.mutators {
            let merged: MutatorConfig = opts.global_mutators.with_overrides(over);
            let own: MutatorRegistry = build_registry(&merged);
            return generate_mutants_for_source(
                path,
                source.as_str(),
                &own,
                opts.seed,
                opts.filter_operators,
                floats,
            );
        }
    }
    generate_mutants_for_source(
        path,
        source.as_str(),
        registry,
        opts.seed,
        opts.filter_operators,
        floats,
    )
}

/// Whether the path filters pick a file. Without filters all files are picked.
pub open spec fn is_picked(path: Seq<char>, filters: Seq<String>) -> bool {
    filters.len() == 0 || pattern::matched_by_any(filters, path)
}

/// The patterns of a list of per-file entries.
pub open spec fn entry_patterns(per_file: Seq<PerFileConfig>) -> Seq<String> {
    per_file.map_values(|entry: PerFileConfig| entry.pattern)
}

/// The first error among the picked files.
pub open spec fn first_file_error(
    files: Seq<SourceFile>,
    filters: Seq<String>,
    per_file: Seq<PerFileConfig>,
) -> Option<Seq<char>>
    decreases files.len(),
{
    if files.len() == 0 {
        None
    } else {
        match first_file_error(files.drop_last(), filters, per_file) {
            Some(problem) => Some(problem),
            None => if is_picked(files.last().path@, filters) {
                file_error(files.last(), per_file)
            } else {
                None
            },
        }
    }
}

/// Why no mutants can be generated for a set of files, if none can: a path
/// filter is invalid, or the pattern of a per-file entry, or a picked file
/// cannot be read or parsed. The first of these is reported.
pub open spec fn generation_error(files: Seq<SourceFile>, opts: GenerationOptions<'_>) -> Option<
    Seq<char>,
> {
    match pattern::first_invalid("filter_paths"@, opts.filter_paths@) {
        Some(problem) => Some(problem),
        None => match pattern::first_invalid("per-file"@, entry_patterns(opts.per_file@)) {
            Some(problem) => Some(problem),
            None => first_file_error(files, opts.filter_paths@, opts.per_file@),
        },
    }
}

/// Whether `parts` holds what each file generates, and nothing for a file
/// that is not picked.
pub open spec fn parts_of(
    files: Seq<SourceFile>,
    registered: Seq<Registered>,
    opts: GenerationOptions<'_>,
    parts: Seq<Seq<MutantView>>,
) -> bool {
    &&& parts.len() == files.len()
    &&& forall|i: int|
        0 <= i < files.len() ==> if is_picked(files[i].path@, opts.filter_paths@) {
            file_generates(files[i], registered, opts, #[trigger] parts[i])
        } else {
            parts[i].len() == 0
        }
}

/// Lists of mutants in a row.
pub open spec fn flat(parts: Seq<Seq<MutantView>>) -> Seq<MutantView>
    decreases parts.len(),
{
    if parts.len() == 0 {
        Seq::empty()
    } else {
        flat(parts.drop_last()) + parts.last()
    }
}

/// Whether one mutant is sorted before another: by path, then by offset.
pub open spec fn is_placed_before(a: MutantView, b: MutantView) -> bool {
    ||| paths::path_less(a.file_path, b.file_path)
    ||| paths::same_path(a.file_path, b.file_path) && a.offset < b.offset
}

/// Whether `out` holds the mutants of `list` sorted by path and offset, those
/// of one place in the order of the list.
pub open spec fn sorted_by_place(list: Seq<MutantView>, out: Seq<MutantView>) -> bool {
    exists|order: Seq<usize>|
        {
            &&& order::covers(order, 0, list.len() as int)
            &&& #[trigger] arranged(list, order, out)
        }
}

/// Whether `out` holds the mutants of `list` in the given order, which sorts
/// them by path and offset and keeps those of one place as they were.
pub open spec fn arranged(
    list: Seq<MutantView>,
    order: Seq<usize>,
    out: Seq<MutantView>,
) -> bool {
    &&& out.len() == order.len()
    &&& forall|i: int| 0 <= i < out.len() ==> #[trigger] out[i] == list[order[i] as int]
    &&& forall|i: int, j: int|
        0 <= i < j < out.len() ==> {
            ||| is_placed_before(#[trigger] out[i], #[trigger] out[j])
            ||| !is_placed_before(out[j], out[i]) && order[i] < order[j]
        }
}

/// Whether `out` is what the operators generate for a set of files.
pub open spec fn set_generates(
    files: Seq<SourceFile>,
    registered: Seq<Registered>,
    opts: GenerationOptions<'_>,
    out: Seq<MutantView>,
) -> bool {
    exists|parts: Seq<Seq<MutantView>>|
        #[trigger] parts_of(files, registered, opts, parts) && sorted_by_place(flat(parts), out)
}

/// Checks that the patterns of all per-file entries are valid.
fn check_per_file_patterns(per_file: &[PerFileConfig]) -> (r: Result<(), Error>)
    ensures
        pattern::checked(r, pattern::first_invalid("per-file"@, entry_patterns(per_file@))),
{
    let mut patterns: Vec<String> = Vec::new();
    let mut i: usize = 0;
    while i < per_file.len()
        invariant
            i <= per_file@.len(),
            patterns@ == entry_patterns(per_file@.take(i as int)),
        decreases per_file.len() - i,
    {
        patterns.push(per_file[i].pattern.clone());
        assert(patterns@ =~= entry_patterns(per_file@.take(i + 1)));
        i = i + 1;
    }
    assert(per_file@.take(i as int) =~= per_file@);
    pattern::check_patterns("per-file", patterns.as_slice())
}

/// The mutants of a list sorted by path and offset.
pub fn sort_mutants(list: &Vec<Mutant>) -> (r: Vec<Mutant>)
    ensures
        sorted_by_place(views(list@), views(r@)),
{
    let mut keys: Vec<order::SortKey> = Vec::new();
    let mut i: usize = 0;
    while i < list.len()
        invariant
            i <= list.len(),
            keys@.len() == i,
            forall|j: int|
                0 <= j < i ==> (#[trigger] keys@[j]).major@ == paths::path_key(list@[j].file_path@)
                    && keys@[j].minor == list@[j].byte_offset,
        decreases list.len() - i,
    {
        keys.push(
            order::SortKey {
                major: paths::sort_key(list[i].file_path.as_str()),
                minor: list[i].byte_offset as u64,
            },
        );
        i = i + 1;
    }
    let order: Vec<usize> = order::sorted_indices(&keys);
    let mut r: Vec<Mutant> = Vec::new();
    let mut k: usize = 0;
    while k < order.len()
        invariant
            k <= order.len(),
            order::covers(order@, 0, list@.len() as int),
            r@.len() == k,
            forall|j: int| 0 <= j < k ==> #[trigger] r@[j] == list@[order@[j] as int],
        decreases order.len() - k,
    {
        r.push(list[order[k]].clone());
        k = k + 1;
    }
    proof {
        let all = views(list@);
        let out = views(r@);
        assert forall|i: int, j: int| 0 <= i < j < out.len() implies {
            ||| is_placed_before(#[trigger] out[i], #[trigger] out[j])
            ||| !is_placed_before(out[j], out[i]) && order@[i] < order@[j]
        } by {
            let a = order@[i] as int;
            let b = order@[j] as int;
            assert(order::sorts_before(keys@, a, b));
            order::lemma_lex_total(keys@[a].major@, keys@[b].major@);
        }
        assert(arranged(all, order@, out));
    }
    r
}

/// Generate mutants for a set of files.
///
/// Runs every mutator in the `registry` on each file, and sorts the mutants
/// by path and offset. When `filter_paths` is non-empty, only files whose
/// path matches at least one glob pattern are processed. When
/// `filter_operators` is non-empty, only matching operators are applied.
pub fn generate_mutants_for_files(
    files: &[SourceFile],
    registry: &MutatorRegistry,
    opts: &GenerationOptions<'_>,
) -> (r: Result<Vec<Mutant>, Error>)
    requires
        forall|i: int| 0 <= i < files@.len() ==> (#[trigger] files@[i]).fits(),
    ensures
        match generation_error(files@, *opts) {
            Some(problem) => r matches Err(Error::Mutation(m)) && m@ == problem,
            None => r matches Ok(list) && set_generates(
                files@,
                registry.mutators@,
                *opts,
                views(list@),
            ),
        },
{
    if let Err(problem) = pattern::check_patterns("filter_paths", opts.filter_paths) {
        return Err(problem);
    }
    if let Err(problem) = check_per_file_patterns(opts.per_file) {
        return Err(problem);
    }
    let mut all: Vec<Mutant> = Vec::new();
    let ghost mut parts: Seq<Seq<MutantView>> = Seq::empty();
    let mut i: usize = 0;
    assert(views(all@) =~= flat(parts));
    assert(files@.take(0) =~= Seq::empty());
    while i < files.len()
        invariant
            i <= files@.len(),
            forall|i: int| 0 <= i < files@.len() ==> (#[trigger] files@[i]).fits(),
            pattern::first_invalid("filter_paths"@, opts.filter_paths@) is None,
            pattern::first_invalid("per-file"@, entry_patterns(opts.per_file@)) is None,
            first_file_error(files@.take(i as int), opts.filter_paths@, opts.per_file@) is None,
            parts_of(files@.take(i as int), registry.mutators@, *opts, parts),
            views(all@) == flat(parts),
        decreases files.len() - i,
    {
        let file: &SourceFile = &files[i];
        let ghost some = files@.take(i + 1);
        let ghost old_parts = parts;
        assert(some.drop_last() =~= files@.take(i as int));
        assert(some.last() == *file);
        let picked: bool = opts.filter_paths.len() == 0 || pattern::matches_any(
            opts.filter_paths,
            file.path.as_str(),
        );
        if picked {
            match generate_mutants_for_file(file, registry, opts) {
                Ok(list) => {
                    let mut more: Vec<Mutant> = list;
                    let ghost before = all@;
                    let ghost added = more@;
                    all.append(&mut more);
                    proof {
                        parts = parts.push(views(added));
                        assert(views(all@) =~= views(before) + views(added));
                    }
                },
                Err(problem) => {
                    proof {
                        lemma_error_stays(files@, i + 1, opts.filter_paths@, opts.per_file@);
                    }
                    return Err(problem);
                },
            }
        } else {
            proof {
                parts = parts.push(Seq::empty());
            }
        }
        proof {
            assert(parts.drop_last() =~= old_parts);
            assert forall|j: int| 0 <= j < some.len() implies if is_picked(
                some[j].path@,
                opts.filter_paths@,
            ) {
                file_generates(some[j], registry.mutators@, *opts, #[trigger] parts[j])
            } else {
                parts[j].len() == 0
            } by {
                if j < i {
                    assert(parts[j] == old_parts[j]);
                    assert(files@.take(i as int)[j] == some[j]);
                }
            }
            assert(views(all@) =~= flat(parts));
        }
        i = i + 1;
    }
    assert(files@.take(i as int) =~= files@);
    let sorted: Vec<Mutant> = sort_mutants(&all);
    assert(parts_of(files@, registry.mutators@, *opts, parts));
    Ok(sorted)
}

/// The first error of a prefix of the files is the first of all of them.
proof fn lemma_error_stays(
    files: Seq<SourceFile>,
    i: int,
    filters: Seq<String>,
    per_file: Seq<PerFileConfig>,
)
    requires
        0 <= i <= files.len(),
        first_file_error(files.take(i), filters, per_file) is Some,
    ensures
        first_file_error(files, filters, per_file) == first_file_error(
            files.take(i),
            filters,
            per_file,
        ),
    decreases files.len() - i,
{
    if i < files.len() {
        assert(files.take(i + 1).drop_last() =~= files.take(i));
        lemma_error_stays(files, i + 1, filters, per_file);
    } else {
        assert(files.take(i) =~= files);
    }
}

/// Mutants are sorted by path and offset: none comes before one of an
/// earlier place.
pub proof fn law_sorted_by_place(list: Seq<MutantView>, out: Seq<MutantView>, i: int, j: int)
    requires
        sorted_by_place(list, out),
        0 <= i < j < out.len(),
    ensures
        !is_placed_before(out[j], out[i]),
{
    let order = choose|order: Seq<usize>|
        {
            &&& order::covers(order, 0, list.len() as int)
            &&& #[trigger] arranged(list, order, out)
        };
    assert(arranged(list, order, out));
    order::lemma_lex_total(
        paths::path_key(out[i].file_path),
        paths::path_key(out[j].file_path),
    );
    if is_placed_before(out[i], out[j]) {
    } else {
        assert(!is_placed_before(out[j], out[i]));
    }
}

/// Sorting keeps the mutants: each of the list is in the result, and as many
/// come out as go in.
pub proof fn law_sorting_loses_nothing(list: Seq<MutantView>, out: Seq<MutantView>, k: int)
    requires
        sorted_by_place(list, out),
        0 <= k < list.len(),
    ensures
        out.len() == list.len(),
        out.contains(list[k]),
{
    let order = choose|order: Seq<usize>|
        {
            &&& order::covers(order, 0, list.len() as int)
            &&& #[trigger] arranged(list, order, out)
        };
    order::lemma_covers_all(order, list.len() as int, k);
    let p = choose|p: int| 0 <= p < order.len() && #[trigger] order[p] == k;
    assert(out[p] == list[order[p] as int]);
}

/// Two orders that sort a list agree up to a place.
proof fn lemma_orders_agree(
    list: Seq<MutantView>,
    first: Seq<usize>,
    second: Seq<usize>,
    a: Seq<MutantView>,
    b: Seq<MutantView>,
    k: int,
)
    requires
        order::covers(first, 0, list.len() as int),
        order::covers(second, 0, list.len() as int),
        arranged(list, first, a),
        arranged(list, second, b),
        0 <= k <= list.len(),
    ensures
        first.take(k) == second.take(k),
    decreases k,
{
    if k > 0 {
        let at = k - 1;
        lemma_orders_agree(list, first, second, a, b, at);
        assert forall|i: int| 0 <= i < at implies first[i] == second[i] by {
            assert(first.take(at)[i] == second.take(at)[i]);
        }
        if first[at] != second[at] {
            let x = first[at] as int;
            let y = second[at] as int;
            order::lemma_covers_all(second, list.len() as int, x);
            order::lemma_covers_all(first, list.len() as int, y);
            let p = choose|p: int| 0 <= p < second.len() && #[trigger] second[p] == x;
            let q = choose|q: int| 0 <= q < first.len() && #[trigger] first[q] == y;
            assert(at < p) by {
                if p < at {
                    assert(first[p] == first[at]);
                }
            }
            assert(at < q) by {
                if q < at {
                    assert(second[q] == second[at]);
                }
            }
            assert(a[at] == list[x] && a[q] == list[y]);
            assert(b[at] == list[y] && b[p] == list[x]);
            order::lemma_lex_total(
                paths::path_key(list[x].file_path),
                paths::path_key(list[y].file_path),
            );
            assert(false);
        }
        assert(first.take(k) =~= first.take(at).push(first[at]));
        assert(second.take(k) =~= second.take(at).push(second[at]));
    }
}

/// There is one way to sort a list of mutants by place.
pub proof fn law_sorting_is_decided(
    list: Seq<MutantView>,
    a: Seq<MutantView>,
    b: Seq<MutantView>,
)
    requires
        sorted_by_place(list, a),
        sorted_by_place(list, b),
    ensures
        a == b,
{
    let first = choose|order: Seq<usize>|
        {
            &&& order::covers(order, 0, list.len() as int)
            &&& #[trigger] arranged(list, order, a)
        };
    let second = choose|order: Seq<usize>|
        {
            &&& order::covers(order, 0, list.len() as int)
            &&& #[trigger] arranged(list, order, b)
        };
    lemma_orders_agree(list, first, second, a, b, list.len() as int);
    assert(first.take(list.len() as int) =~= first);
    assert(second.take(list.len() as int) =~= second);
    assert(a =~= b);
}

/// The same seed gives the same mutants: two runs of built-in mutators on the
/// same files, with the same options, generate equal lists. With a seed this
/// needs that hashing gives one value for what it is handed.
pub proof fn law_same_seed_gives_same_mutants(
    files: Seq<SourceFile>,
    registered: Seq<Registered>,
    opts: GenerationOptions<'_>,
    a: Seq<MutantView>,
    b: Seq<MutantView>,
)
    requires
        all_builtin(registered),
        set_generates(files, registered, opts, a),
        set_generates(files, registered, opts, b),
    ensures
        is_decided() || opts.seed is None ==> a == b,
{
    if is_decided() || opts.seed is None {
        let first = choose|parts: Seq<Seq<MutantView>>|
            #[trigger] parts_of(files, registered, opts, parts) && sorted_by_place(flat(parts), a);
        let second = choose|parts: Seq<Seq<MutantView>>|
            #[trigger] parts_of(files, registered, opts, parts) && sorted_by_place(flat(parts), b);
        assert forall|i: int| 0 <= i < files.len() implies first[i] == second[i] by {
            if is_picked(files[i].path@, opts.filter_paths@) {
                lemma_file_is_decided(files[i], registered, opts, first[i], second[i]);
            } else {
                assert(first[i] =~= second[i]);
            }
        }
        assert(first =~= second);
        law_sorting_is_decided(flat(first), a, b);
    }
}

/// What built-in mutators generate for one file is decided.
proof fn lemma_file_is_decided(
    file: SourceFile,
    registered: Seq<Registered>,
    opts: GenerationOptions<'_>,
    a: Seq<MutantView>,
    b: Seq<MutantView>,
)
    requires
        all_builtin(registered),
        file_generates(file, registered, opts, a),
        file_generates(file, registered, opts, b),
        is_decided() || opts.seed is None,
    ensures
        a == b,
{
    let global = opts.global_mutators.flags();
    match operators_for(file.path@, registered, opts.per_file@, global) {
        None => {
            assert(a =~= b);
        },
        Some(operators) => {
            if let Some(entry) = last_match(opts.per_file@, file.path@) {
                if let Some(over) = entry.mutators {
                    lemma_switched_on_are_builtin(
                        switches(crate::config::types::overridden(global, over)),
                    );
                }
            }
            let source = file.content->Ok_0@;
            let ast = parsed_module(source)->Ok_0;
            let filters = opts.filter_operators@;
            let first = choose|ctx: MutationContext<'_>|
                {
                    &&& ctx.file_path@ == file.path@
                    &&& ctx.seed == opts.seed
                    &&& ctx.floats@ == file.floats@
                    &&& #[trigger] generates(source, ast, ctx, filters, operators, a)
                };
            let second = choose|ctx: MutationContext<'_>|
                {
                    &&& ctx.file_path@ == file.path@
                    &&& ctx.seed == opts.seed
                    &&& ctx.floats@ == file.floats@
                    &&& #[trigger] generates(source, ast, ctx, filters, operators, b)
                };
            law_generated_mutants_are_decided(
                source,
                ast,
                first,
                second,
                filters,
                operators,
                a,
                b,
            );
        },
    }
}

/// Without an entry that matches, no entry applies.
pub proof fn law_no_match_applies(per_file: Seq<PerFileConfig>, path: Seq<char>)
    requires
        forall|j: int|
            0 <= j < per_file.len() ==> !pattern::pattern_matches(
                #[trigger] per_file[j].pattern@,
                path,
            ),
    ensures
        last_match(per_file, path) is None,
    decreases per_file.len(),
{
    if per_file.len() > 0 {
        let rest = per_file.drop_last();
        assert(per_file[per_file.len() - 1] == per_file.last());
        assert forall|j: int| 0 <= j < rest.len() implies !pattern::pattern_matches(
            #[trigger] rest[j].pattern@,
            path,
        ) by {
            assert(rest[j] == per_file[j]);
        }
        law_no_match_applies(rest, path);
    }
}

/// A file with an entry that skips it has no operators. One with overrides has
/// those that they leave enabled, and any other has those of the project.
pub proof fn law_entries_choose_the_operators(
    path: Seq<char>,
    registered: Seq<Registered>,
    per_file: Seq<PerFileConfig>,
    global: MutatorFlags,
    i: int,
)
    requires
        0 <= i < per_file.len(),
        pattern::pattern_matches(per_file[i].pattern@, path),
        forall|j: int|
            i < j < per_file.len() ==> !pattern::pattern_matches(
                #[trigger] per_file[j].pattern@,
                path,
            ),
    ensures
        operators_for(path, registered, per_file, global) is None <==> per_file[i].skip,
        !per_file[i].skip && per_file[i].mutators is None ==> operators_for(
            path,
            registered,
            per_file,
            global,
        ) == Some(registered),
        !per_file[i].skip && per_file[i].mutators is Some ==> operators_for(
            path,
            registered,
            per_file,
            global,
        ) == Some(enabled(crate::config::types::overridden(global, per_file[i].mutators->0))),
        operators_for(path, registered, Seq::empty(), global) == Some(registered),
{
    law_last_match_wins(per_file, path, i);
    law_no_match_applies(Seq::empty(), path);
}

/// Whether the mutants of a file cannot be made, and why: it could not be read,
/// or its source not parsed.
pub open spec fn fails(file: SourceFile, problem: Seq<char>) -> bool {
    match file.content {
        Err(reason) => problem == "failed to read "@ + file.path@ + ": "@ + reason@,
        Ok(source) => parsed_module(source@) matches Err(reason) && problem == "failed to parse "@
            + file.path@ + ": "@ + reason,
    }
}

/// A file fails unless it is skipped, read and parsed.
pub proof fn law_failures_are_told(
    file: SourceFile,
    per_file: Seq<PerFileConfig>,
    problem: Seq<char>,
)
    ensures
        file_error(file, per_file) == Some(problem) <==> fails(file, problem) && (last_match(
            per_file,
            file.path@,
        ) is None || !(last_match(per_file, file.path@)->0).skip),
{
}

/// The failure that is told of is that of the first picked file with one; where
/// no picked file has one there is none.
pub proof fn law_the_first_failure_counts(
    files: Seq<SourceFile>,
    filters: Seq<String>,
    per_file: Seq<PerFileConfig>,
    i: int,
)
    ensures
        first_file_error(files, filters, per_file) is None <==> forall|j: int|
            0 <= j < files.len() && is_picked((#[trigger] files[j]).path@, filters) ==> file_error(
                files[j],
                per_file,
            ) is None,
        0 <= i < files.len() && is_picked(files[i].path@, filters) && file_error(
            files[i],
            per_file,
        ) is Some && (forall|j: int|
            0 <= j < i && is_picked((#[trigger] files[j]).path@, filters) ==> file_error(
                files[j],
                per_file,
            ) is None) ==> first_file_error(files, filters, per_file) == file_error(
            files[i],
            per_file,
        ),
    decreases files.len(),
{
    if files.len() > 0 {
        let rest = files.drop_last();
        law_the_first_failure_counts(rest, filters, per_file, i);
        assert(files[files.len() - 1] == files.last());
        if first_file_error(files, filters, per_file) is None {
            assert forall|j: int|
                0 <= j < files.len() && is_picked(
                    (#[trigger] files[j]).path@,
                    filters,
                ) implies file_error(files[j], per_file) is None by {
                if j < rest.len() {
                    assert(rest[j] == files[j]);
                }
            }
        }
        if forall|j: int|
            0 <= j < files.len() && is_picked((#[trigger] files[j]).path@, filters) ==> file_error(
                files[j],
                per_file,
            ) is None {
            assert forall|j: int|
                0 <= j < rest.len() && is_picked((#[trigger] rest[j]).path@, filters) implies file_error(
                rest[j],
                per_file,
            ) is None by {
                assert(rest[j] == files[j]);
            }
        }
        if 0 <= i < files.len() && is_picked(files[i].path@, filters) && file_error(
            files[i],
            per_file,
        ) is Some && (forall|j: int|
            0 <= j < i && is_picked((#[trigger] files[j]).path@, filters) ==> file_error(
                files[j],
                per_file,
            ) is None) {
            if i < rest.len() {
                assert(rest[i] == files[i]);
                assert forall|j: int|
                    0 <= j < i && is_picked((#[trigger] rest[j]).path@, filters) implies file_error(
                    rest[j],
                    per_file,
                ) is None by {
                    assert(rest[j] == files[j]);
                }
            } else {
                assert forall|j: int|
                    0 <= j < rest.len() && is_picked(
                        (#[trigger] rest[j]).path@,
                        filters,
                    ) implies file_error(rest[j], per_file) is None by {
                    assert(rest[j] == files[j]);
                }
            }
        }
    }
}

/// The mutants of all files are those of each of them, one file after the other.
pub proof fn law_files_are_put_in_a_row(parts: Seq<Seq<MutantView>>)
    ensures
        flat(parts) == parts.flatten(),
    decreases parts.len(),
{
    if parts.len() > 0 {
        law_files_are_put_in_a_row(parts.drop_last());
        parts.lemma_flatten_and_flatten_alt_are_equivalent();
        parts.drop_last().lemma_flatten_and_flatten_alt_are_equivalent();
    }
}

/// Every mutant of every file is among the mutants of all.
pub proof fn law_every_file_gives_its_mutants(
    files: Seq<SourceFile>,
    registered: Seq<Registered>,
    opts: GenerationOptions<'_>,
    out: Seq<MutantView>,
    i: int,
) -> (part: Seq<MutantView>)
    requires
        set_generates(files, registered, opts, out),
        0 <= i < files.len(),
        is_picked(files[i].path@, opts.filter_paths@),
    ensures
        file_generates(files[i], registered, opts, part),
        forall|k: int| 0 <= k < part.len() ==> out.contains(#[trigger] part[k]),
{
    let parts = choose|parts: Seq<Seq<MutantView>>|
        #[trigger] parts_of(files, registered, opts, parts) && sorted_by_place(flat(parts), out);
    let part = parts[i];
    assert forall|k: int| 0 <= k < part.len() implies out.contains(#[trigger] part[k]) by {
        lemma_part_of_all(parts, i, k);
        let at = choose|at: int| 0 <= at < flat(parts).len() && flat(parts)[at] == part[k];
        law_sorting_loses_nothing(flat(parts), out, at);
    }
    part
}

proof fn lemma_part_of_all(parts: Seq<Seq<MutantView>>, i: int, k: int)
    requires
        0 <= i < parts.len(),
        0 <= k < parts[i].len(),
    ensures
        flat(parts).contains(parts[i][k]),
    decreases parts.len(),
{
    let init = flat(parts.drop_last());
    if i < parts.len() - 1 {
        lemma_part_of_all(parts.drop_last(), i, k);
        assert(parts.drop_last()[i] == parts[i]);
        let at = choose|at: int| 0 <= at < init.len() && init[at] == parts[i][k];
        assert(flat(parts)[at] == parts[i][k]);
    } else {
        assert(flat(parts)[init.len() + k] == parts[i][k]);
    }
}

/// Patterns that are not valid are told of before files, and filters before
/// entries.
pub proof fn law_patterns_are_checked_before_files(
    files: Seq<SourceFile>,
    opts: GenerationOptions<'_>,
)
    ensures
        ({
            let filters = pattern::first_invalid("filter_paths"@, opts.filter_paths@);
            let entries = pattern::first_invalid("per-file"@, entry_patterns(opts.per_file@));
            &&& filters is Some ==> generation_error(files, opts) == filters
            &&& filters is None && entries is Some ==> generation_error(files, opts) == entries
            &&& filters is None && entries is None ==> generation_error(files, opts)
                == first_file_error(files, opts.filter_paths@, opts.per_file@)
            &&& entry_patterns(opts.per_file@).len() == opts.per_file@.len()
            &&& forall|i: int|
                0 <= i < opts.per_file@.len() ==> #[trigger] entry_patterns(opts.per_file@)[i]
                    == opts.per_file@[i].pattern
        }),
{
}

/// Without filters every file is picked, and with filters those that one of them
/// matches.
pub proof fn law_filters_pick_files(path: Seq<char>, filters: Seq<String>, i: int)
    ensures
        is_picked(path, Seq::empty()),
        0 <= i < filters.len() && pattern::pattern_matches(filters[i]@, path) ==> is_picked(
            path,
            filters,
        ),
        filters.len() > 0 && (forall|j: int|
            0 <= j < filters.len() ==> !pattern::pattern_matches(#[trigger] filters[j]@, path))
            ==> !is_picked(path, filters),
{
}

} // verus!
