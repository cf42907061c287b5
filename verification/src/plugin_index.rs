//! Project-wide scan that produces inputs for the plugin's reverse-import
//! index and reload-warnings list.
use crate::ast::{Alias, ExprKind, Expression, Module, Statement, StmtKind};
use crate::expressions::{list_suite, listed, suite_exprs};
use crate::lines;
use crate::mutation::position::{before, line_of, newlines};
use crate::parse::{parse_module, parsed_module};
use crate::paths;
use crate::text;
use crate::text::texts;
use vstd::prelude::*;

verus! {

/// One `from X import Y [as Z]` binding seen in project source.
#[derive(Debug, PartialEq, Eq)]
pub struct ImportBinding {
    /// Dotted module name of the consumer (the file that contains the import).
    pub consumer_module: String,
    /// Local name in the consumer (the alias if `as Z` was used, else `Y`).
    pub consumer_key: String,
    /// Resolved absolute module name being imported from.
    pub target_module: String,
    /// The imported name as written in the target module.
    pub target_name: String,
}

/// One occurrence of a call that compromises plugin-backend accuracy.
#[derive(Debug, PartialEq, Eq)]
pub struct ReloadWarning {
    /// Source file where the call appears.
    pub file: String,
    /// 1-based line number of the call.
    pub line: u32,
    /// Which call: `"reload"`, `"import_module"`, or `"__import__"`.
    pub kind: String,
}

/// A `from X import *` binding that couldn't be statically resolved.
#[derive(Debug, PartialEq, Eq)]
pub struct PendingStarImport {
    /// Dotted name of the consumer (the file containing `from X import *`).
    pub consumer_module: String,
    /// Resolved source module name.
    pub target_module: String,
}

/// Names exported by modules, by module name.
#[derive(Debug, PartialEq, Eq)]
pub struct ModuleExports {
    entries: Vec<(String, Vec<String>)>,
}

/// Aggregated output of [`scan_project`].
#[derive(Debug, PartialEq, Eq)]
pub struct PluginIndex {
    /// All `from`-import bindings discovered in project source.
    pub import_bindings: Vec<ImportBinding>,
    /// All occurrences of `importlib.reload` and dynamic-import calls.
    pub reload_warnings: Vec<ReloadWarning>,
    /// Module to static `__all__` literal contents, when expressible as a
    /// list or tuple of string literals. Modules with dynamic `__all__` or no
    /// `__all__` are absent.
    pub module_exports: ModuleExports,
    /// Star-imports awaiting runtime resolution (source module had no
    /// static `__all__` that could be read).
    pub pending_star_imports: Vec<PendingStarImport>,
}

/// A binding as a mathematical value.
#[verifier::ext_equal]
pub struct BindingView {
    pub consumer_module: Seq<char>,
    pub consumer_key: Seq<char>,
    pub target_module: Seq<char>,
    pub target_name: Seq<char>,
}

impl View for ImportBinding {
    type V = BindingView;

    open spec fn view(&self) -> BindingView {
        BindingView {
            consumer_module: self.consumer_module@,
            consumer_key: self.consumer_key@,
            target_module: self.target_module@,
            target_name: self.target_name@,
        }
    }
}

/// A warning as a mathematical value.
#[verifier::ext_equal]
pub struct WarningView {
    pub file: Seq<char>,
    pub line: u32,
    pub kind: Seq<char>,
}

impl View for ReloadWarning {
    type V = WarningView;

    open spec fn view(&self) -> WarningView {
        WarningView { file: self.file@, line: self.line, kind: self.kind@ }
    }
}

/// A pending star import as a mathematical value.
#[verifier::ext_equal]
pub struct PendingView {
    pub consumer_module: Seq<char>,
    pub target_module: Seq<char>,
}

impl View for PendingStarImport {
    type V = PendingView;

    open spec fn view(&self) -> PendingView {
        PendingView { consumer_module: self.consumer_module@, target_module: self.target_module@ }
    }
}

/// The names of the first entry for a module.
pub open spec fn first_entry(entries: Seq<(String, Vec<String>)>, module: Seq<char>) -> Option<
    Seq<Seq<char>>,
>
    decreases entries.len(),
{
    if entries.len() == 0 {
        None
    } else if entries[0].0@ == module {
        Some(texts(entries[0].1@))
    } else {
        first_entry(entries.drop_first(), module)
    }
}

impl View for ModuleExports {
    type V = Map<Seq<char>, Seq<Seq<char>>>;

    closed spec fn view(&self) -> Map<Seq<char>, Seq<Seq<char>>> {
        exports_of(self.entries@)
    }
}

/// The map that a list of entries stands for.
pub open spec fn exports_of(entries: Seq<(String, Vec<String>)>) -> Map<Seq<char>, Seq<Seq<char>>> {
    Map::new(
        |m: Seq<char>| first_entry(entries, m) is Some,
        |m: Seq<char>| first_entry(entries, m)->0,
    )
}

/// An entry at index `i` is the first for its module if none before it is.
proof fn lemma_first_entry(entries: Seq<(String, Vec<String>)>, i: int, module: Seq<char>)
    requires
        0 <= i <= entries.len(),
        forall|j: int| 0 <= j < i ==> (#[trigger] entries[j]).0@ != module,
    ensures
        first_entry(entries, module) == first_entry(entries.skip(i), module),
    decreases i,
{
    if i > 0 {
        let rest = entries.drop_first();
        assert forall|j: int| 0 <= j < i - 1 implies (#[trigger] rest[j]).0@ != module by {
            assert(rest[j] == entries[j + 1]);
        }
        lemma_first_entry(rest, i - 1, module);
        assert(rest.skip(i - 1) =~= entries.skip(i));
    } else {
        assert(entries.skip(0) =~= entries);
    }
}

/// Changing the first entry of a module, or appending one where there is
/// none, changes that module alone.
proof fn lemma_entry_set(
    entries: Seq<(String, Vec<String>)>,
    i: int,
    entry: (String, Vec<String>),
    module: Seq<char>,
)
    requires
        0 <= i <= entries.len(),
        forall|j: int| 0 <= j < i ==> (#[trigger] entries[j]).0@ != entry.0@,
        i < entries.len() ==> entries[i].0@ == entry.0@,
    ensures
        ({
            let after = if i < entries.len() {
                entries.update(i, entry)
            } else {
                entries.push(entry)
            };
            first_entry(after, module) == if module == entry.0@ {
                Some(texts(entry.1@))
            } else {
                first_entry(entries, module)
            }
        }),
    decreases entries.len(),
{
    let after = if i < entries.len() {
        entries.update(i, entry)
    } else {
        entries.push(entry)
    };
    if i == 0 {
        if entries.len() == 0 {
            assert(after.drop_first() =~= Seq::empty());
            assert(first_entry(after.drop_first(), module) is None);
        } else {
            assert(after.drop_first() =~= entries.drop_first());
        }
    } else {
        let rest = entries.drop_first();
        assert forall|j: int| 0 <= j < i - 1 implies (#[trigger] rest[j]).0@ != entry.0@ by {
            assert(rest[j] == entries[j + 1]);
        }
        lemma_entry_set(rest, i - 1, entry, module);
        if i < entries.len() {
            assert(after.drop_first() =~= rest.update(i - 1, entry));
        } else {
            assert(after.drop_first() =~= rest.push(entry));
        }
        assert(entries[0].0@ != entry.0@);
        assert(after[0] == entries[0]);
    }
}

impl ModuleExports {
    /// No modules.
    pub fn new() -> (r: Self)
        ensures
            r@ == Map::<Seq<char>, Seq<Seq<char>>>::empty(),
    {
        let r: ModuleExports = ModuleExports { entries: Vec::new() };
        assert(r@ =~= Map::empty());
        r
    }

    /// The index of the first entry for a module, or the number of entries.
    fn position(&self, module: &str) -> (r: usize)
        ensures
            r <= self.entries@.len(),
            forall|j: int| 0 <= j < r ==> (#[trigger] self.entries@[j]).0@ != module@,
            r < self.entries@.len() ==> self.entries@[r as int].0@ == module@,
    {
        let mut i: usize = 0;
        while i < self.entries.len()
            invariant
                i <= self.entries@.len(),
                forall|j: int| 0 <= j < i ==> (#[trigger] self.entries@[j]).0@ != module@,
            decreases self.entries.len() - i,
        {
            if text::same(self.entries[i].0.as_str(), module) {
                return i;
            }
            i = i + 1;
        }
        i
    }

    /// The names that a module exports.
    pub fn get(&self, module: &str) -> (r: Option<&Vec<String>>)
        ensures
            r is Some <==> self@.contains_key(module@),
            r matches Some(names) ==> texts(names@) == self@[module@],
    {
        let i: usize = self.position(module);
        proof {
            lemma_first_entry(self.entries@, i as int, module@);
        }
        if i < self.entries.len() {
            assert(self.entries@.skip(i as int)[0] == self.entries@[i as int]);
            Some(&self.entries[i].1)
        } else {
            None
        }
    }

    /// Sets the names that a module exports.
    pub fn insert(&mut self, module: String, names: Vec<String>)
        ensures
            final(self)@ == old(self)@.insert(module@, texts(names@)),
    {
        let i: usize = self.position(module.as_str());
        let ghost before = self.entries@;
        let ghost entry = (module, names);
        if i < self.entries.len() {
            self.entries.set(i, (module, names));
        } else {
            self.entries.push((module, names));
        }
        proof {
            assert forall|m: Seq<char>| #[trigger] first_entry(self.entries@, m) == if m
                == entry.0@ {
                Some(texts(entry.1@))
            } else {
                first_entry(before, m)
            } by {
                lemma_entry_set(before, i as int, entry, m);
            }
            assert(self@ =~= exports_of(before).insert(entry.0@, texts(entry.1@)));
        }
    }

    /// Whether no module has an entry.
    pub fn is_empty(&self) -> (r: bool)
        ensures
            r == (self@ == Map::<Seq<char>, Seq<Seq<char>>>::empty()),
    {
        proof {
            if self.entries@.len() > 0 {
                assert(self@.contains_key(self.entries@[0].0@));
            } else {
                assert(self@ =~= Map::empty());
            }
        }
        self.entries.len() == 0
    }

    /// The modules with their names.
    pub fn iter(&self) -> (r: &[(String, Vec<String>)])
        ensures
            exports_of(r@) == self@,
    {
        self.entries.as_slice()
    }
}

/// An index as a mathematical value.
#[verifier::ext_equal]
pub struct IndexView {
    pub bindings: Seq<BindingView>,
    pub warnings: Seq<WarningView>,
    pub exports: Map<Seq<char>, Seq<Seq<char>>>,
    pub pending: Seq<PendingView>,
}

impl View for PluginIndex {
    type V = IndexView;

    open spec fn view(&self) -> IndexView {
        IndexView {
            bindings: self.import_bindings@.map_values(|b: ImportBinding| b@),
            warnings: self.reload_warnings@.map_values(|w: ReloadWarning| w@),
            exports: self.module_exports@,
            pending: self.pending_star_imports@.map_values(|p: PendingStarImport| p@),
        }
    }
}

/// The index of no source at all.
pub open spec fn empty_index() -> IndexView {
    IndexView {
        bindings: Seq::empty(),
        warnings: Seq::empty(),
        exports: Map::empty(),
        pending: Seq::empty(),
    }
}

/// One index after another. Of two export lists for a module the later stays.
pub open spec fn merged(a: IndexView, b: IndexView) -> IndexView {
    IndexView {
        bindings: a.bindings + b.bindings,
        warnings: a.warnings + b.warnings,
        exports: a.exports.union_prefer_right(b.exports),
        pending: a.pending + b.pending,
    }
}

/// Whether a binding stands for `from X import *`.
pub open spec fn is_star(b: BindingView) -> bool {
    b.target_name == "*"@
}

/// The bindings that name what they import.
pub open spec fn named_bindings(bindings: Seq<BindingView>) -> Seq<BindingView>
    decreases bindings.len(),
{
    if bindings.len() == 0 {
        Seq::empty()
    } else if is_star(bindings.last()) {
        named_bindings(bindings.drop_last())
    } else {
        named_bindings(bindings.drop_last()).push(bindings.last())
    }
}

/// The bindings for the names that a star import brings.
pub open spec fn star_bindings(star: BindingView, names: Seq<Seq<char>>) -> Seq<BindingView> {
    names.map_values(
        |name: Seq<char>|
            BindingView {
                consumer_module: star.consumer_module,
                consumer_key: name,
                target_module: star.target_module,
                target_name: name,
            },
    )
}

/// The bindings for the star imports whose modules export known names.
pub open spec fn resolved_stars(
    bindings: Seq<BindingView>,
    exports: Map<Seq<char>, Seq<Seq<char>>>,
) -> Seq<BindingView>
    decreases bindings.len(),
{
    if bindings.len() == 0 {
        Seq::empty()
    } else {
        let init = resolved_stars(bindings.drop_last(), exports);
        let last = bindings.last();
        if is_star(last) && exports.contains_key(last.target_module) {
            init + star_bindings(last, exports[last.target_module])
        } else {
            init
        }
    }
}

/// The star imports whose modules export no known names.
pub open spec fn unresolved_stars(
    bindings: Seq<BindingView>,
    exports: Map<Seq<char>, Seq<Seq<char>>>,
) -> Seq<PendingView>
    decreases bindings.len(),
{
    if bindings.len() == 0 {
        Seq::empty()
    } else {
        let init = unresolved_stars(bindings.drop_last(), exports);
        let last = bindings.last();
        if is_star(last) && !exports.contains_key(last.target_module) {
            init.push(
                PendingView {
                    consumer_module: last.consumer_module,
                    target_module: last.target_module,
                },
            )
        } else {
            init
        }
    }
}

/// An index with its star imports replaced: by one binding for each name
/// that the module exports, where that is known, else by a pending entry.
pub open spec fn resolved(index: IndexView) -> IndexView {
    IndexView {
        bindings: named_bindings(index.bindings) + resolved_stars(index.bindings, index.exports),
        warnings: index.warnings,
        exports: index.exports,
        pending: index.pending + unresolved_stars(index.bindings, index.exports),
    }
}

/// Whether no module exports the name `*`.
pub open spec fn plain_exports(exports: Map<Seq<char>, Seq<Seq<char>>>) -> bool {
    forall|m: Seq<char>, i: int|
        exports.contains_key(m) && 0 <= i < exports[m].len() ==> #[trigger] exports[m][i] != "*"@
}

/// Whether no binding of a list stands for a star import.
pub open spec fn no_stars(bindings: Seq<BindingView>) -> bool {
    forall|i: int| 0 <= i < bindings.len() ==> !is_star(#[trigger] bindings[i])
}

/// Named bindings hold no star import.
proof fn lemma_named_have_no_stars(bindings: Seq<BindingView>)
    ensures
        no_stars(named_bindings(bindings)),
    decreases bindings.len(),
{
    if bindings.len() > 0 {
        lemma_named_have_no_stars(bindings.drop_last());
    }
}

/// Resolved star imports hold no star import.
proof fn lemma_resolved_have_no_stars(
    bindings: Seq<BindingView>,
    exports: Map<Seq<char>, Seq<Seq<char>>>,
)
    requires
        plain_exports(exports),
    ensures
        no_stars(resolved_stars(bindings, exports)),
    decreases bindings.len(),
{
    if bindings.len() > 0 {
        lemma_resolved_have_no_stars(bindings.drop_last(), exports);
        let last = bindings.last();
        if is_star(last) && exports.contains_key(last.target_module) {
            let names = exports[last.target_module];
            assert forall|i: int| 0 <= i < names.len() implies !is_star(
                #[trigger] star_bindings(last, names)[i],
            ) by {
                assert(exports[last.target_module][i] != "*"@);
            }
        }
    }
}

/// Without star imports there is nothing to resolve.
proof fn lemma_nothing_to_resolve(
    bindings: Seq<BindingView>,
    exports: Map<Seq<char>, Seq<Seq<char>>>,
)
    requires
        no_stars(bindings),
    ensures
        named_bindings(bindings) == bindings,
        resolved_stars(bindings, exports) == Seq::<BindingView>::empty(),
        unresolved_stars(bindings, exports) == Seq::<PendingView>::empty(),
    decreases bindings.len(),
{
    if bindings.len() > 0 {
        assert(!is_star(bindings[bindings.len() - 1]));
        assert(no_stars(bindings.drop_last())) by {
            assert forall|i: int| 0 <= i < bindings.drop_last().len() implies !is_star(
                #[trigger] bindings.drop_last()[i],
            ) by {
                assert(!is_star(bindings[i]));
            }
        }
        lemma_nothing_to_resolve(bindings.drop_last(), exports);
        assert(bindings.drop_last().push(bindings.last()) =~= bindings);
    } else {
        assert(named_bindings(bindings) =~= bindings);
    }
}

/// No star import is left once they are resolved.
pub proof fn law_no_star_import_is_left(index: IndexView)
    requires
        plain_exports(index.exports),
    ensures
        no_stars(resolved(index).bindings),
{
    lemma_named_have_no_stars(index.bindings);
    lemma_resolved_have_no_stars(index.bindings, index.exports);
}

/// Resolving star imports a second time changes nothing.
pub proof fn law_resolution_is_idempotent(index: IndexView)
    requires
        plain_exports(index.exports),
    ensures
        resolved(resolved(index)) == resolved(index),
{
    law_no_star_import_is_left(index);
    lemma_nothing_to_resolve(resolved(index).bindings, index.exports);
    assert(resolved(resolved(index)) =~= resolved(index));
}

impl ModuleExports {
    /// Takes over the entries of another map.
    fn absorb(&mut self, other: &ModuleExports)
        ensures
            final(self)@ == old(self)@.union_prefer_right(other@),
    {
        let mut i: usize = other.entries.len();
        let ghost all = other.entries@;
        proof {
            assert(all.skip(i as int) =~= Seq::empty());
            assert(exports_of(all.skip(i as int)) =~= Map::empty());
            assert(self@ =~= old(self)@.union_prefer_right(exports_of(all.skip(i as int))));
        }
        while i > 0
            invariant
                i <= all.len(),
                all == other.entries@,
                self@ == old(self)@.union_prefer_right(exports_of(all.skip(i as int))),
            decreases i,
        {
            i = i - 1;
            let ghost rest = all.skip(i + 1);
            let ghost more = all.skip(i as int);
            assert(more.drop_first() =~= rest);
            assert(more[0] == all[i as int]);
            let module: String = other.entries[i].0.clone();
            let names: Vec<String> = text::copy_texts(&other.entries[i].1);
            self.insert(module, names);
            proof {
                assert(exports_of(more) =~= exports_of(rest).insert(
                    all[i as int].0@,
                    texts(all[i as int].1@),
                ));
                assert(self@ =~= old(self)@.union_prefer_right(exports_of(more)));
            }
        }
        assert(all.skip(0) =~= all);
    }
}

impl Default for PluginIndex {
    fn default() -> (r: Self)
        ensures
            r@ == empty_index(),
    {
        let r: PluginIndex = PluginIndex {
            import_bindings: Vec::new(),
            reload_warnings: Vec::new(),
            module_exports: ModuleExports::new(),
            pending_star_imports: Vec::new(),
        };
        assert(r@ =~= empty_index());
        r
    }
}

impl PluginIndex {
    /// Merge another index into this one.
    pub fn merge(&mut self, other: Self)
        ensures
            final(self)@ == merged(old(self)@, other@),
    {
        let mut other: PluginIndex = other;
        let ghost added = other@;
        self.module_exports.absorb(&other.module_exports);
        self.import_bindings.append(&mut other.import_bindings);
        self.reload_warnings.append(&mut other.reload_warnings);
        self.pending_star_imports.append(&mut other.pending_star_imports);
        assert(self@ =~= merged(old(self)@, added));
    }

    /// Walk every recorded `from X import *` placeholder and either make one
    /// named [`ImportBinding`] per name in the target's static `__all__`
    /// (when [`PluginIndex::module_exports`] has it), or convert the
    /// placeholder to a [`PendingStarImport`] for the plugin to resolve at
    /// runtime.
    pub fn resolve_star_imports(&mut self)
        ensures
            final(self)@ == resolved(old(self)@),
    {
        let ghost all = self@.bindings;
        let ghost exports = self.module_exports@;
        let mut kept: Vec<ImportBinding> = Vec::new();
        let mut made: Vec<ImportBinding> = Vec::new();
        let mut pending: Vec<PendingStarImport> = Vec::new();
        let mut i: usize = 0;
        proof {
            assert(all.take(0) =~= Seq::empty());
            assert(kept@.map_values(|b: ImportBinding| b@) =~= named_bindings(all.take(0)));
            assert(made@.map_values(|b: ImportBinding| b@) =~= resolved_stars(all.take(0), exports));
            assert(pending@.map_values(|p: PendingStarImport| p@) =~= unresolved_stars(
                all.take(0),
                exports,
            ));
        }
        while i < self.import_bindings.len()
            invariant
                i <= self.import_bindings@.len(),
                *self == *old(self),
                all == self@.bindings,
                exports == self.module_exports@,
                kept@.map_values(|b: ImportBinding| b@) == named_bindings(all.take(i as int)),
                made@.map_values(|b: ImportBinding| b@) == resolved_stars(
                    all.take(i as int),
                    exports,
                ),
                pending@.map_values(|p: PendingStarImport| p@) == unresolved_stars(
                    all.take(i as int),
                    exports,
                ),
            decreases self.import_bindings.len() - i,
        {
            let b: &ImportBinding = &self.import_bindings[i];
            proof {
                assert(all.take(i + 1).drop_last() =~= all.take(i as int));
                assert(all.take(i + 1).last() == b@);
            }
            if text::same(b.target_name.as_str(), "*") {
                match self.module_exports.get(b.target_module.as_str()) {
                    Some(names) => {
                        push_star_bindings(b, names, &mut made);
                    },
                    None => {
                        let ghost before = pending@;
                        pending.push(
                            PendingStarImport {
                                consumer_module: b.consumer_module.clone(),
                                target_module: b.target_module.clone(),
                            },
                        );
                        assert(pending@.map_values(|p: PendingStarImport| p@) =~= before.map_values(
                            |p: PendingStarImport| p@,
                        ).push(pending@.last()@));
                    },
                }
            } else {
                let ghost before = kept@;
                kept.push(copy_binding(b));
                assert(kept@.map_values(|b: ImportBinding| b@) =~= before.map_values(
                    |b: ImportBinding| b@,
                ).push(b@));
            }
            i = i + 1;
        }
        assert(all.take(i as int) =~= all);
        let ghost named = kept@;
        let ghost starred = made@;
        let ghost late = pending@;
        kept.append(&mut made);
        self.import_bindings = kept;
        self.pending_star_imports.append(&mut pending);
        proof {
            assert(self.import_bindings@.map_values(|b: ImportBinding| b@) =~= named.map_values(
                |b: ImportBinding| b@,
            ) + starred.map_values(|b: ImportBinding| b@));
            assert(self.pending_star_imports@.map_values(|p: PendingStarImport| p@)
                =~= old(self).pending_star_imports@.map_values(|p: PendingStarImport| p@)
                + late.map_values(|p: PendingStarImport| p@));
            assert(self@ =~= resolved(old(self)@));
        }
    }
}

/// A copy of a binding.
fn copy_binding(b: &ImportBinding) -> (r: ImportBinding)
    ensures
        r@ == b@,
{
    ImportBinding {
        consumer_module: b.consumer_module.clone(),
        consumer_key: b.consumer_key.clone(),
        target_module: b.target_module.clone(),
        target_name: b.target_name.clone(),
    }
}

/// Appends the bindings for the names that a star import brings.
fn push_star_bindings(star: &ImportBinding, names: &Vec<String>, out: &mut Vec<ImportBinding>)
    ensures
        final(out)@.map_values(|b: ImportBinding| b@) == old(out)@.map_values(
            |b: ImportBinding| b@,
        ) + star_bindings(star@, texts(names@)),
{
    let ghost before = out@.map_values(|b: ImportBinding| b@);
    let ghost all = star_bindings(star@, texts(names@));
    let mut i: usize = 0;
    assert(out@.map_values(|b: ImportBinding| b@) =~= before + all.take(0));
    while i < names.len()
        invariant
            i <= names@.len(),
            all == star_bindings(star@, texts(names@)),
            out@.map_values(|b: ImportBinding| b@) == before + all.take(i as int),
        decreases names.len() - i,
    {
        let ghost so_far = out@;
        out.push(
            ImportBinding {
                consumer_module: star.consumer_module.clone(),
                consumer_key: names[i].clone(),
                target_module: star.target_module.clone(),
                target_name: names[i].clone(),
            },
        );
        proof {
            assert(out@.last()@ == all[i as int]);
            assert(out@.map_values(|b: ImportBinding| b@) =~= so_far.map_values(
                |b: ImportBinding| b@,
            ).push(all[i as int]));
            assert(before + all.take(i + 1) =~= (before + all.take(i as int)).push(all[i as int]));
        }
        i = i + 1;
    }
    assert(all.take(i as int) =~= all);
}

/// The module that a `from` import names, seen from the importing module.
/// Each dot of a relative import takes one part off that module's name.
pub open spec fn import_target(
    consumer: Seq<char>,
    explicit: Option<Seq<char>>,
    level: int,
) -> Seq<char> {
    if level == 0 {
        match explicit {
            Some(name) => name,
            None => Seq::empty(),
        }
    } else {
        let parts = lines::split(consumer, '.');
        let kept = if level < parts.len() {
            parts.len() - level
        } else {
            0
        };
        let prefix = lines::join(parts.take(kept), "."@);
        match explicit {
            Some(name) => if prefix.len() == 0 {
                name
            } else {
                prefix + "."@ + name
            },
            None => prefix,
        }
    }
}

/// Resolve a `from`-import's target module against the consumer's dotted
/// module name, taking the dots of a relative import into account.
pub fn resolve_import_from(consumer_module: &str, explicit: Option<&str>, level: u32) -> (r: String)
    ensures
        r@ == import_target(
            consumer_module@,
            (match explicit {
                Some(name) => Some(name@),
                None => None,
            }),
            level as int,
        ),
{
    if level == 0 {
        return match explicit {
            Some(name) => name.to_owned(),
            None => {
                let none: String = String::new();
                assert(none@ =~= Seq::empty());
                none
            },
        };
    }
    let parts: Vec<String> = lines::split_text(consumer_module, '.');
    let total: usize = parts.len();
    let kept: usize = if (level as u64) < (total as u64) {
        total - level as usize
    } else {
        0
    };
    assert(texts(parts@).len() == parts@.len());
    let prefix: String = lines::join_texts(&parts, kept, ".");
    match explicit {
        Some(name) => {
            if prefix.as_str().unicode_len() == 0 {
                name.to_owned()
            } else {
                text::cat3(prefix.as_str(), ".", name)
            }
        },
        None => prefix,
    }
}

/// The binding for one name of a `from` import.
pub open spec fn alias_binding(alias: Alias, consumer: Seq<char>, target: Seq<char>) -> BindingView {
    BindingView {
        consumer_module: consumer,
        consumer_key: if alias.name@ == "*"@ {
            "*"@
        } else {
            match alias.asname {
                Some(name) => name@,
                None => alias.name@,
            }
        },
        target_module: target,
        target_name: alias.name@,
    }
}

/// The bindings of the top-level `from` imports of a module, in order.
pub open spec fn bindings_in(body: Seq<Statement>, consumer: Seq<char>) -> Seq<BindingView>
    decreases body.len(),
{
    if body.len() == 0 {
        Seq::empty()
    } else {
        let init = bindings_in(body.drop_last(), consumer);
        match body.last().kind {
            StmtKind::ImportFrom { module, names, level } => init + names@.map_values(
                |alias: Alias|
                    alias_binding(
                        alias,
                        consumer,
                        import_target(
                            consumer,
                            (match module {
                                Some(name) => Some(name@),
                                None => None,
                            }),
                            level as int,
                        ),
                    ),
            ),
            _ => init,
        }
    }
}

/// Appends the bindings for the names of a `from` import.
fn push_aliases(names: &Vec<Alias>, consumer: &str, target: &str, out: &mut Vec<ImportBinding>)
    ensures
        final(out)@.map_values(|b: ImportBinding| b@) == old(out)@.map_values(
            |b: ImportBinding| b@,
        ) + names@.map_values(|alias: Alias| alias_binding(alias, consumer@, target@)),
{
    let ghost before = out@.map_values(|b: ImportBinding| b@);
    let ghost all = names@.map_values(|alias: Alias| alias_binding(alias, consumer@, target@));
    let mut i: usize = 0;
    assert(out@.map_values(|b: ImportBinding| b@) =~= before + all.take(0));
    while i < names.len()
        invariant
            i <= names@.len(),
            all == names@.map_values(|alias: Alias| alias_binding(alias, consumer@, target@)),
            out@.map_values(|b: ImportBinding| b@) == before + all.take(i as int),
        decreases names.len() - i,
    {
        let ghost so_far = out@;
        let alias: &Alias = &names[i];
        let consumer_key: String = if text::same(alias.name.as_str(), "*") {
            "*".to_owned()
        } else {
            match &alias.asname {
                Some(name) => name.clone(),
                None => alias.name.clone(),
            }
        };
        out.push(
            ImportBinding {
                consumer_module: consumer.to_owned(),
                consumer_key,
                target_module: target.to_owned(),
                target_name: alias.name.clone(),
            },
        );
        proof {
            assert(out@.last()@ == all[i as int]);
            assert(out@.map_values(|b: ImportBinding| b@) =~= so_far.map_values(
                |b: ImportBinding| b@,
            ).push(all[i as int]));
            assert(before + all.take(i + 1) =~= (before + all.take(i as int)).push(all[i as int]));
        }
        i = i + 1;
    }
    assert(all.take(i as int) =~= all);
}

/// The bindings of the top-level `from` imports of a module, in order.
fn collect_bindings(body: &Vec<Statement>, consumer: &str) -> (r: Vec<ImportBinding>)
    ensures
        r@.map_values(|b: ImportBinding| b@) == bindings_in(body@, consumer@),
{
    let mut out: Vec<ImportBinding> = Vec::new();
    let mut i: usize = 0;
    assert(out@.map_values(|b: ImportBinding| b@) =~= bindings_in(body@.take(0), consumer@));
    while i < body.len()
        invariant
            i <= body@.len(),
            out@.map_values(|b: ImportBinding| b@) == bindings_in(body@.take(i as int), consumer@),
        decreases body.len() - i,
    {
        assert(body@.take(i + 1).drop_last() =~= body@.take(i as int));
        assert(body@.take(i + 1).last() == body@[i as int]);
        if let StmtKind::ImportFrom { module, names, level } = &body[i].kind {
            let explicit: Option<&str> = match module {
                Some(name) => Some(name.as_str()),
                None => None,
            };
            let target: String = resolve_import_from(consumer, explicit, *level);
            push_aliases(names, consumer, target.as_str(), &mut out);
            proof {
                let name = match module {
                    Some(name) => Some(name@),
                    None => None,
                };
                assert(names@.map_values(|alias: Alias| alias_binding(alias, consumer@, target@))
                    =~= names@.map_values(
                    |alias: Alias|
                        alias_binding(
                            alias,
                            consumer@,
                            import_target(consumer@, name, *level as int),
                        ),
                ));
                assert(out@.map_values(|b: ImportBinding| b@) =~= bindings_in(
                    body@.take(i + 1),
                    consumer@,
                ));
            }
        }
        i = i + 1;
    }
    assert(body@.take(i as int) =~= body@);
    out
}

/// What kind of reload or dynamic import a callee stands for.
pub open spec fn call_kind(callee: Expression) -> Option<Seq<char>> {
    match callee.kind {
        ExprKind::Attribute { value, attr } => match value.kind {
            ExprKind::Name { id } => if id@ == "importlib"@ && attr@ == "reload"@ {
                Some("reload"@)
            } else if id@ == "importlib"@ && attr@ == "import_module"@ {
                Some("import_module"@)
            } else {
                None
            },
            _ => None,
        },
        ExprKind::Name { id } => if id@ == "__import__"@ {
            Some("__import__"@)
        } else {
            None
        },
        _ => None,
    }
}

/// Classify a callee as `reload`, `import_module` or `__import__`, or `None`
/// for unrelated calls.
pub fn classify_call(callee: &Expression) -> (r: Option<&'static str>)
    ensures
        r is Some <==> call_kind(*callee) is Some,
        r matches Some(kind) ==> call_kind(*callee) == Some(kind@),
{
    match &callee.kind {
        ExprKind::Attribute { value, attr } => match &value.kind {
            ExprKind::Name { id } => {
                if !text::same(id.as_str(), "importlib") {
                    None
                } else if text::same(attr.as_str(), "reload") {
                    Some("reload")
                } else if text::same(attr.as_str(), "import_module") {
                    Some("import_module")
                } else {
                    None
                }
            },
            _ => None,
        },
        ExprKind::Name { id } => {
            if text::same(id.as_str(), "__import__") {
                Some("__import__")
            } else {
                None
            }
        },
        _ => None,
    }
}

/// The 1-based line of an offset, or 1 where there is none.
pub open spec fn line_number(source: Seq<char>, at: int) -> int {
    let count = newlines(text::bytes(source).take(at)) + 1;
    if text::is_span(source, 0, at) && count <= u32::MAX {
        count as int
    } else {
        1
    }
}

/// Compute 1-based line number of the given byte offset in `source`.
pub fn line_at(source: &str, byte_offset: usize) -> (r: u32)
    ensures
        r == line_number(source@, byte_offset as int),
{
    let upto: &str = match text::slice(source, 0, byte_offset) {
        Some(part) => part,
        None => { return 1; },
    };
    let b: &[u8] = upto.as_bytes();
    assert(b@ =~= text::bytes(source@).take(byte_offset as int));
    let total: usize = b.len();
    let mut count: u64 = 0;
    let mut i: usize = 0;
    while i < total
        invariant
            i <= total,
            total == b@.len(),
            count == newlines(b@.take(i as int)),
            count <= i,
        decreases total - i,
    {
        assert(b@.take(i + 1).drop_last() =~= b@.take(i as int));
        if b[i] == 10 {
            count = count + 1;
        }
        i = i + 1;
    }
    assert(b@.take(i as int) =~= b@);
    if count < u32::MAX as u64 {
        count as u32 + 1
    } else {
        1
    }
}

/// The warnings for the calls among expressions.
pub open spec fn warnings_among(
    list: Seq<Expression>,
    source: Seq<char>,
    file: Seq<char>,
) -> Seq<WarningView>
    decreases list.len(),
{
    if list.len() == 0 {
        Seq::empty()
    } else {
        let init = warnings_among(list.drop_last(), source, file);
        match list.last().kind {
            ExprKind::Call { func, .. } => match call_kind(*func) {
                Some(kind) => init.push(
                    WarningView {
                        file,
                        line: line_number(source, list.last().span.start as int) as u32,
                        kind,
                    },
                ),
                None => init,
            },
            _ => init,
        }
    }
}

/// The warnings for the calls in a module.
fn collect_warnings(body: &Vec<Statement>, source: &str, file: &str) -> (r: Vec<ReloadWarning>)
    ensures
        r@.map_values(|w: ReloadWarning| w@) == warnings_among(suite_exprs(body@), source@, file@),
{
    let mut all: Vec<&Expression> = Vec::new();
    list_suite(body, &mut all);
    let ghost list = listed(all@);
    assert(list =~= suite_exprs(body@));
    let mut out: Vec<ReloadWarning> = Vec::new();
    let mut i: usize = 0;
    assert(out@.map_values(|w: ReloadWarning| w@) =~= warnings_among(list.take(0), source@, file@));
    while i < all.len()
        invariant
            i <= all@.len(),
            list == listed(all@),
            out@.map_values(|w: ReloadWarning| w@) == warnings_among(
                list.take(i as int),
                source@,
                file@,
            ),
        decreases all.len() - i,
    {
        let ghost before = out@;
        let expr: &Expression = all[i];
        assert(list.take(i + 1).drop_last() =~= list.take(i as int));
        assert(list.take(i + 1).last() == *expr);
        if let ExprKind::Call { func, .. } = &expr.kind {
            if let Some(kind) = classify_call(func) {
                out.push(
                    ReloadWarning {
                        file: file.to_owned(),
                        line: line_at(source, expr.span.start),
                        kind: kind.to_owned(),
                    },
                );
                assert(out@.map_values(|w: ReloadWarning| w@) =~= before.map_values(
                    |w: ReloadWarning| w@,
                ).push(out@.last()@));
            }
        }
        i = i + 1;
    }
    assert(list.take(i as int) =~= list);
    out
}

/// The list or tuple that a statement assigns to `__all__`.
pub open spec fn all_literal(kind: StmtKind) -> Option<Seq<Expression>> {
    match kind {
        StmtKind::Assign { targets, value } => if targets@.len() == 1 {
            all_elements(targets@[0], value)
        } else {
            None
        },
        StmtKind::AnnAssign { target, value, .. } => match value {
            Some(v) => all_elements(target, v),
            None => None,
        },
        _ => None,
    }
}

/// The elements of a list or tuple assigned to `__all__`.
pub open spec fn all_elements(target: Expression, value: Expression) -> Option<Seq<Expression>> {
    match target.kind {
        ExprKind::Name { id } => if id@ == "__all__"@ {
            match value.kind {
                ExprKind::List { elts } => Some(elts@),
                ExprKind::Tuple { elts } => Some(elts@),
                _ => None,
            }
        } else {
            None
        },
        _ => None,
    }
}

/// The values of string literals, unless one is something else.
pub open spec fn string_values(elts: Seq<Expression>) -> Option<Seq<Seq<char>>>
    decreases elts.len(),
{
    if elts.len() == 0 {
        Some(Seq::empty())
    } else {
        match (string_values(elts.drop_last()), elts.last().kind) {
            (Some(init), ExprKind::StringLiteral { value }) => Some(init.push(value@)),
            _ => None,
        }
    }
}

/// The names in the first list or tuple that a module assigns to `__all__`,
/// when all of them are string literals.
pub open spec fn static_all(body: Seq<Statement>) -> Option<Seq<Seq<char>>>
    decreases body.len(),
{
    if body.len() == 0 {
        None
    } else {
        match all_literal(body[0].kind) {
            Some(elts) => string_values(elts),
            None => static_all(body.drop_first()),
        }
    }
}

/// The elements of a list or tuple assigned to `__all__`.
fn find_elements<'a>(target: &'a Expression, value: &'a Expression) -> (r: Option<
    &'a Vec<Expression>,
>)
    ensures
        r is Some <==> all_elements(*target, *value) is Some,
        r matches Some(elts) ==> all_elements(*target, *value) == Some(elts@),
{
    if let ExprKind::Name { id } = &target.kind {
        if text::same(id.as_str(), "__all__") {
            return match &value.kind {
                ExprKind::List { elts } => Some(elts),
                ExprKind::Tuple { elts } => Some(elts),
                _ => None,
            };
        }
    }
    None
}

/// The list or tuple that a statement assigns to `__all__`.
fn find_all_literal<'a>(stmt: &'a Statement) -> (r: Option<&'a Vec<Expression>>)
    ensures
        r is Some <==> all_literal(stmt.kind) is Some,
        r matches Some(elts) ==> all_literal(stmt.kind) == Some(elts@),
{
    match &stmt.kind {
        StmtKind::Assign { targets, value } => {
            if targets.len() == 1 {
                find_elements(&targets[0], value)
            } else {
                None
            }
        },
        StmtKind::AnnAssign { target, value, .. } => match value {
            Some(v) => find_elements(target, v),
            None => None,
        },
        _ => None,
    }
}

/// An optional list of texts as a mathematical value.
pub open spec fn names_of(r: Option<Vec<String>>) -> Option<Seq<Seq<char>>> {
    match r {
        Some(names) => Some(texts(names@)),
        None => None,
    }
}

/// The values of string literals, unless one is something else.
fn read_strings(elts: &Vec<Expression>) -> (r: Option<Vec<String>>)
    ensures
        names_of(r) == string_values(elts@),
{
    let mut out: Vec<String> = Vec::new();
    let mut i: usize = 0;
    assert(texts(out@) =~= Seq::empty());
    assert(elts@.take(0) =~= Seq::empty());
    while i < elts.len()
        invariant
            i <= elts@.len(),
            string_values(elts@.take(i as int)) == Some(texts(out@)),
        decreases elts.len() - i,
    {
        assert(elts@.take(i + 1).drop_last() =~= elts@.take(i as int));
        assert(elts@.take(i + 1).last() == elts@[i as int]);
        match &elts[i].kind {
            ExprKind::StringLiteral { value } => {
                let ghost before = out@;
                out.push(value.clone());
                assert(texts(out@) =~= texts(before).push(value@));
            },
            _ => {
                proof {
                    lemma_strings_stay_broken(elts@, i + 1);
                }
                return None;
            },
        }
        i = i + 1;
    }
    assert(elts@.take(i as int) =~= elts@);
    Some(out)
}

/// An element that is no string literal spoils every longer list.
proof fn lemma_strings_stay_broken(elts: Seq<Expression>, i: int)
    requires
        0 <= i <= elts.len(),
        string_values(elts.take(i)) is None,
    ensures
        string_values(elts) is None,
    decreases elts.len() - i,
{
    if i < elts.len() {
        assert(elts.take(i + 1).drop_last() =~= elts.take(i));
        lemma_strings_stay_broken(elts, i + 1);
    } else {
        assert(elts.take(i) =~= elts);
    }
}

/// Extract a static `__all__` list from a parsed module body.
///
/// Returns `Some(names)` only when `__all__` is assigned a list or tuple
/// literal whose elements are all string literals. Any other shape
/// (function call, list comprehension, conditional, non-string elements)
/// returns `None`, and the caller treats the module's `__all__` as dynamic.
pub fn extract_static_all(ast: &Module) -> (r: Option<Vec<String>>)
    ensures
        names_of(r) == static_all(ast.body@),
{
    let body: &Vec<Statement> = &ast.body;
    let mut i: usize = 0;
    assert(body@.skip(0) =~= body@);
    while i < body.len()
        invariant
            i <= body@.len(),
            body == &ast.body,
            static_all(ast.body@) == static_all(body@.skip(i as int)),
        decreases body.len() - i,
    {
        assert(body@.skip(i as int).drop_first() =~= body@.skip(i + 1));
        assert(body@.skip(i as int)[0] == body@[i as int]);
        if let Some(elts) = find_all_literal(&body[i]) {
            return read_strings(elts);
        }
        i = i + 1;
    }
    None
}

/// The index of one source file. A file that cannot be parsed adds nothing.
pub open spec fn scanned(source: Seq<char>, consumer: Seq<char>, file: Seq<char>) -> IndexView {
    match parsed_module(source) {
        Err(_) => empty_index(),
        Ok(ast) => IndexView {
            bindings: bindings_in(ast.body@, consumer),
            warnings: warnings_among(suite_exprs(ast.body@), source, file),
            exports: match static_all(ast.body@) {
                Some(names) => Map::empty().insert(consumer, names),
                None => Map::empty(),
            },
            pending: Seq::empty(),
        },
    }
}

/// Parse a single source file and emit its [`PluginIndex`] contribution.
pub fn scan_source(source: &str, consumer_module: &str, file_path: &str) -> (r: PluginIndex)
    requires
        text::bytes(source@).len() <= u32::MAX,
    ensures
        r@ == scanned(source@, consumer_module@, file_path@),
{
    let ast: Module = match parse_module(source) {
        Ok(ast) => ast,
        Err(_) => { return PluginIndex::default(); },
    };
    let mut module_exports: ModuleExports = ModuleExports::new();
    if let Some(names) = extract_static_all(&ast) {
        module_exports.insert(consumer_module.to_owned(), names);
    }
    let r: PluginIndex = PluginIndex {
        import_bindings: collect_bindings(&ast.body, consumer_module),
        reload_warnings: collect_warnings(&ast.body, source, file_path),
        module_exports,
        pending_star_imports: Vec::new(),
    };
    assert(r@.pending =~= Seq::empty());
    r
}

/// The dotted name of the module in a file below `root`.
pub open spec fn module_name(root: Seq<char>, file: Seq<char>) -> Seq<char> {
    lines::join(
        without_init(without_extension(paths::below(paths::components(root), paths::components(file)))),
        "."@,
    )
}

/// A path whose file name has lost its extension.
pub open spec fn without_extension(parts: Seq<Seq<char>>) -> Seq<Seq<char>> {
    if parts.len() > 0 {
        parts.drop_last().push(paths::stem(parts.last()))
    } else {
        parts
    }
}

/// A module path without its `__init__`.
pub open spec fn without_init(parts: Seq<Seq<char>>) -> Seq<Seq<char>> {
    if parts.len() > 0 && parts.last() == "__init__"@ {
        parts.drop_last()
    } else {
        parts
    }
}

/// Convert a file path under `root` to its dotted Python module name.
pub fn path_to_module(root: &str, file: &str) -> (r: String)
    ensures
        r@ == module_name(root@, file@),
{
    let base: Vec<String> = paths::split_components(root);
    let mut parts: Vec<String> = paths::strip_base(&base, paths::split_components(file));
    let ghost all = texts(parts@);
    let total: usize = parts.len();
    if total == 0 {
        assert(without_init(without_extension(all)) =~= texts(parts@).take(0));
        return lines::join_texts(&parts, 0, ".");
    }
    let name: String = paths::file_stem(parts[total - 1].as_str());
    let count: usize = if text::same(name.as_str(), "__init__") {
        total - 1
    } else {
        total
    };
    parts.set(total - 1, name);
    proof {
        assert(texts(parts@) =~= without_extension(all));
        assert(texts(parts@).take(count as int) =~= without_init(without_extension(all)));
    }
    lines::join_texts(&parts, count, ".")
}

/// A Python file of a project that has been read.
#[derive(Debug)]
pub struct ProjectFile {
    /// Path of the file.
    pub path: String,
    /// Its text, unless it could not be read.
    pub source: Option<String>,
}

/// The index of the files of a project, before star imports are resolved.
/// Files that could not be read add nothing.
pub open spec fn gathered(root: Seq<char>, files: Seq<ProjectFile>) -> IndexView
    decreases files.len(),
{
    if files.len() == 0 {
        empty_index()
    } else {
        let init = gathered(root, files.drop_last());
        match files.last().source {
            Some(source) => merged(
                init,
                scanned(source@, module_name(root, files.last().path@), files.last().path@),
            ),
            None => init,
        }
    }
}

/// Scan all Python files found under `root` and return the aggregated
/// [`PluginIndex`], with its star imports resolved.
pub fn scan_project(root: &str, files: &[ProjectFile]) -> (r: PluginIndex)
    requires
        forall|i: int|
            0 <= i < files@.len() ==> ((#[trigger] files@[i]).source matches Some(source)
                ==> text::bytes(source@).len() <= u32::MAX),
    ensures
        r@ == resolved(gathered(root@, files@)),
{
    let mut out: PluginIndex = PluginIndex::default();
    let mut i: usize = 0;
    assert(files@.take(0) =~= Seq::empty());
    while i < files.len()
        invariant
            i <= files@.len(),
            forall|i: int|
                0 <= i < files@.len() ==> ((#[trigger] files@[i]).source matches Some(source)
                    ==> text::bytes(source@).len() <= u32::MAX),
            out@ == gathered(root@, files@.take(i as int)),
        decreases files.len() - i,
    {
        assert(files@.take(i + 1).drop_last() =~= files@.take(i as int));
        assert(files@.take(i + 1).last() == files@[i as int]);
        let file: &ProjectFile = &files[i];
        if let Some(source) = &file.source {
            let module: String = path_to_module(root, file.path.as_str());
            out.merge(scan_source(source.as_str(), module.as_str(), file.path.as_str()));
        }
        i = i + 1;
    }
    assert(files@.take(i as int) =~= files@);
    out.resolve_star_imports();
    out
}

/// What to do with an entry of a project directory.
#[derive(Debug, Clone, Copy, PartialEq, Eq, Structural)]
pub enum EntryAction {
    /// Leave the entry alone.
    Skip,
    /// Walk the directory.
    Descend,
    /// Scan the file.
    Scan,
}

/// Decide what to do with an entry of a project directory.
///
/// Symbolic links are not followed, which avoids cycles, `__pycache__`
/// directories are not entered, and only `.py` files are scanned.
pub fn entry_action(name: &str, is_symlink: bool, is_dir: bool) -> (r: EntryAction)
    ensures
        r == if is_symlink {
            EntryAction::Skip
        } else if is_dir {
            if name@ == "__pycache__"@ {
                EntryAction::Skip
            } else {
                EntryAction::Descend
            }
        } else if paths::extension(name@) == Some("py"@) {
            EntryAction::Scan
        } else {
            EntryAction::Skip
        },
{
    if is_symlink {
        return EntryAction::Skip;
    }
    if is_dir {
        return if text::same(name, "__pycache__") {
            EntryAction::Skip
        } else {
            EntryAction::Descend
        };
    }
    if paths::has_extension(name, "py") {
        EntryAction::Scan
    } else {
        EntryAction::Skip
    }
}

/// The bindings of a body are those of its first part followed by those of the
/// rest.
pub proof fn law_bindings_go_over_concatenation(
    a: Seq<Statement>,
    b: Seq<Statement>,
    consumer: Seq<char>,
)
    ensures
        bindings_in(a + b, consumer) == bindings_in(a, consumer) + bindings_in(b, consumer),
    decreases b.len(),
{
    if b.len() == 0 {
        assert(a + b =~= a);
    } else {
        law_bindings_go_over_concatenation(a, b.drop_last(), consumer);
        assert((a + b).drop_last() =~= a + b.drop_last());
        assert((a + b).last() == b.last());
        assert(bindings_in(a + b, consumer) =~= bindings_in(a, consumer) + bindings_in(
            b,
            consumer,
        ));
    }
}

/// Whether a binding is the one that a name of a from-import makes: a star
/// under itself, another name under the one that it is imported as.
pub open spec fn binds(
    b: BindingView,
    alias: Alias,
    consumer: Seq<char>,
    target: Seq<char>,
) -> bool {
    &&& b.consumer_module == consumer
    &&& b.target_module == target
    &&& b.target_name == alias.name@
    &&& alias.name@ == "*"@ || alias.asname is None ==> b.consumer_key == alias.name@
    &&& alias.name@ != "*"@ && alias.asname is Some ==> b.consumer_key == alias.asname->0@
}

/// A from-import makes one binding for each of its names, in their order.
/// Any other statement makes none.
pub proof fn law_an_import_binds_its_names(
    stmt: Statement,
    module: Option<String>,
    names: Vec<Alias>,
    level: u32,
    consumer: Seq<char>,
)
    ensures
        stmt.kind !is ImportFrom ==> bindings_in(seq![stmt], consumer).len() == 0,
        stmt.kind == (StmtKind::ImportFrom { module, names, level }) ==> {
            let made = bindings_in(seq![stmt], consumer);
            let target = import_target(
                consumer,
                (match module {
                    Some(name) => Some(name@),
                    None => None,
                }),
                level as int,
            );
            &&& made.len() == names@.len()
            &&& forall|k: int|
                0 <= k < names@.len() ==> binds(
                    #[trigger] made[k],
                    names@[k],
                    consumer,
                    target,
                )
        },
{
    let one = seq![stmt];
    assert(one.drop_last() =~= Seq::<Statement>::empty());
    assert(bindings_in(one.drop_last(), consumer) =~= Seq::<BindingView>::empty());
    assert(one.last() == stmt);
}

/// Every name of every from-import of a body has its binding, behind those of
/// the statements before it.
pub proof fn law_every_import_is_bound(
    body: Seq<Statement>,
    i: int,
    module: Option<String>,
    names: Vec<Alias>,
    level: u32,
    consumer: Seq<char>,
    k: int,
)
    requires
        0 <= i < body.len(),
        body[i].kind == (StmtKind::ImportFrom { module, names, level }),
        0 <= k < names@.len(),
    ensures
        ({
            let at = bindings_in(body.take(i), consumer).len() + k;
            let target = import_target(
                consumer,
                (match module {
                    Some(name) => Some(name@),
                    None => None,
                }),
                level as int,
            );
            &&& bindings_in(body, consumer).len() >= bindings_in(body.take(i), consumer).len()
                + names@.len()
            &&& binds(bindings_in(body, consumer)[at], names@[k], consumer, target)
        }),
{
    let before = body.take(i);
    let one = seq![body[i]];
    let rest = body.skip(i + 1);
    assert(before + one + rest =~= body);
    law_bindings_go_over_concatenation(before + one, rest, consumer);
    law_bindings_go_over_concatenation(before, one, consumer);
    law_an_import_binds_its_names(body[i], module, names, level, consumer);
    let made = bindings_in(one, consumer);
    let at = bindings_in(before, consumer).len() + k;
    assert(bindings_in(body, consumer)[at] == made[k]);
}

/// How many names the from-imports of a body have.
pub open spec fn imported_names(stmt: Statement) -> int {
    match stmt.kind {
        StmtKind::ImportFrom { names, .. } => names@.len() as int,
        _ => 0,
    }
}

/// There are as many bindings as the from-imports of the body have names.
pub proof fn law_there_is_one_binding_for_each_name(body: Seq<Statement>, consumer: Seq<char>)
    ensures
        bindings_in(body, consumer).len() == body.fold_left(
            0int,
            |n: int, stmt: Statement| n + imported_names(stmt),
        ),
    decreases body.len(),
{
    reveal(Seq::fold_left);
    if body.len() > 0 {
        law_there_is_one_binding_for_each_name(body.drop_last(), consumer);
    }
}

/// Star imports leave the bindings; the others stay, in their order.
pub proof fn law_named_bindings_stay(bindings: Seq<BindingView>)
    ensures
        named_bindings(bindings) == bindings.filter(|b: BindingView| b.target_name != "*"@),
    decreases bindings.len(),
{
    reveal(Seq::filter);
    if bindings.len() > 0 {
        law_named_bindings_stay(bindings.drop_last());
    }
}

/// What star imports resolve to goes over concatenation, and so does what is
/// left of them.
pub proof fn law_stars_go_over_concatenation(
    a: Seq<BindingView>,
    b: Seq<BindingView>,
    exports: Map<Seq<char>, Seq<Seq<char>>>,
)
    ensures
        resolved_stars(a + b, exports) == resolved_stars(a, exports) + resolved_stars(b, exports),
        unresolved_stars(a + b, exports) == unresolved_stars(a, exports) + unresolved_stars(
            b,
            exports,
        ),
    decreases b.len(),
{
    if b.len() == 0 {
        assert(a + b =~= a);
    } else {
        law_stars_go_over_concatenation(a, b.drop_last(), exports);
        assert((a + b).drop_last() =~= a + b.drop_last());
        assert((a + b).last() == b.last());
        assert(resolved_stars(a + b, exports) =~= resolved_stars(a, exports) + resolved_stars(
            b,
            exports,
        ));
        assert(unresolved_stars(a + b, exports) =~= unresolved_stars(a, exports)
            + unresolved_stars(b, exports));
    }
}

/// A star import of a module with a static `__all__` binds each of its names to
/// itself. One of another module waits for the module.
pub proof fn law_a_star_binds_what_is_exported(
    b: BindingView,
    exports: Map<Seq<char>, Seq<Seq<char>>>,
)
    ensures
        ({
            let names = resolved_stars(seq![b], exports);
            let waits = unresolved_stars(seq![b], exports);
            &&& b.target_name != "*"@ ==> names.len() == 0 && waits.len() == 0
            &&& b.target_name == "*"@ && exports.contains_key(b.target_module) ==> waits.len() == 0
                && names.len() == exports[b.target_module].len() && forall|k: int|
                0 <= k < names.len() ==> {
                    &&& (#[trigger] names[k]).consumer_module == b.consumer_module
                    &&& names[k].target_module == b.target_module
                    &&& names[k].consumer_key == exports[b.target_module][k]
                    &&& names[k].target_name == exports[b.target_module][k]
                }
            &&& b.target_name == "*"@ && !exports.contains_key(b.target_module) ==> names.len()
                == 0 && waits.len() == 1 && waits[0].consumer_module == b.consumer_module
                && waits[0].target_module == b.target_module
        }),
{
    let one = seq![b];
    assert(one.drop_last() =~= Seq::<BindingView>::empty());
    assert(resolved_stars(one.drop_last(), exports) =~= Seq::<BindingView>::empty());
    assert(unresolved_stars(one.drop_last(), exports) =~= Seq::<PendingView>::empty());
    assert(one.last() == b);
}

/// The calls that load a module at run time: `importlib.reload`,
/// `importlib.import_module` and `__import__`.
pub open spec fn loads_as(callee: Expression, kind: Seq<char>) -> bool {
    match callee.kind {
        ExprKind::Attribute { value, attr } => {
            &&& value.kind matches ExprKind::Name { id }
            &&& id@ == "importlib"@
            &&& attr@ == kind
            &&& kind == "reload"@ || kind == "import_module"@
        },
        ExprKind::Name { id } => id@ == kind && kind == "__import__"@,
        _ => false,
    }
}

/// Whether a warning is the one for an expression.
pub open spec fn warns_of(
    w: WarningView,
    expr: Expression,
    source: Seq<char>,
    file: Seq<char>,
) -> bool {
    &&& expr.kind matches ExprKind::Call { func, .. }
    &&& loads_as(*func, w.kind)
    &&& w.file == file
    &&& w.line == line_number(source, expr.span.start as int)
}

/// The expression that gives a warning is a call that loads a module, and each
/// such call gives one.
pub proof fn law_loading_calls_are_warned_of(
    expr: Expression,
    source: Seq<char>,
    file: Seq<char>,
    kind: Seq<char>,
)
    ensures
        warnings_among(seq![expr], source, file).len() <= 1,
        forall|w: WarningView|
            #[trigger] warns_of(w, expr, source, file) ==> warnings_among(
                seq![expr],
                source,
                file,
            ) == seq![w],
        warnings_among(seq![expr], source, file).len() == 1 ==> warns_of(
            warnings_among(seq![expr], source, file)[0],
            expr,
            source,
            file,
        ),
{
    reveal_strlit("reload");
    reveal_strlit("import_module");
    let one = seq![expr];
    assert(one.drop_last() =~= Seq::<Expression>::empty());
    assert(warnings_among(one.drop_last(), source, file) =~= Seq::<WarningView>::empty());
    assert(one.last() == expr);
    assert(line_number(source, expr.span.start as int) <= u32::MAX);
    assert forall|w: WarningView| #[trigger] warns_of(w, expr, source, file) implies warnings_among(
        one,
        source,
        file,
    ) == seq![w] by {
        assert(call_kind(*(expr.kind->Call_func)) == Some(w.kind));
        let made = warnings_among(one, source, file);
        assert(made.len() == 1);
        assert(made[0] =~= w);
        assert(made =~= seq![w]);
    }
}

/// The warnings of a list of expressions are those of its first part followed
/// by those of the rest.
pub proof fn law_warnings_go_over_concatenation(
    a: Seq<Expression>,
    b: Seq<Expression>,
    source: Seq<char>,
    file: Seq<char>,
)
    ensures
        warnings_among(a + b, source, file) == warnings_among(a, source, file) + warnings_among(
            b,
            source,
            file,
        ),
    decreases b.len(),
{
    if b.len() == 0 {
        assert(a + b =~= a);
    } else {
        law_warnings_go_over_concatenation(a, b.drop_last(), source, file);
        assert((a + b).drop_last() =~= a + b.drop_last());
        assert((a + b).last() == b.last());
        assert(warnings_among(a + b, source, file) =~= warnings_among(a, source, file)
            + warnings_among(b, source, file));
    }
}

/// A list of expressions has string values exactly when all of them are string
/// literals, and then they are the literals' values, in their order.
pub proof fn law_strings_are_read_one_for_one(elts: Seq<Expression>)
    ensures
        string_values(elts) is Some <==> forall|i: int|
            0 <= i < elts.len() ==> (#[trigger] elts[i]).kind is StringLiteral,
        string_values(elts) matches Some(names) ==> names.len() == elts.len() && forall|i: int|
            0 <= i < elts.len() ==> (#[trigger] names[i]) == elts[i].kind->StringLiteral_value@,
    decreases elts.len(),
{
    if elts.len() > 0 {
        let rest = elts.drop_last();
        law_strings_are_read_one_for_one(rest);
        assert(elts[elts.len() - 1] == elts.last());
        if string_values(elts) is Some {
            assert forall|i: int| 0 <= i < elts.len() implies (#[trigger] elts[i]).kind
                is StringLiteral by {
                if i < rest.len() {
                    assert(rest[i] == elts[i]);
                }
            }
        }
        if forall|i: int| 0 <= i < elts.len() ==> (#[trigger] elts[i]).kind is StringLiteral {
            assert forall|i: int| 0 <= i < rest.len() implies (#[trigger] rest[i]).kind
                is StringLiteral by {
                assert(rest[i] == elts[i]);
            }
        }
        if let Some(names) = string_values(elts) {
            let init = string_values(rest)->0;
            assert forall|i: int| 0 <= i < elts.len() implies (#[trigger] names[i])
                == elts[i].kind->StringLiteral_value@ by {
                if i < rest.len() {
                    assert(names[i] == init[i]);
                    assert(rest[i] == elts[i]);
                }
            }
        }
    }
}

/// Whether a statement assigns a list or tuple of these elements to `__all__`,
/// as its only target or with an annotation.
pub open spec fn lists_exports(stmt: Statement, elts: Seq<Expression>) -> bool {
    &&& exists|target: Expression, value: Expression|
        #![trigger assigns(stmt, target, value)]
        {
            &&& assigns(stmt, target, value)
            &&& target.kind matches ExprKind::Name { id }
            &&& id@ == "__all__"@
            &&& holds_elements(value, elts)
        }
}

/// Whether a statement assigns a value to one target.
pub open spec fn assigns(stmt: Statement, target: Expression, value: Expression) -> bool {
    match stmt.kind {
        StmtKind::Assign { targets, value: v } => targets@ == seq![target] && v == value,
        StmtKind::AnnAssign { target: t, value: v, .. } => t == target && v == Some(value),
        _ => false,
    }
}

/// Whether an expression is a list or a tuple of these elements.
pub open spec fn holds_elements(value: Expression, elts: Seq<Expression>) -> bool {
    match value.kind {
        ExprKind::List { elts: e } => e@ == elts,
        ExprKind::Tuple { elts: e } => e@ == elts,
        _ => false,
    }
}

/// The statements that list exports, told from the statement itself.
pub proof fn law_exports_are_listed(stmt: Statement, elts: Seq<Expression>)
    ensures
        all_literal(stmt.kind) == Some(elts) <==> lists_exports(stmt, elts),
{
    if all_literal(stmt.kind) == Some(elts) {
        match stmt.kind {
            StmtKind::Assign { targets, value } => {
                assert(targets@ =~= seq![targets@[0]]);
                assert(assigns(stmt, targets@[0], value));
            },
            StmtKind::AnnAssign { target, value, .. } => {
                assert(assigns(stmt, target, value->0));
            },
            _ => {},
        }
    }
    if lists_exports(stmt, elts) {
        let (target, value) = choose|target: Expression, value: Expression|
            #![trigger assigns(stmt, target, value)]
            {
                &&& assigns(stmt, target, value)
                &&& target.kind matches ExprKind::Name { id }
                &&& id@ == "__all__"@
                &&& holds_elements(value, elts)
            };
        assert(assigns(stmt, target, value));
        assert(seq![target][0] == target);
    }
}

/// What a body exports is what the first statement that lists exports says.
pub proof fn law_the_first_exports_count(body: Seq<Statement>, i: int, elts: Seq<Expression>)
    requires
        0 <= i < body.len(),
        lists_exports(body[i], elts),
        forall|j: int, e: Seq<Expression>| 0 <= j < i ==> !#[trigger] lists_exports(body[j], e),
    ensures
        static_all(body) == string_values(elts),
    decreases body.len(),
{
    law_exports_are_listed(body[i], elts);
    if i > 0 {
        let rest = body.drop_first();
        assert(rest[i - 1] == body[i]);
        assert forall|j: int, e: Seq<Expression>| 0 <= j < i - 1 implies !#[trigger] lists_exports(
            rest[j],
            e,
        ) by {
            assert(rest[j] == body[j + 1]);
            assert(!lists_exports(body[j + 1], e));
        }
        law_the_first_exports_count(rest, i - 1, elts);
        if let Some(e) = all_literal(body[0].kind) {
            law_exports_are_listed(body[0], e);
            assert(!lists_exports(body[0], e));
        }
    }
}

/// A body without a statement that lists exports exports nothing.
pub proof fn law_without_exports_there_are_none(body: Seq<Statement>)
    requires
        forall|j: int, e: Seq<Expression>|
            0 <= j < body.len() ==> !#[trigger] lists_exports(body[j], e),
    ensures
        static_all(body) is None,
    decreases body.len(),
{
    if body.len() > 0 {
        let rest = body.drop_first();
        assert forall|j: int, e: Seq<Expression>| 0 <= j < rest.len() implies !#[trigger] lists_exports(
            rest[j],
            e,
        ) by {
            assert(rest[j] == body[j + 1]);
            assert(!lists_exports(body[j + 1], e));
        }
        law_without_exports_there_are_none(rest);
        if let Some(e) = all_literal(body[0].kind) {
            law_exports_are_listed(body[0], e);
            assert(!lists_exports(body[0], e));
        }
    }
}

/// The index of a project holds, for every file that was read, all that the
/// scan of it gave, and nothing else.
pub proof fn law_the_index_has_every_file(root: Seq<char>, a: Seq<ProjectFile>, b: Seq<ProjectFile>)
    ensures
        gathered(root, a + b).bindings == gathered(root, a).bindings + gathered(root, b).bindings,
        gathered(root, a + b).warnings == gathered(root, a).warnings + gathered(root, b).warnings,
        gathered(root, a + b).pending == gathered(root, a).pending + gathered(root, b).pending,
        forall|m: Seq<char>|
            #[trigger] gathered(root, a + b).exports.contains_key(m) <==> gathered(
                root,
                a,
            ).exports.contains_key(m) || gathered(root, b).exports.contains_key(m),
        forall|m: Seq<char>|
            gathered(root, b).exports.contains_key(m) ==> #[trigger] gathered(
                root,
                a + b,
            ).exports[m] == gathered(root, b).exports[m],
        forall|m: Seq<char>|
            !gathered(root, b).exports.contains_key(m) && gathered(root, a).exports.contains_key(m)
                ==> #[trigger] gathered(root, a + b).exports[m] == gathered(root, a).exports[m],
        forall|file: ProjectFile|
            gathered(root, #[trigger] seq![file]) == match file.source {
                Some(source) => scanned(source@, module_name(root, file.path@), file.path@),
                None => empty_index(),
            },
    decreases b.len(),
{
    assert forall|file: ProjectFile|
        gathered(root, #[trigger] seq![file]) == match file.source {
            Some(source) => scanned(source@, module_name(root, file.path@), file.path@),
            None => empty_index(),
        } by {
        let one = seq![file];
        assert(one.drop_last() =~= Seq::<ProjectFile>::empty());
        assert(gathered(root, one.drop_last()) == empty_index());
        assert(one.last() == file);
        if let Some(source) = file.source {
            let got = scanned(source@, module_name(root, file.path@), file.path@);
            assert(merged(empty_index(), got) =~= got);
        }
    }
    if b.len() == 0 {
        assert(a + b =~= a);
    } else {
        law_the_index_has_every_file(root, a, b.drop_last());
        assert((a + b).drop_last() =~= a + b.drop_last());
        assert((a + b).last() == b.last());
        assert(gathered(root, a + b).bindings =~= gathered(root, a).bindings + gathered(
            root,
            b,
        ).bindings);
        assert(gathered(root, a + b).warnings =~= gathered(root, a).warnings + gathered(
            root,
            b,
        ).warnings);
        assert(gathered(root, a + b).pending =~= gathered(root, a).pending + gathered(
            root,
            b,
        ).pending);
    }
}

proof fn lemma_dots_are_pieces(s: Seq<char>)
    ensures
        lines::split(s, '.').len() == s.filter(|c: char| c == '.').len() + 1,
        lines::join(lines::split(s, '.'), "."@) == s,
{
    reveal_strlit(".");
    lines::law_pieces_make_the_text(s, '.');
    assert("."@ =~= seq!['.']);
}

/// An absolute import is of the module that it names. A relative one goes up
/// one package for each dot: the first dot takes the module's own name off, and
/// each further one the name of a package. What it names stands under the
/// package that is left.
pub proof fn law_relative_imports_go_up(
    package: Seq<char>,
    below: Seq<char>,
    name: Seq<char>,
    level: int,
)
    requires
        level >= 1,
        below.filter(|c: char| c == '.').len() == level - 1,
        package.len() > 0,
    ensures
        import_target(package.push('.') + below, Some(name), level) == package.push('.') + name,
        import_target(package.push('.') + below, None, level) == package,
        import_target(below, Some(name), level) == name,
        import_target(below, None, level) == Seq::<char>::empty(),
        forall|consumer: Seq<char>| #[trigger]
            import_target(consumer, Some(name), 0) == name,
        forall|consumer: Seq<char>| #[trigger]
            import_target(consumer, None, 0) == Seq::<char>::empty(),
{
    reveal_strlit(".");
    let consumer = package.push('.') + below;
    lines::law_splitting_goes_over_separators(package, below, '.');
    lemma_dots_are_pieces(package);
    lemma_dots_are_pieces(below);
    let parts = lines::split(consumer, '.');
    let kept = lines::split(package, '.');
    assert(parts.take(parts.len() - level) =~= kept);
    assert(lines::join(kept, "."@) == package);
    assert(package + "."@ + name =~= package.push('.') + name);
    let own = lines::split(below, '.');
    assert(own.take(0) =~= Seq::<Seq<char>>::empty());
    assert(lines::join(Seq::<Seq<char>>::empty(), "."@) =~= Seq::<char>::empty());
}

/// The module of a file under the root is named by its directories and its own
/// name without the extension, with dots between them. A package is named by
/// its directory alone.
pub proof fn law_modules_are_named_by_their_path(
    root: Seq<char>,
    file: Seq<char>,
    dirs: Seq<Seq<char>>,
    name: Seq<char>,
)
    requires
        paths::components(file) == paths::components(root) + dirs.push(name),
    ensures
        paths::stem(name) != "__init__"@ ==> module_name(root, file) == lines::join(
            dirs.push(paths::stem(name)),
            "."@,
        ),
        paths::stem(name) == "__init__"@ ==> module_name(root, file) == lines::join(dirs, "."@),
{
    let base = paths::components(root);
    let rest = dirs.push(name);
    paths::law_the_base_is_taken_off(base, rest, rest);
    assert(rest.drop_last() =~= dirs);
    assert(dirs.push(paths::stem(name)).drop_last() =~= dirs);
}

/// A warning tells the line that its offset has in the source.
pub proof fn law_warnings_tell_the_line(source: Seq<char>, at: int)
    requires
        text::is_span(source, 0, at),
        line_of(text::bytes(source), at) <= u32::MAX,
    ensures
        line_number(source, at) == line_of(text::bytes(source), at),
{
    let b = text::bytes(source);
    assert(before(b, at) =~= b.take(at));
}

/// Resolving star imports changes the bindings and the imports that wait, and
/// nothing else: the named bindings stay in front, what the stars bind follows,
/// and what cannot be resolved is added to what waits already.
pub proof fn law_resolving_changes_the_stars_alone(index: IndexView)
    ensures
        resolved(index).warnings == index.warnings,
        resolved(index).exports == index.exports,
        resolved(index).bindings == index.bindings.filter(
            |b: BindingView| b.target_name != "*"@,
        ) + resolved_stars(index.bindings, index.exports),
        resolved(index).pending == index.pending + unresolved_stars(index.bindings, index.exports),
{
    law_named_bindings_stay(index.bindings);
}

/// Merging adds all that the other index has behind what is there; of the
/// exports of one module the other's count.
pub proof fn law_merging_adds_the_other_index(a: IndexView, b: IndexView, module: Seq<char>)
    ensures
        merged(a, b).bindings == a.bindings + b.bindings,
        merged(a, b).warnings == a.warnings + b.warnings,
        merged(a, b).pending == a.pending + b.pending,
        merged(a, b).exports.contains_key(module) <==> a.exports.contains_key(module)
            || b.exports.contains_key(module),
        b.exports.contains_key(module) ==> merged(a, b).exports[module] == b.exports[module],
        !b.exports.contains_key(module) && a.exports.contains_key(module) ==> merged(
            a,
            b,
        ).exports[module] == a.exports[module],
        merged(a, empty_index()).bindings == a.bindings,
        merged(empty_index(), b).bindings == b.bindings,
{
    assert(merged(a, empty_index()).bindings =~= a.bindings);
    assert(merged(empty_index(), b).bindings =~= b.bindings);
}

/// The scan of a file gives what its imports bind, what its calls are warned of,
/// and its exports under its own name. A file that does not parse gives nothing.
pub proof fn law_scans_give_what_a_file_holds(
    source: Seq<char>,
    ast: Module,
    consumer: Seq<char>,
    file: Seq<char>,
    names: Seq<Seq<char>>,
)
    ensures
        parsed_module(source) is Err ==> scanned(source, consumer, file) == empty_index(),
        parsed_module(source) == Ok::<Module, Seq<char>>(ast) ==> {
            let found = scanned(source, consumer, file);
            &&& found.bindings == bindings_in(ast.body@, consumer)
            &&& found.warnings == warnings_among(suite_exprs(ast.body@), source, file)
            &&& found.pending.len() == 0
            &&& found.exports.contains_key(consumer) <==> static_all(ast.body@) is Some
            &&& static_all(ast.body@) == Some(names) ==> found.exports[consumer] == names
            &&& forall|m: Seq<char>| m != consumer ==> !#[trigger] found.exports.contains_key(m)
        },
{
}

} // verus!
