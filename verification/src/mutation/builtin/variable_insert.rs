//! Variable perturbation mutator.
//!
//! Replaces a name that is read in a value by a small arithmetic change of
//! it, such as `(name + 1)`, chosen by hashing the seed, the file and the
//! position.
use crate::ast::Module;
use crate::mutation::builtin::name_sites::{filled, find_name_sites, name_sites};
use crate::mutation::mutator::{edits, faithful, Edit, Mutation, MutationContext, Mutator};
use crate::mutation::seed::{derivable, derive_value, is_decided, next_seed};
use vstd::prelude::*;

verus! {

/// Mutator that perturbs variables.
#[derive(Debug)]
pub struct VariableInsert;

/// The operator for a hash value.
pub open spec fn operator(value: u64) -> Seq<char> {
    if value % 3 == 0 {
        " + "@
    } else if value % 3 == 1 {
        " - "@
    } else {
        " * "@
    }
}

/// The operand for a hash value.
pub open spec fn operand(value: u64) -> Seq<char> {
    if value % 3 == 0 {
        "1"@
    } else if value % 3 == 1 {
        "-1"@
    } else {
        "2"@
    }
}

/// The perturbed form of a name for two hash values.
pub open spec fn perturbed(original: Seq<char>, first: u64, second: u64) -> Seq<char> {
    "("@ + original + operator(first) + operand(second) + ")"@
}

/// The perturbed form of a name for two hash values.
pub fn inserted_text(original: &str, first: u64, second: u64) -> (r: String)
    ensures
        r@ == perturbed(original@, first, second),
{
    let op: &str = if first % 3 == 0 {
        " + "
    } else if first % 3 == 1 {
        " - "
    } else {
        " * "
    };
    let arg: &str = if second % 3 == 0 {
        "1"
    } else if second % 3 == 1 {
        "-1"
    } else {
        "2"
    };
    let mut out: String = "(".to_owned();
    out.append(original);
    out.append(op);
    out.append(arg);
    out.append(")");
    out
}

/// The edits that perturb the names at the sites by the hash values drawn for
/// them.
pub open spec fn insertions(sites: Seq<Edit>, drawn: Seq<(u64, u64)>) -> Seq<Edit> {
    Seq::new(
        sites.len(),
        |i: int| filled(sites[i], perturbed(sites[i].original, drawn[i].0, drawn[i].1)),
    )
}

/// Perturb the names at the sites by the hash values drawn for them.
pub fn insert_drawn(sites: &Vec<Mutation>, drawn: &Vec<(u64, u64)>) -> (r: Vec<Mutation>)
    requires
        sites@.len() == drawn@.len(),
    ensures
        edits(r@) == insertions(edits(sites@), drawn@),
{
    let mut out: Vec<Mutation> = Vec::new();
    let ghost all = insertions(edits(sites@), drawn@);
    let mut i: usize = 0;
    assert(edits(out@) =~= all.take(0));
    while i < sites.len()
        invariant
            i <= sites@.len() == drawn@.len(),
            all == insertions(edits(sites@), drawn@),
            edits(out@) == all.take(i as int),
        decreases sites.len() - i,
    {
        let site: &Mutation = &sites[i];
        let (first, second): (u64, u64) = drawn[i];
        assert(edits(sites@)[i as int] == site@);
        let new: Mutation = Mutation {
            byte_offset: site.byte_offset,
            byte_length: site.byte_length,
            original_text: site.original_text.clone(),
            replacement_text: inserted_text(site.original_text.as_str(), first, second),
        };
        assert(new@ == all[i as int]);
        let ghost before = edits(out@);
        out.push(new);
        assert(edits(out@) =~= before.push(new@));
        assert(all.take(i + 1) =~= all.take(i as int).push(all[i as int]));
        i = i + 1;
    }
    assert(all.take(i as int) =~= all);
    out
}

/// Whether two values were drawn for each site by hashing, under the seed and
/// the one after it, with the file, the offset of the site and the name of
/// this operator.
pub open spec fn is_drawn(
    sites: Seq<Edit>,
    seed: u64,
    file_path: Seq<char>,
    drawn: Seq<(u64, u64)>,
) -> bool {
    &&& drawn.len() == sites.len()
    &&& forall|i: int|
        0 <= i < drawn.len() ==> is_pair(
            sites[i].offset,
            seed,
            file_path,
            #[trigger] drawn[i],
        )
}

/// Whether two values were drawn by hashing for a place.
pub open spec fn is_pair(
    offset: int,
    seed: u64,
    file_path: Seq<char>,
    pair: (u64, u64),
) -> bool {
    &&& derivable(seed, file_path, offset, "variable_insert"@).contains(pair.0)
    &&& derivable(next_seed(seed), file_path, offset, "variable_insert"@).contains(pair.1)
}

/// Whether the edits perturb each site by a pair of values drawn for it.
pub open spec fn inserted(
    sites: Seq<Edit>,
    seed: u64,
    file_path: Seq<char>,
    found: Seq<Edit>,
) -> bool {
    exists|drawn: Seq<(u64, u64)>|
        is_drawn(sites, seed, file_path, drawn) && found == #[trigger] insertions(sites, drawn)
}

/// Draws two hash values for each site: for the seed, and for the one after
/// it, with the file and the offset of the site.
pub fn draw_values(sites: &Vec<Mutation>, seed: u64, file_path: &str) -> (r: Vec<(u64, u64)>)
    ensures
        is_drawn(edits(sites@), seed, file_path@, r@),
{
    let mut drawn: Vec<(u64, u64)> = Vec::new();
    let mut i: usize = 0;
    while i < sites.len()
        invariant
            i <= sites@.len(),
            drawn@.len() == i,
            forall|j: int|
                0 <= j < i ==> is_pair(
                    edits(sites@)[j].offset,
                    seed,
                    file_path@,
                    #[trigger] drawn@[j],
                ),
        decreases sites.len() - i,
    {
        let offset: usize = sites[i].byte_offset;
        let first: u64 = derive_value(seed, file_path, offset, "variable_insert");
        let second: u64 = derive_value(
            seed.wrapping_add(1),
            file_path,
            offset,
            "variable_insert",
        );
        drawn.push((first, second));
        i = i + 1;
    }
    drawn
}

/// The same seed gives the same insertions in the same file: where hashing
/// gives one value for what it is handed, two lists of edits for the same
/// sites are equal.
pub proof fn law_seed_decides_the_insertions(
    sites: Seq<Edit>,
    seed: u64,
    file_path: Seq<char>,
    a: Seq<Edit>,
    b: Seq<Edit>,
)
    requires
        inserted(sites, seed, file_path, a),
        inserted(sites, seed, file_path, b),
    ensures
        is_decided() ==> a == b,
{
    if is_decided() {
        let first = choose|drawn: Seq<(u64, u64)>|
            is_drawn(sites, seed, file_path, drawn) && a == #[trigger] insertions(sites, drawn);
        let second = choose|drawn: Seq<(u64, u64)>|
            is_drawn(sites, seed, file_path, drawn) && b == #[trigger] insertions(sites, drawn);
        assert(first =~= second);
    }
}

impl Mutator for VariableInsert {
    open spec fn label(&self) -> Seq<char> {
        "variable_insert"@
    }

    open spec fn finds(
        &self,
        source: Seq<char>,
        ast: Module,
        ctx: MutationContext<'_>,
        found: Seq<Edit>,
    ) -> bool {
        match ctx.seed {
            Some(seed) => inserted(name_sites(source, ast), seed, ctx.file_path@, found),
            None => found.len() == 0,
        }
    }

    fn name(&self) -> (r: &str) {
        "variable_insert"
    }

    fn find_mutations(&self, source: &str, ast: &Module, ctx: &MutationContext<'_>) -> (r: Vec<
        Mutation,
    >) {
        let seed: u64 = match ctx.seed {
            Some(seed) => seed,
            None => return Vec::new(),
        };
        let sites: Vec<Mutation> = find_name_sites(source, ast);
        let drawn: Vec<(u64, u64)> = draw_values(&sites, seed, ctx.file_path);
        let out: Vec<Mutation> = insert_drawn(&sites, &drawn);
        proof {
            let places = name_sites(source@, *ast);
            assert(edits(out@) == insertions(places, drawn@));
            assert forall|j: int| 0 <= j < out.len() implies faithful(
                source@,
                #[trigger] edits(out@)[j],
            ) by {
                assert(faithful(source@, places[j]));
            }
        }
        out
    }
}

/// Which operator and operand a name gets for two drawn values: one of `+`, `-`
/// and `*`, and one of 1, -1 and 2.
pub open spec fn is_perturbed(name: Seq<char>, first: int, second: int, new: Seq<char>) -> bool {
    exists|op: Seq<char>, by: Seq<char>|
        {
            &&& first % 3 == 0 && op == " + "@ || first % 3 == 1 && op == " - "@ || first % 3 == 2
                && op == " * "@
            &&& second % 3 == 0 && by == "1"@ || second % 3 == 1 && by == "-1"@ || second % 3 == 2
                && by == "2"@
            &&& new == #[trigger] put_together(name, op, by)
        }
}

/// An operation on a name in parentheses.
pub open spec fn put_together(name: Seq<char>, op: Seq<char>, by: Seq<char>) -> Seq<char> {
    seq!['('] + name + op + by + seq![')']
}

/// Whether an edit perturbs the name of a site, in place, by two values drawn
/// for it, under the seed and under the one after it.
pub open spec fn perturbs(site: Edit, seed: u64, file_path: Seq<char>, e: Edit) -> bool {
    &&& e.offset == site.offset
    &&& e.length == site.length
    &&& e.original == site.original
    &&& exists|a: u64, b: u64|
        #[trigger] are_drawn(seed, file_path, site.offset, a, b) && is_perturbed(
            site.original,
            a as int,
            b as int,
            e.replacement,
        )
}

/// Whether two values are drawn for a place, under a seed and the one after it.
pub open spec fn are_drawn(seed: u64, file_path: Seq<char>, at: int, a: u64, b: u64) -> bool {
    &&& derivable(seed, file_path, at, "variable_insert"@).contains(a)
    &&& seed < 0xffff_ffff_ffff_ffff ==> derivable(
        (seed + 1) as u64,
        file_path,
        at,
        "variable_insert"@,
    ).contains(b)
    &&& seed == 0xffff_ffff_ffff_ffff ==> derivable(0, file_path, at, "variable_insert"@).contains(
        b,
    )
}

proof fn lemma_perturbs(site: Edit, seed: u64, file_path: Seq<char>, pair: (u64, u64))
    requires
        is_pair(site.offset, seed, file_path, pair),
    ensures
        perturbs(
            site,
            seed,
            file_path,
            filled(site, perturbed(site.original, pair.0, pair.1)),
        ),
{
    let (a, b) = pair;
    let e = filled(site, perturbed(site.original, a, b));
    reveal_strlit("(");
    reveal_strlit(")");
    assert("("@ =~= seq!['(']);
    assert(")"@ =~= seq![')']);
    assert(e.replacement == put_together(site.original, operator(a), operand(b)));
    assert(is_perturbed(site.original, a as int, b as int, e.replacement));
    assert(are_drawn(seed, file_path, site.offset, a, b));
}

/// With a seed every use of a name is perturbed by values drawn for it; without
/// one nothing is.
pub proof fn law_names_are_perturbed(
    source: Seq<char>,
    ast: Module,
    ctx: MutationContext<'_>,
    found: Seq<Edit>,
)
    requires
        VariableInsert.finds(source, ast, ctx, found),
    ensures
        ctx.seed is None ==> found == Seq::<Edit>::empty(),
        ctx.seed matches Some(seed) ==> found.len() == name_sites(source, ast).len()
            && forall|i: int|
            0 <= i < found.len() ==> perturbs(
                name_sites(source, ast)[i],
                seed,
                ctx.file_path@,
                #[trigger] found[i],
            ),
{
    match ctx.seed {
        Some(seed) => {
            let sites = name_sites(source, ast);
            let drawn = choose|drawn: Seq<(u64, u64)>|
                is_drawn(sites, seed, ctx.file_path@, drawn) && found == #[trigger] insertions(
                    sites,
                    drawn,
                );
            assert forall|i: int| 0 <= i < found.len() implies perturbs(
                sites[i],
                seed,
                ctx.file_path@,
                #[trigger] found[i],
            ) by {
                assert(is_pair(sites[i].offset, seed, ctx.file_path@, drawn[i]));
                lemma_perturbs(sites[i], seed, ctx.file_path@, drawn[i]);
            }
        },
        None => {
            assert(found =~= Seq::<Edit>::empty());
        },
    }
}

} // verus!
