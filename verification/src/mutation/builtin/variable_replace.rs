//! Variable replacement mutator.
//!
//! Replaces a name that is read in a value by a constant from -100 to 100,
//! chosen by hashing the seed, the file and the position.
use crate::ast::Module;
use crate::decimal;
use crate::mutation::builtin::name_sites::{filled, find_name_sites, name_sites};
use crate::mutation::mutator::{edits, faithful, Edit, Mutation, MutationContext, Mutator};
use crate::mutation::seed::{derivable, derive_value, is_decided};
use vstd::prelude::*;

verus! {

/// Mutator that replaces variables by constants.
#[derive(Debug)]
pub struct VariableReplace;

/// The constant for a hash value.
pub open spec fn constant(value: u64) -> Seq<char> {
    decimal::decimal(value % 201 - 100)
}

/// The constant for a hash value.
pub fn replacement_constant(value: u64) -> (r: String)
    ensures
        r@ == constant(value),
{
    let num: i64 = (value % 201) as i64 - 100;
    decimal::decimal_i64(num)
}

/// The edits that replace the names at the sites by the constants of the hash
/// values drawn for them.
pub open spec fn replacements(sites: Seq<Edit>, drawn: Seq<u64>) -> Seq<Edit> {
    Seq::new(sites.len(), |i: int| filled(sites[i], constant(drawn[i])))
}

/// Replace the names at the sites by the constants of the hash values drawn
/// for them.
pub fn replace_drawn(sites: &Vec<Mutation>, drawn: &Vec<u64>) -> (r: Vec<Mutation>)
    requires
        sites@.len() == drawn@.len(),
    ensures
        edits(r@) == replacements(edits(sites@), drawn@),
{
    let mut out: Vec<Mutation> = Vec::new();
    let ghost all = replacements(edits(sites@), drawn@);
    let mut i: usize = 0;
    assert(edits(out@) =~= all.take(0));
    while i < sites.len()
        invariant
            i <= sites@.len() == drawn@.len(),
            all == replacements(edits(sites@), drawn@),
            edits(out@) == all.take(i as int),
        decreases sites.len() - i,
    {
        let site: &Mutation = &sites[i];
        assert(edits(sites@)[i as int] == site@);
        let new: Mutation = Mutation {
            byte_offset: site.byte_offset,
            byte_length: site.byte_length,
            original_text: site.original_text.clone(),
            replacement_text: replacement_constant(drawn[i]),
        };
        assert(new@ == all[i as int]);
        let ghost before = edits(out@);
        out.push(new);
        assert(edits(out@) =~= before.push(new@));
        assert(all.take(i + 1) =~= all.take(i as int).push(all[i as int]));
        i = i + 1;
    }
    assert(all.take(i as int) =~= all);
    out
}

/// Whether a value was drawn for each site by hashing, under the seed, the
/// file, the offset of the site and the name of this operator.
pub open spec fn is_drawn(
    sites: Seq<Edit>,
    seed: u64,
    file_path: Seq<char>,
    drawn: Seq<u64>,
) -> bool {
    &&& drawn.len() == sites.len()
    &&& forall|i: int|
        0 <= i < drawn.len() ==> derivable(
            seed,
            file_path,
            sites[i].offset,
            "variable_replace"@,
        ).contains(#[trigger] drawn[i])
}

/// Whether the edits replace each site by the constant of a value drawn for
/// it.
pub open spec fn replaced(
    sites: Seq<Edit>,
    seed: u64,
    file_path: Seq<char>,
    found: Seq<Edit>,
) -> bool {
    exists|drawn: Seq<u64>|
        is_drawn(sites, seed, file_path, drawn) && found == #[trigger] replacements(sites, drawn)
}

/// Draws a hash value for each site, for the seed, the file and the offset of
/// the site.
pub fn draw_values(sites: &Vec<Mutation>, seed: u64, file_path: &str) -> (r: Vec<u64>)
    ensures
        is_drawn(edits(sites@), seed, file_path@, r@),
{
    let mut drawn: Vec<u64> = Vec::new();
    let mut i: usize = 0;
    while i < sites.len()
        invariant
            i <= sites@.len(),
            drawn@.len() == i,
            forall|j: int|
                0 <= j < i ==> derivable(
                    seed,
                    file_path@,
                    edits(sites@)[j].offset,
                    "variable_replace"@,
                ).contains(#[trigger] drawn@[j]),
        decreases sites.len() - i,
    {
        let value: u64 = derive_value(
            seed,
            file_path,
            sites[i].byte_offset,
            "variable_replace",
        );
        drawn.push(value);
        i = i + 1;
    }
    drawn
}

/// The same seed gives the same replacements in the same file: where hashing
/// gives one value for what it is handed, two lists of edits for the same
/// sites are equal.
pub proof fn law_seed_decides_the_replacements(
    sites: Seq<Edit>,
    seed: u64,
    file_path: Seq<char>,
    a: Seq<Edit>,
    b: Seq<Edit>,
)
    requires
        replaced(sites, seed, file_path, a),
        replaced(sites, seed, file_path, b),
    ensures
        is_decided() ==> a == b,
{
    if is_decided() {
        let first = choose|drawn: Seq<u64>|
            is_drawn(sites, seed, file_path, drawn) && a == #[trigger] replacements(sites, drawn);
        let second = choose|drawn: Seq<u64>|
            is_drawn(sites, seed, file_path, drawn) && b == #[trigger] replacements(sites, drawn);
        assert(first =~= second);
    }
}

impl Mutator for VariableReplace {
    open spec fn label(&self) -> Seq<char> {
        "variable_replace"@
    }

    open spec fn finds(
        &self,
        source: Seq<char>,
        ast: Module,
        ctx: MutationContext<'_>,
        found: Seq<Edit>,
    ) -> bool {
        match ctx.seed {
            Some(seed) => replaced(name_sites(source, ast), seed, ctx.file_path@, found),
            None => found.len() == 0,
        }
    }

    fn name(&self) -> (r: &str) {
        "variable_replace"
    }

    fn find_mutations(&self, source: &str, ast: &Module, ctx: &MutationContext<'_>) -> (r: Vec<
        Mutation,
    >) {
        let seed: u64 = match ctx.seed {
            Some(seed) => seed,
            None => return Vec::new(),
        };
        let sites: Vec<Mutation> = find_name_sites(source, ast);
        let drawn: Vec<u64> = draw_values(&sites, seed, ctx.file_path);
        let out: Vec<Mutation> = replace_drawn(&sites, &drawn);
        proof {
            let places = name_sites(source@, *ast);
            assert(edits(out@) == replacements(places, drawn@));
            assert forall|j: int| 0 <= j < out.len() implies faithful(
                source@,
                #[trigger] edits(out@)[j],
            ) by {
                assert(faithful(source@, places[j]));
            }
        }
        out
    }
}

/// With a seed every use of a name is replaced, in place, by a number from -100
/// to 100 that follows from a value drawn for it; without one nothing is.
pub proof fn law_names_are_replaced_by_numbers(
    source: Seq<char>,
    ast: Module,
    ctx: MutationContext<'_>,
    found: Seq<Edit>,
)
    requires
        VariableReplace.finds(source, ast, ctx, found),
    ensures
        ctx.seed is None ==> found == Seq::<Edit>::empty(),
        ctx.seed matches Some(seed) ==> {
            let sites = name_sites(source, ast);
            &&& found.len() == sites.len()
            &&& forall|i: int|
                0 <= i < found.len() ==> {
                    &&& (#[trigger] found[i]).offset == sites[i].offset
                    &&& found[i].length == sites[i].length
                    &&& found[i].original == sites[i].original
                    &&& exists|drawn: u64|
                        {
                            &&& #[trigger] derivable(
                                seed,
                                ctx.file_path@,
                                found[i].offset,
                                "variable_replace"@,
                            ).contains(drawn)
                            &&& found[i].replacement == decimal::decimal(drawn as int % 201 - 100)
                        }
                }
        },
{
    match ctx.seed {
        Some(seed) => {
            let sites = name_sites(source, ast);
            let drawn = choose|drawn: Seq<u64>|
                is_drawn(sites, seed, ctx.file_path@, drawn) && found == #[trigger] replacements(
                    sites,
                    drawn,
                );
            assert forall|i: int| 0 <= i < found.len() implies {
                &&& (#[trigger] found[i]).offset == sites[i].offset
                &&& found[i].length == sites[i].length
                &&& found[i].original == sites[i].original
                &&& exists|drawn: u64|
                    {
                        &&& #[trigger] derivable(
                            seed,
                            ctx.file_path@,
                            found[i].offset,
                            "variable_replace"@,
                        ).contains(drawn)
                        &&& found[i].replacement == decimal::decimal(drawn as int % 201 - 100)
                    }
            } by {
                assert(derivable(
                    seed,
                    ctx.file_path@,
                    sites[i].offset,
                    "variable_replace"@,
                ).contains(drawn[i]));
            }
        },
        None => {
            assert(found =~= Seq::<Edit>::empty());
        },
    }
}

} // verus!
