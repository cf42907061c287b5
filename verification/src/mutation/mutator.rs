//! Mutator trait for mutation operators.
//!
//! A [`Mutator`] inspects Python source code, both raw text and syntax tree,
//! and produces a set of [`Mutation`] descriptors.
use crate::ast::Module;
use crate::text;
use vstd::prelude::*;

verus! {

/// A single text-level mutation produced by a [`Mutator`].
///
/// Describes a byte-range replacement in the source text: the region
/// starting at `byte_offset` with length `byte_length` is replaced by
/// `replacement_text`.
#[derive(Debug, Clone, PartialEq, Eq)]
pub struct Mutation {
    /// Byte offset into the source text where the replaced region begins.
    pub byte_offset: usize,
    /// Length in bytes of the replaced region.
    pub byte_length: usize,
    /// The original source text that will be replaced.
    pub original_text: String,
    /// The replacement text that constitutes the mutation.
    pub replacement_text: String,
}

/// A mutation as a mathematical value.
#[verifier::ext_equal]
pub struct Edit {
    pub offset: int,
    pub length: int,
    pub original: Seq<char>,
    pub replacement: Seq<char>,
}

impl View for Mutation {
    type V = Edit;

    open spec fn view(&self) -> Edit {
        Edit {
            offset: self.byte_offset as int,
            length: self.byte_length as int,
            original: self.original_text@,
            replacement: self.replacement_text@,
        }
    }
}

/// Whether an edit names the text that stands in `source` where it replaces.
pub open spec fn faithful(source: Seq<char>, edit: Edit) -> bool {
    &&& text::is_span(source, edit.offset, edit.offset + edit.length)
    &&& text::span(source, edit.offset, edit.offset + edit.length) == edit.original
}

/// Whether every edit of a list is faithful to `source`.
pub open spec fn all_faithful(source: Seq<char>, list: Seq<Edit>) -> bool {
    forall|i: int| 0 <= i < list.len() ==> faithful(source, #[trigger] list[i])
}

/// The mutations of a list, as mathematical values.
pub open spec fn edits(found: Seq<Mutation>) -> Seq<Edit> {
    Seq::new(found.len(), |i: int| found[i]@)
}

/// Appending a mutation appends its value.
pub broadcast proof fn lemma_edits_push(found: Seq<Mutation>, last: Mutation)
    ensures
        #[trigger] edits(found.push(last)) == edits(found).push(last@),
{
    assert(edits(found.push(last)) =~= edits(found).push(last@));
}

/// The text to write in place of one float literal.
#[derive(Debug, Clone)]
pub struct FloatText {
    /// Double-precision encoding of the literal's value.
    pub bits: u64,
    /// Decimal text of the value plus one.
    pub text: String,
}

/// The text that a table gives for a float, from its first entry for it.
pub open spec fn float_text(table: Seq<FloatText>, bits: u64) -> Option<Seq<char>>
    decreases table.len(),
{
    if table.len() == 0 {
        None
    } else if table[0].bits == bits {
        Some(table[0].text@)
    } else {
        float_text(table.drop_first(), bits)
    }
}

/// Context passed to every mutator during a mutation-generation run.
///
/// Carries per-file and per-run information that operators may use to
/// produce deterministic, seed-dependent mutations.
#[derive(Debug, Clone)]
pub struct MutationContext<'ctx> {
    /// Path of the file being mutated.
    pub file_path: &'ctx str,
    /// Global seed for deterministic randomised operators.
    pub seed: Option<u64>,
    /// Replacement texts for the float literals of the file.
    pub floats: &'ctx [FloatText],
}

/// A mutation operator that can inspect Python source code and produce
/// candidate mutations.
///
/// Implementors walk the syntax tree (or the raw source text) looking for
/// patterns they know how to mutate, and return the proposed text
/// replacements.
pub trait Mutator: Send + Sync {
    /// The characters of the name.
    spec fn label(&self) -> Seq<char>;

    /// Which lists of edits the operator may propose for a module.
    spec fn finds(
        &self,
        source: Seq<char>,
        ast: Module,
        ctx: MutationContext<'_>,
        found: Seq<Edit>,
    ) -> bool;

    /// Human-readable name of this mutator (e.g. `"arithmetic_op"`).
    fn name(&self) -> (r: &str)
        ensures
            r@ == self.label(),
    ;

    /// Scan the given Python source and its syntax tree, returning all
    /// mutations this operator can produce. Each names the text that it
    /// replaces.
    fn find_mutations(&self, source: &str, ast: &Module, ctx: &MutationContext<'_>) -> (r: Vec<
        Mutation,
    >)
        ensures
            self.finds(source@, *ast, *ctx, edits(r@)),
            all_faithful(source@, edits(r@)),
    ;
}

/// The text of a number is that of the first entry with its bits, and there is
/// none without such an entry.
pub proof fn law_the_first_entry_has_the_text(table: Seq<FloatText>, bits: u64, i: int)
    ensures
        float_text(table, bits) is None <==> forall|j: int|
            0 <= j < table.len() ==> (#[trigger] table[j]).bits != bits,
        0 <= i < table.len() && table[i].bits == bits && (forall|j: int|
            0 <= j < i ==> (#[trigger] table[j]).bits != bits) ==> float_text(table, bits) == Some(
            table[i].text@,
        ),
    decreases table.len(),
{
    if table.len() > 0 {
        let rest = table.drop_first();
        law_the_first_entry_has_the_text(rest, bits, i - 1);
        if float_text(table, bits) is None {
            assert forall|j: int| 0 <= j < table.len() implies (#[trigger] table[j]).bits != bits by {
                if j > 0 {
                    assert(rest[j - 1] == table[j]);
                }
            }
        }
        if forall|j: int| 0 <= j < table.len() ==> (#[trigger] table[j]).bits != bits {
            assert(table[0].bits != bits);
            assert forall|j: int| 0 <= j < rest.len() implies (#[trigger] rest[j]).bits != bits by {
                assert(rest[j] == table[j + 1]);
            }
        }
        if 0 < i < table.len() && (forall|j: int|
            0 <= j < i ==> (#[trigger] table[j]).bits != bits) {
            assert(rest[i - 1] == table[i]);
            assert(table[0].bits != bits);
            assert forall|j: int| 0 <= j < i - 1 implies (#[trigger] rest[j]).bits != bits by {
                assert(rest[j] == table[j + 1]);
            }
        }
    }
}

} // verus!
