//! Data types for representing mutants and their execution results.
//!
//! A [`Mutant`] describes a single source-level mutation (what was changed,
//! where, and by which mutator). After running the test suite against a
//! mutant the outcome is captured in a [`MutantResult`].
use crate::duration::Duration;
use crate::text;
use vstd::prelude::*;

verus! {

/// A single source-level mutation.
///
/// Contains all the information needed to locate the mutation in the
/// original source file and to apply the text replacement.
#[derive(Debug, PartialEq, Eq)]
pub struct Mutant {
    /// Path to the Python source file that was mutated.
    pub file_path: String,
    /// 1-based line number where the mutation starts.
    pub line: u32,
    /// 1-based column number where the mutation starts.
    pub column: u32,
    /// Byte offset into the source text where the replaced region begins.
    pub byte_offset: usize,
    /// Length in bytes of the replaced region.
    pub byte_length: usize,
    /// The original source text that was replaced.
    pub original_text: String,
    /// The replacement text that constitutes the mutation.
    pub mutated_text: String,
    /// Name of the mutator that produced this mutation.
    pub mutator_name: String,
}

impl Clone for Mutant {
    fn clone(&self) -> (r: Self)
        ensures
            r == *self,
    {
        Mutant {
            file_path: self.file_path.clone(),
            line: self.line,
            column: self.column,
            byte_offset: self.byte_offset,
            byte_length: self.byte_length,
            original_text: self.original_text.clone(),
            mutated_text: self.mutated_text.clone(),
            mutator_name: self.mutator_name.clone(),
        }
    }
}

/// A mutant as a mathematical value.
#[verifier::ext_equal]
pub struct MutantView {
    pub file_path: Seq<char>,
    pub line: u32,
    pub column: u32,
    pub offset: int,
    pub length: int,
    pub original: Seq<char>,
    pub mutated: Seq<char>,
    pub mutator: Seq<char>,
}

impl View for Mutant {
    type V = MutantView;

    open spec fn view(&self) -> MutantView {
        MutantView {
            file_path: self.file_path@,
            line: self.line,
            column: self.column,
            offset: self.byte_offset as int,
            length: self.byte_length as int,
            original: self.original_text@,
            mutated: self.mutated_text@,
            mutator: self.mutator_name@,
        }
    }
}

/// `source` with the byte range of `length` bytes at `offset` replaced.
pub open spec fn spliced(source: Seq<char>, offset: int, length: int, new: Seq<char>) -> Seq<char> {
    text::span(source, 0, offset) + new + text::span(
        source,
        offset + length,
        text::bytes(source).len() as int,
    )
}

impl Mutant {
    /// Whether the replaced region cuts whole characters out of `source`.
    pub open spec fn fits(self, source: Seq<char>) -> bool {
        text::is_span(source, self.byte_offset as int, self.byte_offset + self.byte_length)
    }

    /// Apply this mutation to the given source text, returning the mutated source.
    ///
    /// Splices `mutated_text` into the source at the byte range
    /// `byte_offset .. byte_offset + byte_length`, preserving everything
    /// before and after the replaced region.
    pub fn apply_to_source(&self, source: &str) -> (r: String)
        requires
            self.fits(source@),
        ensures
            r@ == spliced(
                source@,
                self.byte_offset as int,
                self.byte_length as int,
                self.mutated_text@,
            ),
    {
        let total: usize = source.as_bytes().len();
        let end: usize = self.byte_offset + self.byte_length;
        proof {
            text::lemma_split_at_span(source@, self.byte_offset as int, end as int);
        }
        let mut result: String = String::new();
        if let Some(before) = text::slice(source, 0, self.byte_offset) {
            result.append(before);
        }
        result.append(self.mutated_text.as_str());
        if let Some(after) = text::slice(source, end, total) {
            result.append(after);
        }
        assert(result@ =~= spliced(
            source@,
            self.byte_offset as int,
            self.byte_length as int,
            self.mutated_text@,
        ));
        result
    }
}

/// The mutated text stands in the mutated source where the original text
/// stood, and the rest of the source is unchanged.
pub proof fn law_splice_replaces_only_the_region(
    source: Seq<char>,
    offset: int,
    length: int,
    new: Seq<char>,
)
    requires
        text::is_span(source, offset, offset + length),
    ensures
        ({
            let mutated = spliced(source, offset, length, new);
            let end = offset + text::bytes(new).len();
            &&& text::is_span(mutated, offset, end)
            &&& text::span(mutated, offset, end) == new
            &&& text::span(mutated, 0, offset) == text::span(source, 0, offset)
            &&& text::span(mutated, end, text::bytes(mutated).len() as int) == text::span(
                source,
                offset + length,
                text::bytes(source).len() as int,
            )
            &&& text::bytes(mutated).len() == text::bytes(source).len() - length
                + text::bytes(new).len()
        }),
{
    let n = text::bytes(source).len() as int;
    text::lemma_split_at_span(source, offset, offset + length);
    text::lemma_span_bytes(source, 0, offset);
    text::lemma_span_bytes(source, offset + length, n);
    let before = text::span(source, 0, offset);
    let after = text::span(source, offset + length, n);
    text::lemma_middle_is_span(before, new, after);
    text::lemma_bytes_concat(before, new);
    text::lemma_bytes_concat(before + new, after);
}

/// Putting the original text back undoes a mutation.
pub proof fn law_splice_is_undone(source: Seq<char>, offset: int, length: int, new: Seq<char>)
    requires
        text::is_span(source, offset, offset + length),
    ensures
        spliced(
            spliced(source, offset, length, new),
            offset,
            text::bytes(new).len() as int,
            text::span(source, offset, offset + length),
        ) == source,
{
    law_splice_replaces_only_the_region(source, offset, length, new);
    text::lemma_split_at_span(source, offset, offset + length);
}

/// Replacing a region by the text that stands there changes nothing.
pub proof fn law_splice_of_original_is_identity(source: Seq<char>, offset: int, length: int)
    requires
        text::is_span(source, offset, offset + length),
    ensures
        spliced(source, offset, length, text::span(source, offset, offset + length)) == source,
{
    text::lemma_split_at_span(source, offset, offset + length);
}

/// Why a mutant could not be represented or delivered to the test runner.
#[derive(Debug, Clone, Copy, PartialEq, Eq, Structural)]
pub enum SkipReason {
    /// The target of an assignment is not a plain name.
    UnmappableTarget,
    /// The mutation is in the condition of a control-flow statement.
    ConditionMutation,
    /// The mutated statement is of a kind that cannot be bound on its own.
    UnsupportedStatement,
    /// The class that holds the mutated statement is not known at run time.
    MissingClassScope,
}

/// Outcome of running the test suite against a single mutant.
#[derive(Debug, PartialEq, Eq)]
pub enum MutantStatus {
    /// The test suite detected the mutant (at least one test failed).
    Killed,
    /// The test suite passed despite the mutation.
    Survived,
    /// The test suite exceeded the configured timeout.
    Timeout,
    /// No tests cover the mutated code, so the mutant was not exercised.
    NoCoverage,
    /// An unexpected error occurred while testing this mutant.
    Error(String),
    /// The mutant could not be represented or delivered.
    Skipped {
        /// Why it was skipped.
        reason: SkipReason,
    },
}

impl Clone for MutantStatus {
    fn clone(&self) -> (r: Self)
        ensures
            r == *self,
    {
        match self {
            MutantStatus::Killed => MutantStatus::Killed,
            MutantStatus::Survived => MutantStatus::Survived,
            MutantStatus::Timeout => MutantStatus::Timeout,
            MutantStatus::NoCoverage => MutantStatus::NoCoverage,
            MutantStatus::Error(message) => MutantStatus::Error(message.clone()),
            MutantStatus::Skipped { reason } => MutantStatus::Skipped { reason: *reason },
        }
    }
}

/// Full result of testing a single mutant.
///
/// Combines the [`Mutant`] descriptor with the [`MutantStatus`] outcome,
/// the list of tests that were executed, and the wall-clock duration.
#[derive(Debug, Clone)]
pub struct MutantResult {
    /// The mutant that was tested.
    pub mutant: Mutant,
    /// Outcome of the test run.
    pub status: MutantStatus,
    /// Names of the tests that were executed against this mutant.
    pub tests_run: Vec<String>,
    /// Wall-clock duration of the test run.
    pub duration: Duration,
}

} // verus!
