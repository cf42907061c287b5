//! Core types for mutation-testing reports.
//!
//! [`MutationReport`] aggregates the results of a full mutation-testing run
//! and provides methods for computing the mutation score and checking it
//! against a threshold.
use crate::double;
use crate::double::Double;
use crate::duration::Duration;
use crate::mutation::mutant::{MutantResult, MutantStatus, SkipReason};
use crate::text;
use vstd::prelude::*;

verus! {

/// Per-reason breakdown of skipped mutants.
#[derive(Debug, Clone, Copy, PartialEq, Eq, Structural)]
pub struct SkipCounts {
    /// Skipped for [`SkipReason::UnmappableTarget`].
    pub unmappable_target: usize,
    /// Skipped for [`SkipReason::ConditionMutation`].
    pub condition_mutation: usize,
    /// Skipped for [`SkipReason::UnsupportedStatement`].
    pub unsupported_statement: usize,
    /// Skipped for [`SkipReason::MissingClassScope`].
    pub missing_class_scope: usize,
}

impl SkipCounts {
    /// How many mutants were skipped for a reason.
    pub open spec fn count(self, reason: SkipReason) -> usize {
        match reason {
            SkipReason::UnmappableTarget => self.unmappable_target,
            SkipReason::ConditionMutation => self.condition_mutation,
            SkipReason::UnsupportedStatement => self.unsupported_statement,
            SkipReason::MissingClassScope => self.missing_class_scope,
        }
    }

    /// The count for the reason with the given `snake_case` name. There is
    /// none for a reason that did not occur.
    pub fn get(&self, key: &str) -> (r: Option<&usize>)
        ensures
            r matches Some(n) ==> *n > 0 && exists|reason: SkipReason|
                #[trigger] reason_name(reason) == key@ && self.count(reason) == *n,
            r is None ==> forall|reason: SkipReason| #[trigger]
                reason_name(reason) == key@ ==> self.count(reason) == 0,
    {
        proof {
            lemma_names_differ();
        }
        let found: &usize = if text::same(key, "unmappable_target") {
            assert(reason_name(SkipReason::UnmappableTarget) == key@);
            &self.unmappable_target
        } else if text::same(key, "condition_mutation") {
            assert(reason_name(SkipReason::ConditionMutation) == key@);
            &self.condition_mutation
        } else if text::same(key, "unsupported_statement") {
            assert(reason_name(SkipReason::UnsupportedStatement) == key@);
            &self.unsupported_statement
        } else if text::same(key, "missing_class_scope") {
            assert(reason_name(SkipReason::MissingClassScope) == key@);
            &self.missing_class_scope
        } else {
            return None;
        };
        if *found > 0 {
            Some(found)
        } else {
            None
        }
    }

    /// Whether no mutant was skipped.
    pub fn is_empty(&self) -> (r: bool)
        ensures
            r == (forall|reason: SkipReason| #[trigger] self.count(reason) == 0),
    {
        let r: bool = self.unmappable_target == 0 && self.condition_mutation == 0
            && self.unsupported_statement == 0 && self.missing_class_scope == 0;
        assert(self.count(SkipReason::UnmappableTarget) == self.unmappable_target);
        assert(self.count(SkipReason::ConditionMutation) == self.condition_mutation);
        assert(self.count(SkipReason::UnsupportedStatement) == self.unsupported_statement);
        assert(self.count(SkipReason::MissingClassScope) == self.missing_class_scope);
        r
    }
}

/// The `snake_case` name of a reason.
pub open spec fn reason_name(reason: SkipReason) -> Seq<char> {
    match reason {
        SkipReason::UnmappableTarget => "unmappable_target"@,
        SkipReason::ConditionMutation => "condition_mutation"@,
        SkipReason::UnsupportedStatement => "unsupported_statement"@,
        SkipReason::MissingClassScope => "missing_class_scope"@,
    }
}

/// Different reasons have different names.
pub proof fn lemma_names_differ()
    ensures
        forall|a: SkipReason, b: SkipReason|
            #[trigger] reason_name(a) == #[trigger] reason_name(b) ==> a == b,
{
    reveal_strlit("unmappable_target");
    reveal_strlit("condition_mutation");
    reveal_strlit("unsupported_statement");
    reveal_strlit("missing_class_scope");
    assert forall|a: SkipReason, b: SkipReason|
        #[trigger] reason_name(a) == #[trigger] reason_name(b) implies a == b by {
        assert(reason_name(a)[0] == reason_name(b)[0]);
        assert(reason_name(a)[2] == reason_name(b)[2]);
    }
}

/// Map a [`SkipReason`] variant to its `snake_case` name.
pub fn reason_to_snake_case(reason: &SkipReason) -> (r: &'static str)
    ensures
        r@ == reason_name(*reason),
{
    match reason {
        SkipReason::UnmappableTarget => "unmappable_target",
        SkipReason::ConditionMutation => "condition_mutation",
        SkipReason::UnsupportedStatement => "unsupported_statement",
        SkipReason::MissingClassScope => "missing_class_scope",
    }
}

/// The kind of outcome that a status is.
pub enum Outcome {
    Killed,
    Survived,
    Timeout,
    NoCoverage,
    Error,
    Skipped,
}

/// The kind of outcome that a status is.
pub open spec fn outcome_of(status: MutantStatus) -> Outcome {
    match status {
        MutantStatus::Killed => Outcome::Killed,
        MutantStatus::Survived => Outcome::Survived,
        MutantStatus::Timeout => Outcome::Timeout,
        MutantStatus::NoCoverage => Outcome::NoCoverage,
        MutantStatus::Error(_) => Outcome::Error,
        MutantStatus::Skipped { .. } => Outcome::Skipped,
    }
}

/// How many results are of a kind.
pub open spec fn tally(results: Seq<MutantResult>, kind: Outcome) -> nat
    decreases results.len(),
{
    if results.len() == 0 {
        0
    } else {
        tally(results.drop_last(), kind) + if outcome_of(results.last().status) == kind {
            1nat
        } else {
            0nat
        }
    }
}

/// How many results are skipped for a reason.
pub open spec fn skip_tally(results: Seq<MutantResult>, reason: SkipReason) -> nat
    decreases results.len(),
{
    if results.len() == 0 {
        0
    } else {
        skip_tally(results.drop_last(), reason) + if results.last().status == (
        MutantStatus::Skipped { reason }) {
            1nat
        } else {
            0nat
        }
    }
}

/// Every result is of one kind: the tallies add up to the number of results.
pub proof fn law_tallies_add_up(results: Seq<MutantResult>)
    ensures
        tally(results, Outcome::Killed) + tally(results, Outcome::Survived) + tally(
            results,
            Outcome::Timeout,
        ) + tally(results, Outcome::NoCoverage) + tally(results, Outcome::Error) + tally(
            results,
            Outcome::Skipped,
        ) == results.len(),
    decreases results.len(),
{
    if results.len() > 0 {
        law_tallies_add_up(results.drop_last());
    }
}

/// Every skipped result has one reason: the tallies of the reasons add up to
/// the number of skipped results.
pub proof fn law_skip_reasons_add_up(results: Seq<MutantResult>)
    ensures
        skip_tally(results, SkipReason::UnmappableTarget) + skip_tally(
            results,
            SkipReason::ConditionMutation,
        ) + skip_tally(results, SkipReason::UnsupportedStatement) + skip_tally(
            results,
            SkipReason::MissingClassScope,
        ) == tally(results, Outcome::Skipped),
    decreases results.len(),
{
    if results.len() > 0 {
        law_skip_reasons_add_up(results.drop_last());
    }
}

/// Aggregated results of a complete mutation-testing run.
///
/// Constructed via [`from_results`](Self::from_results), which derives the
/// various counters from the raw [`MutantResult`] list.
#[derive(Debug, Clone)]
pub struct MutationReport {
    /// Number of Python source files that were scanned for mutations.
    pub files_scanned: usize,
    /// Total number of mutants generated across all files.
    pub mutants_generated: usize,
    /// Number of mutants that were actually tested (excludes no-coverage).
    pub mutants_tested: usize,
    /// Number of mutants skipped because no tests cover them.
    pub no_coverage: usize,
    /// Number of mutants detected (killed) by the test suite.
    pub killed: usize,
    /// Number of mutants that survived (tests still passed).
    pub survived: usize,
    /// Number of mutants whose test run exceeded the timeout.
    pub timeouts: usize,
    /// Number of mutants whose test run encountered an error.
    pub errors: usize,
    /// Number of mutants that could not be represented or delivered.
    pub skipped: usize,
    /// Per-reason breakdown of skipped mutants.
    pub skip_reasons: SkipCounts,
    /// Individual results for every mutant tested.
    pub results: Vec<MutantResult>,
    /// Total wall-clock duration of the mutation-testing run.
    pub duration: Duration,
    /// Optional seed used for deterministic mutant generation.
    pub seed: Option<u64>,
}

impl MutationReport {
    /// Whether the number of scored mutants is small enough to be counted.
    pub open spec fn is_countable(self) -> bool {
        self.killed + self.survived <= usize::MAX
    }

    /// Whether the counters are those of the results.
    pub open spec fn is_consistent(self) -> bool {
        let results = self.results@;
        &&& self.killed == tally(results, Outcome::Killed)
        &&& self.survived == tally(results, Outcome::Survived)
        &&& self.timeouts == tally(results, Outcome::Timeout)
        &&& self.no_coverage == tally(results, Outcome::NoCoverage)
        &&& self.errors == tally(results, Outcome::Error)
        &&& self.skipped == tally(results, Outcome::Skipped)
        &&& forall|reason: SkipReason| #[trigger]
            self.skip_reasons.count(reason) == skip_tally(results, reason)
        &&& self.mutants_tested == self.killed + self.survived + self.timeouts + self.errors
    }

    /// The mutation score as a percentage: `killed / (killed + survived) * 100`.
    pub open spec fn score(self) -> Double {
        Double {
            bits: double::percent_bits(self.killed as nat, (self.killed + self.survived) as nat)
                as u64,
        }
    }

    /// Build a report from raw results and run metadata.
    ///
    /// Iterates through `results` to count killed, survived, timeout,
    /// no-coverage, error and skipped outcomes.
    pub fn from_results(
        results: Vec<MutantResult>,
        files_scanned: usize,
        mutants_generated: usize,
        duration: Duration,
        seed: Option<u64>,
    ) -> (r: MutationReport)
        ensures
            r.is_consistent(),
            r.is_countable(),
            r.results == results,
            r.files_scanned == files_scanned,
            r.mutants_generated == mutants_generated,
            r.duration == duration,
            r.seed == seed,
    {
        let mut killed: usize = 0;
        let mut survived: usize = 0;
        let mut timeouts: usize = 0;
        let mut no_coverage: usize = 0;
        let mut errors: usize = 0;
        let mut skipped: usize = 0;
        let mut reasons: SkipCounts = SkipCounts {
            unmappable_target: 0,
            condition_mutation: 0,
            unsupported_statement: 0,
            missing_class_scope: 0,
        };
        let mut i: usize = 0;
        while i < results.len()
            invariant
                i <= results@.len(),
                killed == tally(results@.take(i as int), Outcome::Killed),
                survived == tally(results@.take(i as int), Outcome::Survived),
                timeouts == tally(results@.take(i as int), Outcome::Timeout),
                no_coverage == tally(results@.take(i as int), Outcome::NoCoverage),
                errors == tally(results@.take(i as int), Outcome::Error),
                skipped == tally(results@.take(i as int), Outcome::Skipped),
                forall|reason: SkipReason| #[trigger]
                    reasons.count(reason) == skip_tally(results@.take(i as int), reason),
            decreases results.len() - i,
        {
            proof {
                assert(results@.take(i + 1).drop_last() =~= results@.take(i as int));
                assert(results@.take(i + 1).last() == results@[i as int]);
                law_tallies_add_up(results@.take(i as int));
                law_skip_reasons_add_up(results@.take(i as int));
                assert(reasons.count(SkipReason::UnmappableTarget) <= i);
                assert(reasons.count(SkipReason::ConditionMutation) <= i);
                assert(reasons.count(SkipReason::UnsupportedStatement) <= i);
                assert(reasons.count(SkipReason::MissingClassScope) <= i);
            }
            let ghost before = reasons;
            match &results[i].status {
                MutantStatus::Killed => killed = killed + 1,
                MutantStatus::Survived => survived = survived + 1,
                MutantStatus::Timeout => timeouts = timeouts + 1,
                MutantStatus::NoCoverage => no_coverage = no_coverage + 1,
                MutantStatus::Error(_) => errors = errors + 1,
                MutantStatus::Skipped { reason } => {
                    skipped = skipped + 1;
                    match reason {
                        SkipReason::UnmappableTarget => {
                            reasons.unmappable_target = reasons.unmappable_target + 1;
                        },
                        SkipReason::ConditionMutation => {
                            reasons.condition_mutation = reasons.condition_mutation + 1;
                        },
                        SkipReason::UnsupportedStatement => {
                            reasons.unsupported_statement = reasons.unsupported_statement + 1;
                        },
                        SkipReason::MissingClassScope => {
                            reasons.missing_class_scope = reasons.missing_class_scope + 1;
                        },
                    }
                },
            }
            assert forall|reason: SkipReason| #[trigger]
                reasons.count(reason) == skip_tally(results@.take(i + 1), reason) by {
                assert(before.count(reason) == skip_tally(results@.take(i as int), reason));
            }
            i = i + 1;
        }
        assert(results@.take(i as int) =~= results@);
        proof {
            law_tallies_add_up(results@);
        }
        let mutants_tested: usize = killed + survived + timeouts + errors;
        MutationReport {
            files_scanned,
            mutants_generated,
            mutants_tested,
            no_coverage,
            killed,
            survived,
            timeouts,
            errors,
            skipped,
            skip_reasons: reasons,
            results,
            duration,
            seed,
        }
    }

    /// Compute the mutation score as a percentage.
    ///
    /// The score is `killed / (killed + survived) * 100`. Skipped, timeout,
    /// no-coverage, and error mutants are excluded from the denominator.
    /// Returns zero when no mutants were scored (killed or survived). The score
    /// is never above a hundred.
    pub fn mutation_score(&self) -> (r: Double)
        requires
            self.is_countable(),
        ensures
            r == self.score(),
            r.bits == double::percent_bits(self.killed as nat, (self.killed + self.survived) as nat),
            r.is_small(),
            r.bits <= double::HUNDRED_BITS,
    {
        double::percent(self.killed, self.killed + self.survived)
    }

    /// Check whether the mutation score meets or exceeds the given threshold.
    ///
    /// A threshold of zero always passes.
    pub fn passes_threshold(&self, threshold: Double) -> (r: bool)
        requires
            self.is_countable(),
        ensures
            r == self.score().reaches(threshold),
            threshold.bits == 0 ==> r,
    {
        self.mutation_score().at_least(threshold)
    }
}

/// When every scored mutant was killed, the score is a hundred percent.
pub proof fn law_all_killed_scores_a_hundred(report: MutationReport)
    requires
        report.killed > 0,
        report.survived == 0,
    ensures
        report.score().bits == double::HUNDRED_BITS,
{
    double::law_the_whole_is_a_hundred_percent(report.killed as nat);
}

/// When no mutant was killed, the score is zero, also where none was scored.
pub proof fn law_none_killed_scores_zero(report: MutationReport)
    requires
        report.killed == 0,
    ensures
        report.score().bits == 0,
{
}

/// Only killed and survived mutants count for the score: reports that agree
/// in these have the same score, whatever was skipped, timed out, failed or
/// was not covered.
pub proof fn law_score_ignores_other_outcomes(a: MutationReport, b: MutationReport)
    requires
        a.killed == b.killed,
        a.survived == b.survived,
    ensures
        a.score() == b.score(),
{
}

/// An outcome is counted once for each result that has it.
pub proof fn law_outcomes_are_counted(results: Seq<MutantResult>, reason: SkipReason)
    ensures
        tally(results, Outcome::Killed) == results.filter(
            |r: MutantResult| r.status is Killed,
        ).len(),
        tally(results, Outcome::Survived) == results.filter(
            |r: MutantResult| r.status is Survived,
        ).len(),
        tally(results, Outcome::Timeout) == results.filter(
            |r: MutantResult| r.status is Timeout,
        ).len(),
        tally(results, Outcome::NoCoverage) == results.filter(
            |r: MutantResult| r.status is NoCoverage,
        ).len(),
        tally(results, Outcome::Error) == results.filter(
            |r: MutantResult| r.status is Error,
        ).len(),
        tally(results, Outcome::Skipped) == results.filter(
            |r: MutantResult| r.status is Skipped,
        ).len(),
        skip_tally(results, reason) == results.filter(
            |r: MutantResult| r.status is Skipped && r.status->reason == reason,
        ).len(),
    decreases results.len(),
{
    reveal(Seq::filter);
    if results.len() > 0 {
        law_outcomes_are_counted(results.drop_last(), reason);
    }
}

/// Each reason has its name.
pub proof fn law_reasons_have_their_name(reason: SkipReason)
    ensures
        reason is UnmappableTarget <==> reason_name(reason) == "unmappable_target"@,
        reason is ConditionMutation <==> reason_name(reason) == "condition_mutation"@,
        reason is UnsupportedStatement <==> reason_name(reason) == "unsupported_statement"@,
        reason is MissingClassScope <==> reason_name(reason) == "missing_class_scope"@,
{
    lemma_names_differ();
    assert(reason_name(SkipReason::UnmappableTarget) == "unmappable_target"@);
    assert(reason_name(SkipReason::ConditionMutation) == "condition_mutation"@);
    assert(reason_name(SkipReason::UnsupportedStatement) == "unsupported_statement"@);
    assert(reason_name(SkipReason::MissingClassScope) == "missing_class_scope"@);
}

/// In a consistent report the counts add up to the results, and those that were
/// tested are those that were killed, survived, timed out or failed.
pub proof fn law_consistent_counts_add_up(report: MutationReport)
    requires
        report.is_consistent(),
    ensures
        report.killed + report.survived + report.timeouts + report.errors + report.no_coverage
            + report.skipped == report.results@.len(),
        report.mutants_tested == report.results@.len() - report.no_coverage - report.skipped,
        report.killed == report.results@.filter(|r: MutantResult| r.status is Killed).len(),
        report.survived == report.results@.filter(|r: MutantResult| r.status is Survived).len(),
        report.timeouts == report.results@.filter(|r: MutantResult| r.status is Timeout).len(),
        report.errors == report.results@.filter(|r: MutantResult| r.status is Error).len(),
        report.no_coverage == report.results@.filter(
            |r: MutantResult| r.status is NoCoverage,
        ).len(),
        report.skipped == report.results@.filter(|r: MutantResult| r.status is Skipped).len(),
{
    law_tallies_add_up(report.results@);
    law_outcomes_are_counted(report.results@, SkipReason::UnmappableTarget);
}

} // verus!
