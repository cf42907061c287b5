//! The phases of a run and how they are announced.
use crate::decimal;
use crate::duration::Duration;
use crate::progress::event::RenderEvent;
use vstd::prelude::*;

verus! {

/// A phase of a run.
#[derive(Debug, Clone, Copy, PartialEq, Eq, Structural)]
pub enum Phase {
    /// Loading the configuration.
    Configuration,
    /// Building the registry of mutators.
    Registry,
    /// Discovering source files.
    Discovery,
    /// Generating mutants.
    Generation,
    /// Collecting coverage.
    Coverage,
    /// Opening the session.
    Session,
    /// Starting the test workers.
    Workers,
    /// Running the mutants.
    Mutants,
}

/// What came of a phase, beside that it is complete.
#[derive(Debug)]
pub enum PhaseDetail {
    /// Nothing to show.
    Nothing,
    /// A number of what the phase is about.
    Count(usize),
    /// A file.
    File(String),
}

impl Phase {
    /// The label that is shown while the phase runs.
    pub open spec fn label(self) -> Seq<char> {
        match self {
            Phase::Configuration => "Loading configuration"@,
            Phase::Registry => "Building mutator registry"@,
            Phase::Discovery => "Discovering source files"@,
            Phase::Generation => "Generating mutants"@,
            Phase::Coverage => "Collecting coverage"@,
            Phase::Session => "Opening session"@,
            Phase::Workers => "Starting test workers"@,
            Phase::Mutants => "Running mutants"@,
        }
    }

    /// What is shown once the phase is complete.
    pub open spec fn completion(self) -> Seq<char> {
        match self {
            Phase::Configuration => "Configuration loaded"@,
            Phase::Registry => "Mutator registry built"@,
            Phase::Discovery => "Source files discovered"@,
            Phase::Generation => "Mutants generated"@,
            Phase::Coverage => "Coverage collected"@,
            Phase::Session => "Session opened"@,
            Phase::Workers => "Test workers ready"@,
            Phase::Mutants => "Mutants tested"@,
        }
    }

    /// What the phase counts.
    pub open spec fn unit(self) -> Seq<char> {
        match self {
            Phase::Registry => " mutators"@,
            Phase::Workers => " workers"@,
            Phase::Generation | Phase::Mutants => " mutants"@,
            _ => " files"@,
        }
    }

    /// How a detail of the phase is shown.
    pub open spec fn shown(self, detail: PhaseDetail) -> Option<Seq<char>> {
        match detail {
            PhaseDetail::Nothing => None,
            PhaseDetail::Count(n) => Some(decimal::decimal(n as int) + self.unit()),
            PhaseDetail::File(path) => Some(path@),
        }
    }

    /// The event for the start of the phase.
    pub fn start(self) -> (r: RenderEvent)
        ensures
            r matches RenderEvent::PhaseStart { label } && label@ == self.label(),
    {
        let label: &'static str = match self {
            Phase::Configuration => "Loading configuration",
            Phase::Registry => "Building mutator registry",
            Phase::Discovery => "Discovering source files",
            Phase::Generation => "Generating mutants",
            Phase::Coverage => "Collecting coverage",
            Phase::Session => "Opening session",
            Phase::Workers => "Starting test workers",
            Phase::Mutants => "Running mutants",
        };
        RenderEvent::PhaseStart { label: label.to_owned() }
    }

    /// What the phase counts.
    fn counted(self) -> (r: &'static str)
        ensures
            r@ == self.unit(),
    {
        match self {
            Phase::Registry => " mutators",
            Phase::Workers => " workers",
            Phase::Generation | Phase::Mutants => " mutants",
            _ => " files",
        }
    }

    /// The event for the completion of the phase.
    pub fn complete(self, detail: PhaseDetail, elapsed: Duration) -> (r: RenderEvent)
        ensures
            match r {
                RenderEvent::PhaseComplete { detail: text, count_detail, elapsed: time } => {
                    &&& text@ == self.completion()
                    &&& time == elapsed
                    &&& match self.shown(detail) {
                        Some(shown) => count_detail matches Some(s) && s@ == shown,
                        None => count_detail is None,
                    }
                },
                _ => false,
            },
    {
        let text: &'static str = match self {
            Phase::Configuration => "Configuration loaded",
            Phase::Registry => "Mutator registry built",
            Phase::Discovery => "Source files discovered",
            Phase::Generation => "Mutants generated",
            Phase::Coverage => "Coverage collected",
            Phase::Session => "Session opened",
            Phase::Workers => "Test workers ready",
            Phase::Mutants => "Mutants tested",
        };
        let count_detail: Option<String> = match detail {
            PhaseDetail::Nothing => None,
            PhaseDetail::Count(n) => {
                let mut shown: String = decimal::decimal_usize(n);
                shown.append(self.counted());
                Some(shown)
            },
            PhaseDetail::File(path) => Some(path),
        };
        RenderEvent::PhaseComplete { detail: text.to_owned(), count_detail, elapsed }
    }
}

/// Each phase is announced, and told to be done, in its own words.
pub proof fn law_phases_have_their_words(phase: Phase)
    ensures
        phase is Configuration ==> phase.label() == "Loading configuration"@ && phase.completion()
            == "Configuration loaded"@,
        phase is Registry ==> phase.label() == "Building mutator registry"@ && phase.completion()
            == "Mutator registry built"@,
        phase is Discovery ==> phase.label() == "Discovering source files"@ && phase.completion()
            == "Source files discovered"@,
        phase is Generation ==> phase.label() == "Generating mutants"@ && phase.completion()
            == "Mutants generated"@,
        phase is Coverage ==> phase.label() == "Collecting coverage"@ && phase.completion()
            == "Coverage collected"@,
        phase is Session ==> phase.label() == "Opening session"@ && phase.completion()
            == "Session opened"@,
        phase is Workers ==> phase.label() == "Starting test workers"@ && phase.completion()
            == "Test workers ready"@,
        phase is Mutants ==> phase.label() == "Running mutants"@ && phase.completion()
            == "Mutants tested"@,
{
}

/// What a phase counts is shown with its number: mutators, workers, mutants or
/// files. A path is shown as it is.
pub proof fn law_counts_are_shown_with_their_unit(phase: Phase, n: usize, path: String)
    ensures
        phase is Registry ==> phase.shown(PhaseDetail::Count(n)) == Some(
            decimal::decimal(n as int) + " mutators"@,
        ),
        phase is Workers ==> phase.shown(PhaseDetail::Count(n)) == Some(
            decimal::decimal(n as int) + " workers"@,
        ),
        phase is Generation || phase is Mutants ==> phase.shown(PhaseDetail::Count(n)) == Some(
            decimal::decimal(n as int) + " mutants"@,
        ),
        phase is Discovery || phase is Coverage || phase is Session || phase is Configuration
            ==> phase.shown(PhaseDetail::Count(n)) == Some(decimal::decimal(n as int) + " files"@),
        phase.shown(PhaseDetail::File(path)) == Some(path@),
        phase.shown(PhaseDetail::Nothing) is None,
{
}

} // verus!
