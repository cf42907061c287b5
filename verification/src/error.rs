//! Errors that a mutation-testing run can end in.
use vstd::prelude::*;

verus! {

/// All error variants that a run can produce.
#[derive(Debug, Clone, PartialEq, Eq)]
pub enum Error {
    /// An error originating from configuration parsing or validation.
    Config(String),
    /// An error originating from the mutation engine.
    Mutation(String),
    /// An error originating from coverage analysis.
    Coverage(String),
    /// An error originating from the test runner.
    Runner(String),
    /// An error originating from report generation.
    Report(String),
    /// An I/O error.
    Io(String),
    /// An error originating from the session database.
    Session(String),
    /// The run was interrupted by a signal.
    Cancelled(String),
    /// The mutation score is below the required minimum.
    Threshold(String),
}

impl Error {
    /// The text shown for an error: what failed, then the details.
    pub open spec fn text(self) -> Seq<char> {
        match self {
            Error::Config(m) => "config error: "@ + m@,
            Error::Mutation(m) => "mutation error: "@ + m@,
            Error::Coverage(m) => "coverage error: "@ + m@,
            Error::Runner(m) => "runner error: "@ + m@,
            Error::Report(m) => "report error: "@ + m@,
            Error::Io(m) => "I/O error: "@ + m@,
            Error::Session(m) => "session error: "@ + m@,
            Error::Cancelled(m) => "cancelled: "@ + m@,
            Error::Threshold(m) => "threshold error: "@ + m@,
        }
    }

    /// The text shown for an error: what failed, then the details.
    pub fn message(&self) -> (r: String)
        ensures
            r@ == self.text(),
    {
        match self {
            Error::Config(m) => prefixed("config error: ", m),
            Error::Mutation(m) => prefixed("mutation error: ", m),
            Error::Coverage(m) => prefixed("coverage error: ", m),
            Error::Runner(m) => prefixed("runner error: ", m),
            Error::Report(m) => prefixed("report error: ", m),
            Error::Io(m) => prefixed("I/O error: ", m),
            Error::Session(m) => prefixed("session error: ", m),
            Error::Cancelled(m) => prefixed("cancelled: ", m),
            Error::Threshold(m) => prefixed("threshold error: ", m),
        }
    }
}

/// One text after another.
fn prefixed(prefix: &str, text: &String) -> (r: String)
    ensures
        r@ == prefix@ + text@,
{
    let mut out: String = prefix.to_owned();
    out.append(text.as_str());
    out
}

/// An error is told with what it is about in front of its message.
pub proof fn law_errors_tell_what_they_are_about(m: String)
    ensures
        Error::Config(m).text() == "config error: "@ + m@,
        Error::Mutation(m).text() == "mutation error: "@ + m@,
        Error::Coverage(m).text() == "coverage error: "@ + m@,
        Error::Runner(m).text() == "runner error: "@ + m@,
        Error::Report(m).text() == "report error: "@ + m@,
        Error::Io(m).text() == "I/O error: "@ + m@,
        Error::Session(m).text() == "session error: "@ + m@,
        Error::Cancelled(m).text() == "cancelled: "@ + m@,
        Error::Threshold(m).text() == "threshold error: "@ + m@,
{
}

} // verus!
