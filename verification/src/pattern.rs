//! Glob patterns, as the `glob` crate reads them.
use crate::error::Error;
use crate::text;
use vstd::prelude::*;

verus! {

/// What `glob::Pattern::new` objects to in a pattern: the message of its
/// error, or nothing when the pattern is valid.
pub uninterp spec fn pattern_error(pattern: Seq<char>) -> Option<Seq<char>>;

/// Whether `glob::Pattern::matches` matches a path, with the separators of
/// the platform. An invalid pattern matches none.
pub uninterp spec fn pattern_matches(pattern: Seq<char>, path: Seq<char>) -> bool;

/// An optional text read as a sequence of characters.
pub open spec fn characters(text: Option<String>) -> Option<Seq<char>> {
    match text {
        Some(t) => Some(t@),
        None => None,
    }
}

/// Calls `glob::Pattern::new`, whose verdict depends on the pattern alone,
/// and hands out the message that its error displays.
#[verifier::external_body]
pub(crate) fn glob_error(pattern: &str) -> (r: Option<String>)
    ensures
        characters(r) == pattern_error(pattern@),
{
    glob::Pattern::new(pattern).err().map(|err| err.to_string())
}

/// Calls `glob::Pattern::matches` on the compiled pattern. The answer
/// depends on the pattern and the path alone, in a program: which characters
/// separate the parts of a path is fixed for the platform that it is built
/// for.
#[verifier::external_body]
pub(crate) fn glob_matches(pattern: &str, path: &str) -> (r: bool)
    ensures
        r == pattern_matches(pattern@, path@),
{
    glob::Pattern::new(pattern).is_ok_and(|compiled| compiled.matches(path))
}

/// Whether one of the patterns matches a path.
pub open spec fn matched_by_any(patterns: Seq<String>, path: Seq<char>) -> bool {
    exists|i: int| 0 <= i < patterns.len() && pattern_matches(#[trigger] patterns[i]@, path)
}

/// Whether one of the patterns matches a path.
pub fn matches_any(patterns: &[String], path: &str) -> (r: bool)
    ensures
        r == matched_by_any(patterns@, path@),
{
    let mut i: usize = 0;
    while i < patterns.len()
        invariant
            i <= patterns@.len(),
            forall|j: int| 0 <= j < i ==> !pattern_matches(#[trigger] patterns@[j]@, path@),
        decreases patterns.len() - i,
    {
        if glob_matches(patterns[i].as_str(), path) {
            return true;
        }
        i = i + 1;
    }
    false
}

/// The message for an invalid pattern.
pub open spec fn invalid_pattern(what: Seq<char>, pattern: Seq<char>, problem: Seq<char>) -> Seq<
    char,
> {
    "invalid "@ + what + " pattern '"@ + pattern + "': "@ + problem
}

/// The message for an invalid pattern.
pub fn invalid_pattern_message(what: &str, pattern: &str, problem: &str) -> (r: String)
    ensures
        r@ == invalid_pattern(what@, pattern@, problem@),
{
    let mut out: String = text::cat4("invalid ", what, " pattern '", pattern);
    out.append("': ");
    out.append(problem);
    out
}

/// What the first invalid pattern of a list is reported as.
pub open spec fn first_invalid(what: Seq<char>, patterns: Seq<String>) -> Option<Seq<char>>
    decreases patterns.len(),
{
    if patterns.len() == 0 {
        None
    } else {
        match pattern_error(patterns[0]@) {
            Some(problem) => Some(invalid_pattern(what, patterns[0]@, problem)),
            None => first_invalid(what, patterns.drop_first()),
        }
    }
}

/// Whether a check failed with the given message, or passed where there is none.
pub open spec fn checked(r: Result<(), Error>, problem: Option<Seq<char>>) -> bool {
    match problem {
        None => r is Ok,
        Some(message) => r matches Err(Error::Mutation(m)) && m@ == message,
    }
}

/// Checks that every pattern of a list is valid.
pub fn check_patterns(what: &str, patterns: &[String]) -> (r: Result<(), Error>)
    ensures
        checked(r, first_invalid(what@, patterns@)),
{
    let mut i: usize = 0;
    assert(patterns@.skip(0) =~= patterns@);
    while i < patterns.len()
        invariant
            i <= patterns@.len(),
            first_invalid(what@, patterns@) == first_invalid(what@, patterns@.skip(i as int)),
        decreases patterns.len() - i,
    {
        assert(patterns@.skip(i as int).drop_first() =~= patterns@.skip(i + 1));
        if let Some(problem) = glob_error(patterns[i].as_str()) {
            return Err(
                Error::Mutation(
                    invalid_pattern_message(what, patterns[i].as_str(), problem.as_str()),
                ),
            );
        }
        i = i + 1;
    }
    Ok(())
}

/// The pattern that is complained of is the first that is not valid; where all
/// are valid there is no complaint.
pub proof fn law_the_first_invalid_pattern_counts(what: Seq<char>, patterns: Seq<String>, i: int)
    ensures
        first_invalid(what, patterns) is None <==> forall|j: int|
            0 <= j < patterns.len() ==> pattern_error((#[trigger] patterns[j])@) is None,
        0 <= i < patterns.len() && pattern_error(patterns[i]@) is Some && (forall|j: int|
            0 <= j < i ==> pattern_error((#[trigger] patterns[j])@) is None) ==> first_invalid(
            what,
            patterns,
        ) == Some(
            "invalid "@ + what + " pattern '"@ + patterns[i]@ + "': "@ + pattern_error(
                patterns[i]@,
            )->0,
        ),
    decreases patterns.len(),
{
    if patterns.len() > 0 {
        let rest = patterns.drop_first();
        law_the_first_invalid_pattern_counts(what, rest, i - 1);
        if first_invalid(what, patterns) is None {
            assert forall|j: int| 0 <= j < patterns.len() implies pattern_error(
                (#[trigger] patterns[j])@,
            ) is None by {
                if j > 0 {
                    assert(rest[j - 1] == patterns[j]);
                }
            }
        }
        if forall|j: int|
            0 <= j < patterns.len() ==> pattern_error((#[trigger] patterns[j])@) is None {
            assert(pattern_error(patterns[0]@) is None);
            assert forall|j: int| 0 <= j < rest.len() implies pattern_error(
                (#[trigger] rest[j])@,
            ) is None by {
                assert(rest[j] == patterns[j + 1]);
            }
        }
        if 0 < i < patterns.len() && (forall|j: int|
            0 <= j < i ==> pattern_error((#[trigger] patterns[j])@) is None) {
            assert(rest[i - 1] == patterns[i]);
            assert(pattern_error(patterns[0]@) is None);
            assert forall|j: int| 0 <= j < i - 1 implies pattern_error(
                (#[trigger] rest[j])@,
            ) is None by {
                assert(rest[j] == patterns[j + 1]);
            }
        }
    }
}

} // verus!
