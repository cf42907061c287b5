//! Choice of the source files to mutate.
use crate::error::Error;
use crate::paths;
use crate::pattern;
use vstd::prelude::*;

verus! {

/// What was found on disk for one source pattern.
#[derive(Debug)]
pub struct Listing {
    /// The pattern, as configured.
    pub pattern: String,
    /// The paths that match it, each with the problem of reading it if there
    /// was one; or why the pattern is invalid.
    pub entries: Result<Vec<Result<String, String>>, String>,
}

/// Whether one of the exclude patterns, seen from the base directory,
/// matches a path.
pub open spec fn is_excluded(path: Seq<char>, exclude: Seq<String>, base: Seq<char>) -> bool {
    exists|i: int|
        0 <= i < exclude.len() && pattern::pattern_matches(
            paths::joined(base, #[trigger] exclude[i]@),
            path,
        )
}

/// What the first invalid exclude pattern is reported as.
pub open spec fn exclude_error(exclude: Seq<String>, base: Seq<char>) -> Option<Seq<char>>
    decreases exclude.len(),
{
    if exclude.len() == 0 {
        None
    } else {
        match pattern::pattern_error(paths::joined(base, exclude[0]@)) {
            Some(problem) => Some(pattern::invalid_pattern("exclude"@, exclude[0]@, problem)),
            None => exclude_error(exclude.drop_first(), base),
        }
    }
}

/// The problem of the first entry that has one.
pub open spec fn entry_error(entries: Seq<Result<String, String>>) -> Option<Seq<char>>
    decreases entries.len(),
{
    if entries.len() == 0 {
        None
    } else {
        match entries[0] {
            Err(problem) => Some("error reading glob entry: "@ + problem@),
            Ok(_) => entry_error(entries.drop_first()),
        }
    }
}

/// The first problem of a listing.
pub open spec fn listing_error(listing: Listing) -> Option<Seq<char>> {
    match listing.entries {
        Err(problem) => Some(
            pattern::invalid_pattern("source"@, listing.pattern@, problem@),
        ),
        Ok(entries) => entry_error(entries@),
    }
}

/// The problem of the first listing that has one.
pub open spec fn listings_error(listings: Seq<Listing>) -> Option<Seq<char>>
    decreases listings.len(),
{
    if listings.len() == 0 {
        None
    } else {
        match listing_error(listings[0]) {
            Some(problem) => Some(problem),
            None => listings_error(listings.drop_first()),
        }
    }
}

/// The readable entries that are not excluded.
pub open spec fn kept_entries(
    entries: Seq<Result<String, String>>,
    exclude: Seq<String>,
    base: Seq<char>,
) -> Seq<String>
    decreases entries.len(),
{
    if entries.len() == 0 {
        Seq::empty()
    } else {
        let init = kept_entries(entries.drop_last(), exclude, base);
        match entries.last() {
            Ok(path) => if is_excluded(path@, exclude, base) {
                init
            } else {
                init.push(path)
            },
            Err(_) => init,
        }
    }
}

/// The readable entries of all listings that are not excluded.
pub open spec fn kept_files(listings: Seq<Listing>, exclude: Seq<String>, base: Seq<char>) -> Seq<
    String,
>
    decreases listings.len(),
{
    if listings.len() == 0 {
        Seq::empty()
    } else {
        let init = kept_files(listings.drop_last(), exclude, base);
        match listings.last().entries {
            Ok(entries) => init + kept_entries(entries@, exclude, base),
            Err(_) => init,
        }
    }
}

/// Why no files can be chosen, if none can. An invalid exclude pattern is
/// reported before any problem of a listing.
pub open spec fn discovery_error(
    listings: Seq<Listing>,
    exclude: Seq<String>,
    base: Seq<char>,
) -> Option<Seq<char>> {
    match exclude_error(exclude, base) {
        Some(problem) => Some(problem),
        None => listings_error(listings),
    }
}

/// The exclude patterns seen from the base directory.
fn compile_excludes(exclude: &[String], base: &str) -> (r: Result<Vec<String>, Error>)
    ensures
        match exclude_error(exclude@, base@) {
            Some(problem) => r matches Err(Error::Mutation(m)) && m@ == problem,
            None => r matches Ok(full) && full@.len() == exclude@.len() && forall|i: int|
                0 <= i < full@.len() ==> (#[trigger] full@[i])@ == paths::joined(
                    base@,
                    exclude@[i]@,
                ),
        },
{
    let mut full: Vec<String> = Vec::new();
    let mut i: usize = 0;
    assert(exclude@.skip(0) =~= exclude@);
    while i < exclude.len()
        invariant
            i <= exclude@.len(),
            full@.len() == i,
            forall|j: int|
                0 <= j < i ==> (#[trigger] full@[j])@ == paths::joined(base@, exclude@[j]@),
            exclude_error(exclude@, base@) == exclude_error(exclude@.skip(i as int), base@),
        decreases exclude.len() - i,
    {
        assert(exclude@.skip(i as int).drop_first() =~= exclude@.skip(i + 1));
        let whole: String = paths::join(base, exclude[i].as_str());
        if let Some(problem) = pattern::glob_error(whole.as_str()) {
            return Err(
                Error::Mutation(
                    pattern::invalid_pattern_message(
                        "exclude",
                        exclude[i].as_str(),
                        problem.as_str(),
                    ),
                ),
            );
        }
        full.push(whole);
        i = i + 1;
    }
    Ok(full)
}

/// Appends the entries of a listing that are not excluded.
fn push_entries(
    entries: &Vec<Result<String, String>>,
    full: &Vec<String>,
    Ghost(exclude): Ghost<Seq<String>>,
    Ghost(base): Ghost<Seq<char>>,
    files: &mut Vec<String>,
) -> (r: Result<(), Error>)
    requires
        full@.len() == exclude.len(),
        forall|i: int|
            0 <= i < full@.len() ==> (#[trigger] full@[i])@ == paths::joined(base, exclude[i]@),
    ensures
        pattern::checked(r, entry_error(entries@)),
        r is Ok ==> final(files)@ == old(files)@ + kept_entries(entries@, exclude, base),
{
    let mut i: usize = 0;
    assert(entries@.skip(0) =~= entries@);
    assert(files@ =~= old(files)@ + kept_entries(entries@.take(0), exclude, base));
    while i < entries.len()
        invariant
            i <= entries.len(),
            full@.len() == exclude.len(),
            forall|i: int|
                0 <= i < full@.len() ==> (#[trigger] full@[i])@ == paths::joined(
                    base,
                    exclude[i]@,
                ),
            entry_error(entries@) == entry_error(entries@.skip(i as int)),
            files@ == old(files)@ + kept_entries(entries@.take(i as int), exclude, base),
        decreases entries.len() - i,
    {
        assert(entries@.skip(i as int).drop_first() =~= entries@.skip(i + 1));
        assert(entries@.take(i + 1).drop_last() =~= entries@.take(i as int));
        match &entries[i] {
            Ok(path) => {
                let hit: bool = pattern::matches_any(full.as_slice(), path.as_str());
                proof {
                    if hit {
                        let k = choose|k: int|
                            0 <= k < full@.len() && pattern::pattern_matches(
                                #[trigger] full@[k]@,
                                path@,
                            );
                        assert(pattern::pattern_matches(
                            paths::joined(base, exclude[k]@),
                            path@,
                        ));
                    } else {
                        assert forall|k: int| 0 <= k < exclude.len() implies !pattern::pattern_matches(
                            paths::joined(base, #[trigger] exclude[k]@),
                            path@,
                        ) by {
                            assert(full@[k]@ == paths::joined(base, exclude[k]@));
                        }
                    }
                    assert(hit == is_excluded(path@, exclude, base));
                }
                let ghost before = files@;
                if !hit {
                    files.push(path.clone());
                    assert(files@ =~= before.push(*path));
                }
                assert(files@ =~= old(files)@ + kept_entries(entries@.take(i + 1), exclude, base));
            },
            Err(problem) => {
                let mut message: String = "error reading glob entry: ".to_owned();
                message.append(problem.as_str());
                return Err(Error::Mutation(message));
            },
        }
        i = i + 1;
    }
    assert(entries@.take(i as int) =~= entries@);
    Ok(())
}

/// Choose the Python source files to mutate from what the source patterns
/// matched, leaving out files that match one of `exclude_patterns`.
///
/// Exclude patterns are resolved relative to `base_dir`. The files come out
/// sorted, each once.
pub fn discover_files(listings: &[Listing], exclude_patterns: &[String], base_dir: &str) -> (r:
    Result<Vec<String>, Error>)
    ensures
        match discovery_error(listings@, exclude_patterns@, base_dir@) {
            Some(problem) => r matches Err(Error::Mutation(m)) && m@ == problem,
            None => r matches Ok(files) && paths::sorted_once(
                kept_files(listings@, exclude_patterns@, base_dir@),
                files@,
            ),
        },
{
    let full: Vec<String> = match compile_excludes(exclude_patterns, base_dir) {
        Ok(full) => full,
        Err(problem) => { return Err(problem); },
    };
    let mut files: Vec<String> = Vec::new();
    let mut i: usize = 0;
    assert(listings@.skip(0) =~= listings@);
    assert(files@ =~= kept_files(listings@.take(0), exclude_patterns@, base_dir@));
    while i < listings.len()
        invariant
            i <= listings@.len(),
            full@.len() == exclude_patterns@.len(),
            forall|i: int|
                0 <= i < full@.len() ==> (#[trigger] full@[i])@ == paths::joined(
                    base_dir@,
                    exclude_patterns@[i]@,
                ),
            exclude_error(exclude_patterns@, base_dir@) is None,
            listings_error(listings@) == listings_error(listings@.skip(i as int)),
            files@ == kept_files(listings@.take(i as int), exclude_patterns@, base_dir@),
        decreases listings.len() - i,
    {
        assert(listings@.skip(i as int).drop_first() =~= listings@.skip(i + 1));
        assert(listings@.take(i + 1).drop_last() =~= listings@.take(i as int));
        let listing: &Listing = &listings[i];
        match &listing.entries {
            Ok(entries) => {
                if let Err(problem) = push_entries(
                    entries,
                    &full,
                    Ghost(exclude_patterns@),
                    Ghost(base_dir@),
                    &mut files,
                ) {
                    return Err(problem);
                }
            },
            Err(problem) => {
                return Err(
                    Error::Mutation(
                        pattern::invalid_pattern_message(
                            "source",
                            listing.pattern.as_str(),
                            problem.as_str(),
                        ),
                    ),
                );
            },
        }
        i = i + 1;
    }
    assert(listings@.take(i as int) =~= listings@);
    Ok(paths::sort_paths(files.as_slice()))
}

/// The exclusion that is complained of is the first that is not valid; where
/// all are valid there is no complaint.
pub proof fn law_the_first_invalid_exclusion_counts(exclude: Seq<String>, base: Seq<char>, i: int)
    ensures
        exclude_error(exclude, base) is None <==> forall|j: int|
            0 <= j < exclude.len() ==> pattern::pattern_error(
                paths::joined(base, (#[trigger] exclude[j])@),
            ) is None,
        0 <= i < exclude.len() && pattern::pattern_error(paths::joined(base, exclude[i]@)) is Some
            && (forall|j: int|
            0 <= j < i ==> pattern::pattern_error(
                paths::joined(base, (#[trigger] exclude[j])@),
            ) is None) ==> exclude_error(exclude, base) == Some(
            "invalid exclude pattern '"@ + exclude[i]@ + "': "@ + pattern::pattern_error(
                paths::joined(base, exclude[i]@),
            )->0,
        ),
    decreases exclude.len(),
{
    if exclude.len() > 0 {
        reveal_strlit("invalid ");
        reveal_strlit("exclude");
        reveal_strlit(" pattern '");
        reveal_strlit("invalid exclude pattern '");
        assert("invalid "@ + "exclude"@ + " pattern '"@ =~= "invalid exclude pattern '"@);
        let rest = exclude.drop_first();
        law_the_first_invalid_exclusion_counts(rest, base, i - 1);
        if exclude_error(exclude, base) is None {
            assert forall|j: int| 0 <= j < exclude.len() implies pattern::pattern_error(
                paths::joined(base, (#[trigger] exclude[j])@),
            ) is None by {
                if j > 0 {
                    assert(rest[j - 1] == exclude[j]);
                }
            }
        }
        if forall|j: int|
            0 <= j < exclude.len() ==> pattern::pattern_error(
                paths::joined(base, (#[trigger] exclude[j])@),
            ) is None {
            assert(pattern::pattern_error(paths::joined(base, exclude[0]@)) is None);
            assert forall|j: int| 0 <= j < rest.len() implies pattern::pattern_error(
                paths::joined(base, (#[trigger] rest[j])@),
            ) is None by {
                assert(rest[j] == exclude[j + 1]);
            }
        }
        if 0 < i < exclude.len() && (forall|j: int|
            0 <= j < i ==> pattern::pattern_error(
                paths::joined(base, (#[trigger] exclude[j])@),
            ) is None) {
            assert(rest[i - 1] == exclude[i]);
            assert(pattern::pattern_error(paths::joined(base, exclude[0]@)) is None);
            assert forall|j: int| 0 <= j < i - 1 implies pattern::pattern_error(
                paths::joined(base, (#[trigger] rest[j])@),
            ) is None by {
                assert(rest[j] == exclude[j + 1]);
            }
        }
    }
}

/// The entry that is complained of is the first that could not be read; where
/// all were read there is no complaint.
pub proof fn law_the_first_unread_entry_counts(entries: Seq<Result<String, String>>, i: int)
    ensures
        entry_error(entries) is None <==> forall|j: int|
            0 <= j < entries.len() ==> #[trigger] entries[j] is Ok,
        0 <= i < entries.len() && entries[i] is Err && (forall|j: int|
            0 <= j < i ==> #[trigger] entries[j] is Ok) ==> entry_error(entries) == Some(
            "error reading glob entry: "@ + entries[i]->Err_0@,
        ),
    decreases entries.len(),
{
    if entries.len() > 0 {
        let rest = entries.drop_first();
        law_the_first_unread_entry_counts(rest, i - 1);
        if entry_error(entries) is None {
            assert forall|j: int| 0 <= j < entries.len() implies #[trigger] entries[j] is Ok by {
                if j > 0 {
                    assert(rest[j - 1] == entries[j]);
                }
            }
        }
        if forall|j: int| 0 <= j < entries.len() ==> #[trigger] entries[j] is Ok {
            assert(entries[0] is Ok);
            assert forall|j: int| 0 <= j < rest.len() implies #[trigger] rest[j] is Ok by {
                assert(rest[j] == entries[j + 1]);
            }
        }
        if 0 < i < entries.len() && (forall|j: int| 0 <= j < i ==> #[trigger] entries[j] is Ok) {
            assert(rest[i - 1] == entries[i]);
            assert(entries[0] is Ok);
            assert forall|j: int| 0 <= j < i - 1 implies #[trigger] rest[j] is Ok by {
                assert(rest[j] == entries[j + 1]);
            }
        }
    }
}

/// The listing that is complained of is the first with a problem; where none has
/// one there is no complaint.
pub proof fn law_the_first_bad_listing_counts(listings: Seq<Listing>, i: int)
    ensures
        listings_error(listings) is None <==> forall|j: int|
            0 <= j < listings.len() ==> listing_error(#[trigger] listings[j]) is None,
        0 <= i < listings.len() && listing_error(listings[i]) is Some && (forall|j: int|
            0 <= j < i ==> listing_error(#[trigger] listings[j]) is None) ==> listings_error(
            listings,
        ) == listing_error(listings[i]),
    decreases listings.len(),
{
    if listings.len() > 0 {
        let rest = listings.drop_first();
        law_the_first_bad_listing_counts(rest, i - 1);
        if listings_error(listings) is None {
            assert forall|j: int| 0 <= j < listings.len() implies listing_error(
                #[trigger] listings[j],
            ) is None by {
                if j > 0 {
                    assert(rest[j - 1] == listings[j]);
                }
            }
        }
        if forall|j: int| 0 <= j < listings.len() ==> listing_error(#[trigger] listings[j]) is None {
            assert(listing_error(listings[0]) is None);
            assert forall|j: int| 0 <= j < rest.len() implies listing_error(
                #[trigger] rest[j],
            ) is None by {
                assert(rest[j] == listings[j + 1]);
            }
        }
        if 0 < i < listings.len() && (forall|j: int|
            0 <= j < i ==> listing_error(#[trigger] listings[j]) is None) {
            assert(rest[i - 1] == listings[i]);
            assert(listing_error(listings[0]) is None);
            assert forall|j: int| 0 <= j < i - 1 implies listing_error(#[trigger] rest[j]) is None by {
                assert(rest[j] == listings[j + 1]);
            }
        }
    }
}

/// Of the entries of a listing, the paths that no exclusion matches are kept, in
/// their order.
pub proof fn law_excluded_paths_are_left_out(
    entries: Seq<Result<String, String>>,
    exclude: Seq<String>,
    base: Seq<char>,
)
    ensures
        kept_entries(entries, exclude, base) == entries.filter_map(
            |entry: Result<String, String>|
                match entry {
                    Ok(path) => if exists|i: int|
                        0 <= i < exclude.len() && pattern::pattern_matches(
                            paths::joined(base, #[trigger] exclude[i]@),
                            path@,
                        ) {
                        None
                    } else {
                        Some(path)
                    },
                    Err(_) => None,
                },
        ),
    decreases entries.len(),
{
    let keep = |entry: Result<String, String>|
        match entry {
            Ok(path) => if exists|i: int|
                0 <= i < exclude.len() && pattern::pattern_matches(
                    paths::joined(base, #[trigger] exclude[i]@),
                    path@,
                ) {
                None
            } else {
                Some(path)
            },
            Err(_) => None,
        };
    if entries.len() > 0 {
        law_excluded_paths_are_left_out(entries.drop_last(), exclude, base);
        assert(kept_entries(entries, exclude, base) =~= entries.filter_map(keep));
    }
}

/// The files of all listings are those of each of them, one listing after the
/// other.
pub proof fn law_every_listing_counts(
    a: Seq<Listing>,
    b: Seq<Listing>,
    listing: Listing,
    exclude: Seq<String>,
    base: Seq<char>,
)
    ensures
        kept_files(a + b, exclude, base) == kept_files(a, exclude, base) + kept_files(
            b,
            exclude,
            base,
        ),
        listing.entries matches Ok(entries) ==> kept_files(seq![listing], exclude, base)
            == kept_entries(entries@, exclude, base),
    decreases b.len(),
{
    let one = seq![listing];
    assert(one.drop_last() =~= Seq::<Listing>::empty());
    assert(kept_files(one.drop_last(), exclude, base) =~= Seq::<String>::empty());
    assert(one.last() == listing);
    if let Ok(entries) = listing.entries {
        assert(kept_files(one, exclude, base) =~= kept_entries(entries@, exclude, base));
    }
    if b.len() == 0 {
        assert(a + b =~= a);
    } else {
        law_every_listing_counts(a, b.drop_last(), listing, exclude, base);
        assert((a + b).drop_last() =~= a + b.drop_last());
        assert((a + b).last() == b.last());
        assert(kept_files(a + b, exclude, base) =~= kept_files(a, exclude, base) + kept_files(
            b,
            exclude,
            base,
        ));
    }
}

/// A listing has a problem if its pattern is not valid or an entry of it could
/// not be read.
pub proof fn law_listings_have_problems(listing: Listing)
    ensures
        listing.entries matches Err(problem) ==> listing_error(listing) == Some(
            "invalid source pattern '"@ + listing.pattern@ + "': "@ + problem@,
        ),
        listing.entries matches Ok(entries) ==> listing_error(listing) == entry_error(entries@),
{
    reveal_strlit("invalid ");
    reveal_strlit("source");
    reveal_strlit(" pattern '");
    reveal_strlit("invalid source pattern '");
    assert("invalid "@ + "source"@ + " pattern '"@ =~= "invalid source pattern '"@);
}

/// Exclusions that are not valid are told of before listings.
pub proof fn law_exclusions_are_checked_first(
    listings: Seq<Listing>,
    exclude: Seq<String>,
    base: Seq<char>,
)
    ensures
        exclude_error(exclude, base) is Some ==> discovery_error(listings, exclude, base)
            == exclude_error(exclude, base),
        exclude_error(exclude, base) is None ==> discovery_error(listings, exclude, base)
            == listings_error(listings),
{
}

} // verus!
