//! Filtering of mutation operators by name.
use crate::text;
use vstd::prelude::*;

verus! {

/// Whether a filter leaves operators out: it then starts with `!`.
pub open spec fn is_exclusion(filter: Seq<char>) -> bool {
    filter.len() > 0 && filter[0] == '!'
}

/// Whether a filter leaves the named operator out.
pub open spec fn leaves_out(filter: Seq<char>, name: Seq<char>) -> bool {
    is_exclusion(filter) && text::has(name, filter.skip(1))
}

/// Whether a filter picks the named operator.
pub open spec fn picks(filter: Seq<char>, name: Seq<char>) -> bool {
    !is_exclusion(filter) && text::has(name, filter)
}

/// Whether an operator passes the filters: none leaves it out, and one picks
/// it unless all of them only leave operators out.
pub open spec fn passes(name: Seq<char>, filters: Seq<String>) -> bool {
    &&& forall|i: int| 0 <= i < filters.len() ==> !leaves_out(#[trigger] filters[i]@, name)
    &&& {
        ||| forall|i: int| 0 <= i < filters.len() ==> is_exclusion(#[trigger] filters[i]@)
        ||| exists|i: int| 0 <= i < filters.len() && picks(#[trigger] filters[i]@, name)
    }
}

/// Check whether a mutator name passes the operator filter.
///
/// - If `filters` is empty, returns `true` (no filtering).
/// - Patterns prefixed with `!` are exclusion filters (substring match).
/// - Patterns without `!` are inclusion filters (substring match).
/// - If any exclusion pattern matches, returns `false`.
/// - If there are inclusion patterns and none match, returns `false`.
/// - Otherwise returns `true`.
pub fn matches_operator_filter(mutator_name: &str, filters: &[String]) -> (r: bool)
    ensures
        r == passes(mutator_name@, filters@),
{
    let mut has_includes: bool = false;
    let mut any_include_matched: bool = false;
    let mut i: usize = 0;
    while i < filters.len()
        invariant
            i <= filters@.len(),
            forall|j: int| 0 <= j < i ==> !leaves_out(#[trigger] filters@[j]@, mutator_name@),
            has_includes == exists|j: int| 0 <= j < i && !is_exclusion(#[trigger] filters@[j]@),
            any_include_matched == exists|j: int|
                0 <= j < i && picks(#[trigger] filters@[j]@, mutator_name@),
        decreases filters.len() - i,
    {
        let filter: &str = filters[i].as_str();
        let total: usize = filter.unicode_len();
        if total > 0 && filter.get_char(0) == '!' {
            let part: &str = filter.substring_char(1, total);
            assert(part@ =~= filter@.skip(1));
            if text::contains(mutator_name, part) {
                return false;
            }
        } else {
            has_includes = true;
            if text::contains(mutator_name, filter) {
                any_include_matched = true;
            }
        }
        i = i + 1;
    }
    !has_includes || any_include_matched
}

/// Without filters every operator passes.
pub proof fn law_no_filters_pass_all(name: Seq<char>)
    ensures
        passes(name, Seq::empty()),
{
}

/// An operator that a filter leaves out does not pass, whatever the others pick.
pub proof fn law_exclusion_wins(name: Seq<char>, filters: Seq<String>, i: int)
    requires
        0 <= i < filters.len(),
        leaves_out(filters[i]@, name),
    ensures
        !passes(name, filters),
{
}

/// One filter passes the operators whose name it stands in, and one with an
/// exclamation mark in front those whose name the rest of it does not stand in.
pub proof fn law_filters_pick_and_leave_out(name: Seq<char>, filters: Seq<String>)
    requires
        filters.len() == 1,
    ensures
        filters[0]@.len() > 0 && filters[0]@[0] == '!' ==> (passes(name, filters) <==> !text::has(
            name,
            filters[0]@.skip(1),
        )),
        filters[0]@.len() == 0 || filters[0]@[0] != '!' ==> (passes(name, filters) <==> text::has(
            name,
            filters[0]@,
        )),
{
    let f = filters[0];
    assert(filters[0]@ == f@);
    if text::has(name, f@) && !is_exclusion(f@) {
        assert(picks(filters[0]@, name));
    }
}

/// An operator that passes each of two lists of filters passes both together.
pub proof fn law_filters_go_over_concatenation(name: Seq<char>, a: Seq<String>, b: Seq<String>)
    requires
        passes(name, a),
        passes(name, b),
    ensures
        passes(name, a + b),
{
    let all = a + b;
    assert forall|i: int| 0 <= i < all.len() implies !leaves_out(#[trigger] all[i]@, name) by {
        if i < a.len() {
            assert(all[i] == a[i]);
        } else {
            assert(all[i] == b[i - a.len()]);
        }
    }
    if exists|i: int| 0 <= i < a.len() && picks(#[trigger] a[i]@, name) {
        let i = choose|i: int| 0 <= i < a.len() && picks(#[trigger] a[i]@, name);
        assert(all[i] == a[i]);
    } else if exists|i: int| 0 <= i < b.len() && picks(#[trigger] b[i]@, name) {
        let i = choose|i: int| 0 <= i < b.len() && picks(#[trigger] b[i]@, name);
        assert(all[a.len() + i] == b[i]);
    } else {
        assert forall|i: int| 0 <= i < all.len() implies is_exclusion(#[trigger] all[i]@) by {
            if i < a.len() {
                assert(all[i] == a[i]);
            } else {
                assert(all[i] == b[i - a.len()]);
            }
        }
    }
}

} // verus!
