//! JSON text, as the `serde_json` crate reads it.
//!
//! The values of objects and lists are handed out as the text that they are
//! written in, so that a value that nobody asks for is only skipped.
use crate::text::texts;
use vstd::prelude::*;

verus! {

/// Pairs of texts as pairs of sequences of characters.
pub open spec fn pair_views(list: Seq<(String, String)>) -> Seq<(Seq<char>, Seq<char>)> {
    list.map_values(|pair: (String, String)| (pair.0@, pair.1@))
}

/// Named lists of texts as sequences of characters.
pub open spec fn list_views(list: Seq<(String, Vec<String>)>) -> Seq<(Seq<char>, Seq<Seq<char>>)> {
    list.map_values(|item: (String, Vec<String>)| (item.0@, texts(item.1@)))
}

/// What `serde_json::from_str` makes of a text read as an object: its members,
/// sorted by name, each with the text of its value, or the message for a text
/// that is no object.
pub uninterp spec fn object_members(text: Seq<char>) -> Result<
    Seq<(Seq<char>, Seq<char>)>,
    Seq<char>,
>;

/// Calls `serde_json::from_str` for a map from strings to raw values, whose
/// result depends on the text alone. An error is handed out as the message
/// that it displays. Of a name that is repeated, the last value is kept.
#[verifier::external_body]
pub(crate) fn read_object(text: &str) -> (r: Result<Vec<(String, String)>, String>)
    ensures
        match object_members(text@) {
            Ok(members) => r matches Ok(found) && pair_views(found@) == members,
            Err(problem) => r matches Err(m) && m@ == problem,
        },
{
    serde_json::from_str::<std::collections::BTreeMap<String, Box<serde_json::value::RawValue>>>(text)
        .map(|map| map.into_iter().map(|(name, value)| (name, value.get().to_owned())).collect())
        .map_err(|err| err.to_string())
}

/// What `serde_json::from_str` makes of a text read as a list: the texts of its
/// values, or the message for a text that is no list.
pub uninterp spec fn list_items(text: Seq<char>) -> Result<Seq<Seq<char>>, Seq<char>>;

/// Calls `serde_json::from_str` for a list of raw values, whose result depends
/// on the text alone. An error is handed out as the message that it displays.
#[verifier::external_body]
pub(crate) fn read_list(text: &str) -> (r: Result<Vec<String>, String>)
    ensures
        match list_items(text@) {
            Ok(items) => r matches Ok(found) && texts(found@) == items,
            Err(problem) => r matches Err(m) && m@ == problem,
        },
{
    serde_json::from_str::<Vec<Box<serde_json::value::RawValue>>>(text)
        .map(|list| list.into_iter().map(|value| value.get().to_owned()).collect())
        .map_err(|err| err.to_string())
}

/// What `serde_json::from_str` makes of a text read as an object of lists of
/// strings: its members, sorted by name, or the message for a text that is
/// something else.
pub uninterp spec fn string_lists(text: Seq<char>) -> Result<
    Seq<(Seq<char>, Seq<Seq<char>>)>,
    Seq<char>,
>;

/// Calls `serde_json::from_str` for a map from strings to lists of strings,
/// whose result depends on the text alone. An error is handed out as the
/// message that it displays. Of a name that is repeated, the last list is kept.
#[verifier::external_body]
pub(crate) fn read_string_lists(text: &str) -> (r: Result<Vec<(String, Vec<String>)>, String>)
    ensures
        match string_lists(text@) {
            Ok(members) => r matches Ok(found) && list_views(found@) == members,
            Err(problem) => r matches Err(m) && m@ == problem,
        },
{
    serde_json::from_str::<std::collections::BTreeMap<String, Vec<String>>>(text)
        .map(|map| map.into_iter().collect())
        .map_err(|err| err.to_string())
}

/// The value of the first member with a name.
pub open spec fn member(members: Seq<(Seq<char>, Seq<char>)>, name: Seq<char>) -> Option<Seq<char>>
    decreases members.len(),
{
    if members.len() == 0 {
        None
    } else if members[0].0 == name {
        Some(members[0].1)
    } else {
        member(members.drop_first(), name)
    }
}

/// The value of the first member with a name.
pub fn find_member<'a>(members: &'a Vec<(String, String)>, name: &str) -> (r: Option<&'a String>)
    ensures
        match member(pair_views(members@), name@) {
            Some(value) => r matches Some(found) && found@ == value,
            None => r is None,
        },
{
    let ghost all = pair_views(members@);
    let mut i: usize = 0;
    assert(all.skip(0) =~= all);
    while i < members.len()
        invariant
            i <= members@.len(),
            all == pair_views(members@),
            member(all, name@) == member(all.skip(i as int), name@),
        decreases members.len() - i,
    {
        assert(all.skip(i as int).drop_first() =~= all.skip(i + 1));
        assert(all.skip(i as int)[0] == (members@[i as int].0@, members@[i as int].1@));
        if crate::text::same(members[i].0.as_str(), name) {
            return Some(&members[i].1);
        }
        i = i + 1;
    }
    None
}

/// The member of a name is the first with it, and there is none without one.
pub proof fn law_the_first_member_is_found(
    members: Seq<(Seq<char>, Seq<char>)>,
    name: Seq<char>,
    i: int,
)
    ensures
        member(members, name) is None <==> forall|j: int|
            0 <= j < members.len() ==> (#[trigger] members[j]).0 != name,
        0 <= i < members.len() && members[i].0 == name && (forall|j: int|
            0 <= j < i ==> (#[trigger] members[j]).0 != name) ==> member(members, name) == Some(
            members[i].1,
        ),
    decreases members.len(),
{
    if members.len() > 0 {
        let rest = members.drop_first();
        law_the_first_member_is_found(rest, name, i - 1);
        if member(members, name) is None {
            assert forall|j: int| 0 <= j < members.len() implies (#[trigger] members[j]).0 != name by {
                if j > 0 {
                    assert(rest[j - 1] == members[j]);
                }
            }
        }
        if forall|j: int| 0 <= j < members.len() ==> (#[trigger] members[j]).0 != name {
            assert(members[0].0 != name);
            assert forall|j: int| 0 <= j < rest.len() implies (#[trigger] rest[j]).0 != name by {
                assert(rest[j] == members[j + 1]);
            }
        }
        if 0 < i < members.len() && (forall|j: int|
            0 <= j < i ==> (#[trigger] members[j]).0 != name) {
            assert(rest[i - 1] == members[i]);
            assert(members[0].0 != name);
            assert forall|j: int| 0 <= j < i - 1 implies (#[trigger] rest[j]).0 != name by {
                assert(rest[j] == members[j + 1]);
            }
        }
    }
}

} // verus!
