//! TOML text, as the `toml` crate reads it.
use vstd::prelude::*;

verus! {

/// A TOML value.
#[derive(Debug)]
pub enum Toml {
    Text(String),
    Integer(i64),
    /// A floating-point number, by its bits.
    Number(u64),
    Bool(bool),
    /// A date, a time or both, as it is written.
    Moment(String),
    List(Vec<Toml>),
    /// The entries of a table.
    Table(Vec<(String, Toml)>),
}

/// `toml::Value`, carried but not looked into.
#[verifier::external_type_specification]
#[verifier::external_body]
pub struct ExTomlValue(toml::Value);

/// What parsing a text as a `toml::Table` gives: the table, or nothing where
/// the text is not TOML.
pub uninterp spec fn parsed_toml(content: Seq<char>) -> Option<Toml>;

/// Calls `str::parse` for `toml::Table`, whose result depends on the text
/// alone, and reads its table into the library's own value.
#[verifier::external_body]
pub(crate) fn parse_toml(content: &str) -> (r: Option<Toml>)
    ensures
        r == parsed_toml(content@),
{
    content.parse::<toml::Table>().ok().map(|table| read_value(toml::Value::Table(table)))
}

/// Reads a `toml::Value`.
#[verifier::external_body]
fn read_value(value: toml::Value) -> Toml {
    match value {
        toml::Value::String(s) => Toml::Text(s),
        toml::Value::Integer(n) => Toml::Integer(n),
        toml::Value::Float(x) => Toml::Number(x.to_bits()),
        toml::Value::Boolean(b) => Toml::Bool(b),
        toml::Value::Datetime(d) => Toml::Moment(d.to_string()),
        toml::Value::Array(list) => Toml::List(list.into_iter().map(read_value).collect()),
        toml::Value::Table(map) => Toml::Table(
            map.into_iter().map(|(key, value)| (key, read_value(value))).collect(),
        ),
    }
}

/// The value of the first entry of a table with a name.
pub open spec fn entry(entries: Seq<(String, Toml)>, name: Seq<char>) -> Option<Toml>
    decreases entries.len(),
{
    if entries.len() == 0 {
        None
    } else if entries[0].0@ == name {
        Some(entries[0].1)
    } else {
        entry(entries.drop_first(), name)
    }
}

/// What a table holds under a name. Other values hold nothing.
pub open spec fn lookup(value: Toml, name: Seq<char>) -> Option<Toml> {
    match value {
        Toml::Table(entries) => entry(entries@, name),
        _ => None,
    }
}

/// The value of the first entry of a table with a name.
pub fn find_entry<'a>(entries: &'a Vec<(String, Toml)>, name: &str) -> (r: Option<&'a Toml>)
    ensures
        r is Some <==> entry(entries@, name@) is Some,
        r matches Some(found) ==> entry(entries@, name@) == Some(*found),
{
    let mut i: usize = 0;
    assert(entries@.skip(0) =~= entries@);
    while i < entries.len()
        invariant
            i <= entries@.len(),
            entry(entries@, name@) == entry(entries@.skip(i as int), name@),
        decreases entries.len() - i,
    {
        assert(entries@.skip(i as int).drop_first() =~= entries@.skip(i + 1));
        assert(entries@.skip(i as int)[0] == entries@[i as int]);
        if crate::text::same(entries[i].0.as_str(), name) {
            return Some(&entries[i].1);
        }
        i = i + 1;
    }
    None
}

/// What a table holds under a name.
pub fn find<'a>(value: &'a Toml, name: &str) -> (r: Option<&'a Toml>)
    ensures
        r is Some <==> lookup(*value, name@) is Some,
        r matches Some(found) ==> lookup(*value, name@) == Some(*found),
{
    match value {
        Toml::Table(entries) => find_entry(entries, name),
        _ => None,
    }
}

/// Whether two values are the same. The order of a table does not count.
pub open spec fn same_value(a: Toml, b: Toml) -> bool
    decreases a, 0int,
{
    match (a, b) {
        (Toml::Text(x), Toml::Text(y)) => x@ == y@,
        (Toml::Integer(x), Toml::Integer(y)) => x == y,
        (Toml::Number(x), Toml::Number(y)) => x == y,
        (Toml::Bool(x), Toml::Bool(y)) => x == y,
        (Toml::Moment(x), Toml::Moment(y)) => x@ == y@,
        (Toml::List(x), Toml::List(y)) => same_items(x@, y@),
        (Toml::Table(x), Toml::Table(y)) => same_table(x@, y@, None),
        _ => false,
    }
}

/// Whether two lists hold the same values.
pub open spec fn same_items(a: Seq<Toml>, b: Seq<Toml>) -> bool
    decreases a, 0int,
{
    if a.len() == 0 || b.len() == 0 {
        a.len() == b.len()
    } else {
        same_value(a[0], b[0]) && same_items(a.drop_first(), b.drop_first())
    }
}

/// Whether `b` holds the same values as `a` under the names of `a`, but for
/// one name.
pub open spec fn same_entries(
    a: Seq<(String, Toml)>,
    b: Seq<(String, Toml)>,
    but: Option<Seq<char>>,
) -> bool
    decreases a, 0int,
{
    if a.len() == 0 {
        true
    } else {
        &&& but == Some(a[0].0@) || (entry(b, a[0].0@) matches Some(value) && same_value(
            a[0].1,
            value,
        ))
        &&& same_entries(a.drop_first(), b, but)
    }
}

/// Whether `a` has all names of `b`, but for one name.
pub open spec fn has_names(
    a: Seq<(String, Toml)>,
    b: Seq<(String, Toml)>,
    but: Option<Seq<char>>,
) -> bool {
    forall|i: int|
        0 <= i < b.len() ==> but == Some((#[trigger] b[i]).0@) || entry(a, b[i].0@) is Some
}

/// Whether two tables hold the same values under the same names, but for one
/// name.
pub open spec fn same_table(
    a: Seq<(String, Toml)>,
    b: Seq<(String, Toml)>,
    but: Option<Seq<char>>,
) -> bool
    decreases a, 1int,
{
    same_entries(a, b, but) && has_names(a, b, but)
}

/// Whether two values are the same.
pub fn is_same(a: &Toml, b: &Toml) -> (r: bool)
    ensures
        r == same_value(*a, *b),
    decreases a,
{
    match (a, b) {
        (Toml::Text(x), Toml::Text(y)) => crate::text::same(x.as_str(), y.as_str()),
        (Toml::Integer(x), Toml::Integer(y)) => *x == *y,
        (Toml::Number(x), Toml::Number(y)) => *x == *y,
        (Toml::Bool(x), Toml::Bool(y)) => *x == *y,
        (Toml::Moment(x), Toml::Moment(y)) => crate::text::same(x.as_str(), y.as_str()),
        (Toml::List(x), Toml::List(y)) => are_same_items(x, y),
        (Toml::Table(x), Toml::Table(y)) => is_same_table(x, y, None),
        _ => false,
    }
}

/// Whether two lists hold the same values.
fn are_same_items(a: &Vec<Toml>, b: &Vec<Toml>) -> (r: bool)
    ensures
        r == same_items(a@, b@),
    decreases a,
{
    let mut i: usize = 0;
    assert(a@.skip(0) =~= a@);
    assert(b@.skip(0) =~= b@);
    while i < a.len() && i < b.len()
        invariant
            i <= a@.len(),
            i <= b@.len(),
            same_items(a@, b@) == same_items(a@.skip(i as int), b@.skip(i as int)),
        decreases a.len() - i,
    {
        let ghost x = a@.skip(i as int);
        let ghost y = b@.skip(i as int);
        assert(x[0] == a@[i as int] && y[0] == b@[i as int]);
        assert(x.drop_first() =~= a@.skip(i + 1));
        assert(y.drop_first() =~= b@.skip(i + 1));
        assert(decreases_to!(a => a@[i as int]));
        if !is_same(&a[i], &b[i]) {
            return false;
        }
        i = i + 1;
    }
    a.len() == b.len()
}

/// Whether a name is the one that is left out.
fn is_left_out(name: &str, but: Option<&str>) -> (r: bool)
    ensures
        r == (name_of(but) == Some(name@)),
{
    match but {
        Some(other) => crate::text::same(other, name),
        None => false,
    }
}

/// The characters of a name.
pub open spec fn name_of(name: Option<&str>) -> Option<Seq<char>> {
    match name {
        Some(text) => Some(text@),
        None => None,
    }
}

/// Whether two tables hold the same values under the same names, but for one
/// name.
pub fn is_same_table(a: &Vec<(String, Toml)>, b: &Vec<(String, Toml)>, but: Option<&str>) -> (r:
    bool)
    ensures
        r == same_table(a@, b@, name_of(but)),
    decreases a,
{
    let ghost left_out = name_of(but);
    let mut i: usize = 0;
    assert(a@.skip(0) =~= a@);
    while i < a.len()
        invariant
            i <= a@.len(),
            left_out == name_of(but),
            same_entries(a@, b@, left_out) == same_entries(a@.skip(i as int), b@, left_out),
        decreases a.len() - i,
    {
        let ghost x = a@.skip(i as int);
        assert(x[0] == a@[i as int]);
        assert(x.drop_first() =~= a@.skip(i + 1));
        if !is_left_out(a[i].0.as_str(), but) {
            assert(decreases_to!(a => a@[i as int].1));
            match find_entry(b, a[i].0.as_str()) {
                Some(value) => {
                    if !is_same(&a[i].1, value) {
                        return false;
                    }
                },
                None => return false,
            }
        }
        i = i + 1;
    }
    let mut j: usize = 0;
    while j < b.len()
        invariant
            j <= b@.len(),
            left_out == name_of(but),
            forall|k: int|
                0 <= k < j ==> left_out == Some((#[trigger] b@[k]).0@) || entry(
                    a@,
                    b@[k].0@,
                ) is Some,
        decreases b.len() - j,
    {
        if !is_left_out(b[j].0.as_str(), but) && find_entry(a, b[j].0.as_str()).is_none() {
            return false;
        }
        j = j + 1;
    }
    true
}

/// The entry of a name is the first with it, and there is none without one.
pub proof fn law_the_first_entry_is_found(entries: Seq<(String, Toml)>, name: Seq<char>, i: int)
    ensures
        entry(entries, name) is None <==> forall|j: int|
            0 <= j < entries.len() ==> (#[trigger] entries[j]).0@ != name,
        0 <= i < entries.len() && entries[i].0@ == name && (forall|j: int|
            0 <= j < i ==> (#[trigger] entries[j]).0@ != name) ==> entry(entries, name) == Some(
            entries[i].1,
        ),
    decreases entries.len(),
{
    if entries.len() > 0 {
        let rest = entries.drop_first();
        law_the_first_entry_is_found(rest, name, i - 1);
        if entry(entries, name) is None {
            assert forall|j: int| 0 <= j < entries.len() implies (#[trigger] entries[j]).0@
                != name by {
                if j > 0 {
                    assert(rest[j - 1] == entries[j]);
                }
            }
        }
        if forall|j: int| 0 <= j < entries.len() ==> (#[trigger] entries[j]).0@ != name {
            assert(entries[0].0@ != name);
            assert forall|j: int| 0 <= j < rest.len() implies (#[trigger] rest[j]).0@ != name by {
                assert(rest[j] == entries[j + 1]);
            }
        }
        if 0 < i < entries.len() && (forall|j: int|
            0 <= j < i ==> (#[trigger] entries[j]).0@ != name) {
            assert(rest[i - 1] == entries[i]);
            assert(entries[0].0@ != name);
            assert forall|j: int| 0 <= j < i - 1 implies (#[trigger] rest[j]).0@ != name by {
                assert(rest[j] == entries[j + 1]);
            }
        }
    }
}

/// Lists are the same if they have the same values at the same places.
pub proof fn law_lists_are_compared_place_by_place(a: Seq<Toml>, b: Seq<Toml>)
    ensures
        same_items(a, b) <==> a.len() == b.len() && forall|i: int|
            0 <= i < a.len() ==> same_value(#[trigger] a[i], b[i]),
    decreases a.len(),
{
    if a.len() > 0 && b.len() > 0 {
        let x = a.drop_first();
        let y = b.drop_first();
        law_lists_are_compared_place_by_place(x, y);
        if same_items(a, b) {
            assert forall|i: int| 0 <= i < a.len() implies same_value(#[trigger] a[i], b[i]) by {
                if i > 0 {
                    assert(x[i - 1] == a[i] && y[i - 1] == b[i]);
                }
            }
        }
        if a.len() == b.len() && forall|i: int|
            0 <= i < a.len() ==> same_value(#[trigger] a[i], b[i]) {
            assert(same_value(a[0], b[0]));
            assert forall|i: int| 0 <= i < x.len() implies same_value(#[trigger] x[i], y[i]) by {
                assert(x[i] == a[i + 1] && y[i] == b[i + 1]);
            }
        }
    }
}

/// Tables are the same, but for one name, if each has all names of the other,
/// with the same values.
pub proof fn law_tables_are_compared_name_by_name(
    a: Seq<(String, Toml)>,
    b: Seq<(String, Toml)>,
    but: Option<Seq<char>>,
)
    ensures
        same_entries(a, b, but) <==> forall|i: int|
            0 <= i < a.len() && but != Some((#[trigger] a[i]).0@) ==> entry(b, a[i].0@) is Some
                && same_value(a[i].1, entry(b, a[i].0@)->0),
        same_table(a, b, but) ==> forall|i: int|
            0 <= i < b.len() && but != Some((#[trigger] b[i]).0@) ==> entry(a, b[i].0@) is Some,
    decreases a.len(),
{
    if a.len() > 0 {
        let rest = a.drop_first();
        law_tables_are_compared_name_by_name(rest, b, but);
        if same_entries(a, b, but) {
            assert forall|i: int| 0 <= i < a.len() && but != Some((#[trigger] a[i]).0@) implies entry(
                b,
                a[i].0@,
            ) is Some && same_value(a[i].1, entry(b, a[i].0@)->0) by {
                if i > 0 {
                    assert(rest[i - 1] == a[i]);
                }
            }
        }
        if forall|i: int|
            0 <= i < a.len() && but != Some((#[trigger] a[i]).0@) ==> entry(b, a[i].0@) is Some
                && same_value(a[i].1, entry(b, a[i].0@)->0) {
            assert(but != Some(a[0].0@) ==> entry(b, a[0].0@) is Some && same_value(
                a[0].1,
                entry(b, a[0].0@)->0,
            ));
            assert forall|i: int|
                0 <= i < rest.len() && but != Some((#[trigger] rest[i]).0@) implies entry(
                b,
                rest[i].0@,
            ) is Some && same_value(rest[i].1, entry(b, rest[i].0@)->0) by {
                assert(rest[i] == a[i + 1]);
            }
        }
    }
}

/// Values of different kinds are never the same, and texts, numbers and moments
/// are the same when they are equal.
pub proof fn law_values_are_compared_by_kind(a: Toml, b: Toml)
    ensures
        same_value(a, b) ==> {
            ||| a is Text && b is Text
            ||| a is Integer && b is Integer
            ||| a is Number && b is Number
            ||| a is Bool && b is Bool
            ||| a is Moment && b is Moment
            ||| a is List && b is List
            ||| a is Table && b is Table
        },
        a is Text && b is Text ==> (same_value(a, b) <==> a->Text_0@ == b->Text_0@),
        a is Integer && b is Integer ==> (same_value(a, b) <==> a->Integer_0 == b->Integer_0),
        a is Number && b is Number ==> (same_value(a, b) <==> a->Number_0 == b->Number_0),
        a is Bool && b is Bool ==> (same_value(a, b) <==> a->Bool_0 == b->Bool_0),
        a is Moment && b is Moment ==> (same_value(a, b) <==> a->Moment_0@ == b->Moment_0@),
        a is List && b is List ==> (same_value(a, b) <==> same_items(a->List_0@, b->List_0@)),
        a is Table && b is Table ==> (same_value(a, b) <==> same_table(
            a->Table_0@,
            b->Table_0@,
            None,
        )),
{
}

} // verus!
