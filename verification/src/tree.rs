//! JSON values to be written, with the `serde_json` crate.
use vstd::prelude::*;

verus! {

/// A JSON value to be written.
#[derive(Debug)]
pub enum Tree {
    Null,
    Number(u64),
    Text(String),
    List(Vec<Tree>),
    /// The entries of an object, in the order in which they are written.
    Table(Vec<(String, Tree)>),
}

/// A JSON value as a mathematical value.
pub enum TreeView {
    Null,
    Number(nat),
    Text(Seq<char>),
    List(Seq<TreeView>),
    Table(Seq<(Seq<char>, TreeView)>),
}

impl View for Tree {
    type V = TreeView;

    open spec fn view(&self) -> TreeView {
        tree_view(*self)
    }
}

/// A JSON value as a mathematical value.
pub open spec fn tree_view(tree: Tree) -> TreeView
    decreases tree,
{
    match tree {
        Tree::Null => TreeView::Null,
        Tree::Number(n) => TreeView::Number(n as nat),
        Tree::Text(s) => TreeView::Text(s@),
        Tree::List(list) => TreeView::List(list_view(list@)),
        Tree::Table(entries) => TreeView::Table(table_view(entries@)),
    }
}

/// The items of a list as mathematical values.
pub open spec fn list_view(list: Seq<Tree>) -> Seq<TreeView>
    decreases list,
{
    if list.len() == 0 {
        Seq::empty()
    } else {
        list_view(list.drop_last()).push(tree_view(list.last()))
    }
}

/// The entries of an object as mathematical values.
pub open spec fn table_view(entries: Seq<(String, Tree)>) -> Seq<(Seq<char>, TreeView)>
    decreases entries,
{
    if entries.len() == 0 {
        Seq::empty()
    } else {
        table_view(entries.drop_last()).push((entries.last().0@, tree_view(entries.last().1)))
    }
}

/// Whether a text was written.
pub open spec fn is_written(r: Result<String, String>, text: Seq<char>) -> bool {
    match r {
        Ok(written) => written@ == text,
        Err(_) => false,
    }
}

/// `serde_json::Value`, carried but not looked into.
#[verifier::external_type_specification]
#[verifier::external_body]
pub struct ExValue(serde_json::Value);

/// What `serde_json::to_string_pretty` writes for a value.
pub uninterp spec fn pretty(tree: TreeView) -> Seq<char>;

/// Calls `serde_json::to_string_pretty`, whose result depends on the value
/// alone. It succeeds: writing to a string does not fail, and all keys are
/// strings.
#[verifier::external_body]
pub(crate) fn to_pretty(tree: &Tree) -> (r: Result<String, String>)
    ensures
        is_written(r, pretty(tree@)),
{
    serde_json::to_string_pretty(&to_value(tree)).map_err(|err| err.to_string())
}

/// What `serde_json::to_string` writes for a value.
pub uninterp spec fn compact(tree: TreeView) -> Seq<char>;

/// Calls `serde_json::to_string`, whose result depends on the value alone. It
/// succeeds: writing to a string does not fail, and all keys are strings.
#[verifier::external_body]
fn to_compact(tree: &Tree) -> (r: Result<String, String>)
    ensures
        is_written(r, compact(tree@)),
{
    serde_json::to_string(&to_value(tree)).map_err(|err| err.to_string())
}

/// The `serde_json::Value` for a value.
#[verifier::external_body]
fn to_value(tree: &Tree) -> serde_json::Value {
    match tree {
        Tree::Null => serde_json::Value::Null,
        Tree::Number(n) => serde_json::Value::from(*n),
        Tree::Text(s) => serde_json::Value::from(s.as_str()),
        Tree::List(list) => serde_json::Value::Array(list.iter().map(to_value).collect()),
        Tree::Table(entries) => serde_json::Value::Object(
            entries.iter().map(|(key, value)| (key.clone(), to_value(value))).collect(),
        ),
    }
}

/// The object without entries.
pub open spec fn no_entries() -> Seq<(Seq<char>, TreeView)> {
    Seq::empty()
}

/// Texts as JSON values.
pub open spec fn text_views(list: Seq<String>) -> Seq<TreeView>
    decreases list.len(),
{
    if list.len() == 0 {
        Seq::empty()
    } else {
        text_views(list.drop_last()).push(TreeView::Text(list.last()@))
    }
}

/// Adds an entry to an object.
pub fn put(entries: &mut Vec<(String, Tree)>, key: &str, value: Tree)
    ensures
        table_view(final(entries)@) == table_view(old(entries)@).push((key@, value@)),
{
    let ghost before = entries@;
    let name: String = key.to_owned();
    entries.push((name, value));
    assert(entries@.drop_last() =~= before);
    assert(entries@.last() == (name, value));
}

/// Lays out a list of texts.
pub fn lay_out_texts(list: &Vec<String>) -> (r: Tree)
    ensures
        r@ == TreeView::List(text_views(list@)),
{
    let mut items: Vec<Tree> = Vec::new();
    let mut i: usize = 0;
    while i < list.len()
        invariant
            i <= list@.len(),
            list_view(items@) == text_views(list@.take(i as int)),
        decreases list.len() - i,
    {
        let ghost before = items@;
        assert(list@.take(i + 1).drop_last() =~= list@.take(i as int));
        let item: Tree = Tree::Text(list[i].clone());
        assert(item@ == TreeView::Text(list@[i as int]@));
        items.push(item);
        assert(items@.drop_last() =~= before);
        assert(items@.last() == item);
        i = i + 1;
    }
    assert(list@.take(i as int) =~= list@);
    Tree::List(items)
}

/// Writes a value on one line.
pub fn to_line(tree: &Tree) -> (r: String)
    ensures
        r@ == compact(tree@),
{
    match to_compact(tree) {
        Ok(text) => text,
        Err(message) => message,
    }
}

/// Whether a tree is a table with a value under a key.
pub open spec fn holds(tree: TreeView, key: Seq<char>, value: TreeView) -> bool {
    &&& tree matches TreeView::Table(entries)
    &&& entries.contains((key, value))
}

/// Texts are laid out one for one, in their order.
pub proof fn law_texts_are_laid_out_one_for_one(list: Seq<String>)
    ensures
        text_views(list) == list.map_values(|t: String| TreeView::Text(t@)),
    decreases list.len(),
{
    if list.len() > 0 {
        law_texts_are_laid_out_one_for_one(list.drop_last());
        assert(text_views(list) =~= list.map_values(|t: String| TreeView::Text(t@)));
    }
}

/// An entry that was put into a table is held by it.
pub broadcast proof fn lemma_put_is_held(
    entries: Seq<(Seq<char>, TreeView)>,
    last: (Seq<char>, TreeView),
    entry: (Seq<char>, TreeView),
)
    requires
        entries.contains(entry) || last == entry,
    ensures
        #[trigger] entries.push(last).contains(entry),
{
    if entries.contains(entry) {
        let i = choose|i: int| 0 <= i < entries.len() && entries[i] == entry;
        assert(entries.push(last)[i] == entry);
    } else {
        assert(entries.push(last)[entries.len() as int] == entry);
    }
}

} // verus!
