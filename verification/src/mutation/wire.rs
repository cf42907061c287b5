//! Diffs as JSON objects, as they are sent to the test plugin.
//!
//! Each object names its variant under `kind`, then holds the fields of the
//! variant.
use crate::mutation::diff::{BindScope, DiffView, MutationDiff, ScopeView};
use crate::tree::{
    holds, lay_out_texts, lemma_put_is_held, no_entries, put, text_views, Tree, TreeView,
};
use vstd::prelude::*;

verus! {

/// The views of texts as JSON values.
pub open spec fn name_views(names: Seq<Seq<char>>) -> Seq<TreeView> {
    names.map_values(|name: Seq<char>| TreeView::Text(name))
}

/// A scope as a JSON value.
pub open spec fn scope_object(scope: ScopeView) -> TreeView {
    match scope {
        ScopeView::Module => TreeView::Table(no_entries().push(("kind"@, TreeView::Text("module"@)))),
        ScopeView::Class { qualname } => TreeView::Table(
            no_entries().push(("kind"@, TreeView::Text("class"@))).push(
                ("qualname"@, TreeView::Text(qualname)),
            ),
        ),
    }
}

/// A diff as a JSON value.
pub open spec fn diff_object(diff: DiffView) -> TreeView {
    match diff {
        DiffView::FunctionBody { qualname, new_source } => TreeView::Table(
            no_entries().push(("kind"@, TreeView::Text("function_body"@))).push(
                ("qualname"@, TreeView::Text(qualname)),
            ).push(("new_source"@, TreeView::Text(new_source))),
        ),
        DiffView::StatementBind { names, stmt_source, scope } => TreeView::Table(
            no_entries().push(("kind"@, TreeView::Text("statement_bind"@))).push(
                ("names"@, TreeView::List(name_views(names))),
            ).push(("stmt_source"@, TreeView::Text(stmt_source))).push(
                ("scope"@, scope_object(scope)),
            ),
        ),
        DiffView::ClassMethod { class_qualname, method_name, new_source } => TreeView::Table(
            no_entries().push(("kind"@, TreeView::Text("class_method"@))).push(
                ("class_qualname"@, TreeView::Text(class_qualname)),
            ).push(("method_name"@, TreeView::Text(method_name))).push(
                ("new_source"@, TreeView::Text(new_source)),
            ),
        ),
        DiffView::ModuleAttr { name, new_source } => TreeView::Table(
            no_entries().push(("kind"@, TreeView::Text("module_attr"@))).push(
                ("name"@, TreeView::Text(name)),
            ).push(("new_source"@, TreeView::Text(new_source))),
        ),
    }
}

/// Lists of texts are laid out text by text.
proof fn lemma_text_views(list: Seq<String>)
    ensures
        text_views(list) == name_views(crate::text::texts(list)),
    decreases list.len(),
{
    if list.len() > 0 {
        lemma_text_views(list.drop_last());
        assert(crate::text::texts(list.drop_last()) =~= crate::text::texts(list).drop_last());
    }
    assert(text_views(list) =~= name_views(crate::text::texts(list)));
}

/// Lay a scope out as a JSON object.
pub fn lay_out_scope(scope: &BindScope) -> (r: Tree)
    ensures
        r@ == scope_object(scope@),
{
    let mut entries: Vec<(String, Tree)> = Vec::new();
    match scope {
        BindScope::Module => {
            put(&mut entries, "kind", Tree::Text("module".to_owned()));
        },
        BindScope::Class { qualname } => {
            put(&mut entries, "kind", Tree::Text("class".to_owned()));
            put(&mut entries, "qualname", Tree::Text(qualname.clone()));
        },
    }
    Tree::Table(entries)
}

/// Lay a diff out as a JSON object.
pub fn lay_out_diff(diff: &MutationDiff) -> (r: Tree)
    ensures
        r@ == diff_object(diff@),
{
    let mut entries: Vec<(String, Tree)> = Vec::new();
    match diff {
        MutationDiff::FunctionBody { qualname, new_source } => {
            put(&mut entries, "kind", Tree::Text("function_body".to_owned()));
            put(&mut entries, "qualname", Tree::Text(qualname.clone()));
            put(&mut entries, "new_source", Tree::Text(new_source.clone()));
        },
        MutationDiff::StatementBind { names, stmt_source, scope } => {
            proof {
                lemma_text_views(names@);
            }
            put(&mut entries, "kind", Tree::Text("statement_bind".to_owned()));
            put(&mut entries, "names", lay_out_texts(names));
            put(&mut entries, "stmt_source", Tree::Text(stmt_source.clone()));
            put(&mut entries, "scope", lay_out_scope(scope));
        },
        MutationDiff::ClassMethod { class_qualname, method_name, new_source } => {
            put(&mut entries, "kind", Tree::Text("class_method".to_owned()));
            put(&mut entries, "class_qualname", Tree::Text(class_qualname.clone()));
            put(&mut entries, "method_name", Tree::Text(method_name.clone()));
            put(&mut entries, "new_source", Tree::Text(new_source.clone()));
        },
        MutationDiff::ModuleAttr { name, new_source } => {
            put(&mut entries, "kind", Tree::Text("module_attr".to_owned()));
            put(&mut entries, "name", Tree::Text(name.clone()));
            put(&mut entries, "new_source", Tree::Text(new_source.clone()));
        },
    }
    Tree::Table(entries)
}

/// A scope is told by its kind, and a class by its name.
pub proof fn law_scopes_are_told_apart(qualname: Seq<char>)
    ensures
        holds(scope_object(ScopeView::Module), "kind"@, TreeView::Text("module"@)),
        holds(scope_object(ScopeView::Class { qualname }), "kind"@, TreeView::Text("class"@)),
        holds(
            scope_object(ScopeView::Class { qualname }),
            "qualname"@,
            TreeView::Text(qualname),
        ),
        scope_object(ScopeView::Module)->Table_0.len() == 1,
        scope_object(ScopeView::Class { qualname })->Table_0.len() == 2,
{
    broadcast use lemma_put_is_held;

}

/// A change is told by its kind, by what it is applied to, and by the new source.
pub proof fn law_changes_are_told(
    name: Seq<char>,
    method: Seq<char>,
    names: Seq<Seq<char>>,
    source: Seq<char>,
    scope: ScopeView,
)
    ensures
        ({
            let body = diff_object(
                DiffView::FunctionBody { qualname: name, new_source: source },
            );
            let bind = diff_object(
                DiffView::StatementBind { names, stmt_source: source, scope },
            );
            let own = diff_object(
                DiffView::ClassMethod {
                    class_qualname: name,
                    method_name: method,
                    new_source: source,
                },
            );
            let attr = diff_object(DiffView::ModuleAttr { name, new_source: source });
            &&& holds(body, "kind"@, TreeView::Text("function_body"@))
            &&& holds(body, "qualname"@, TreeView::Text(name))
            &&& holds(body, "new_source"@, TreeView::Text(source))
            &&& holds(bind, "kind"@, TreeView::Text("statement_bind"@))
            &&& holds(
                bind,
                "names"@,
                TreeView::List(Seq::new(names.len(), |i: int| TreeView::Text(names[i]))),
            )
            &&& holds(bind, "stmt_source"@, TreeView::Text(source))
            &&& holds(bind, "scope"@, scope_object(scope))
            &&& holds(own, "kind"@, TreeView::Text("class_method"@))
            &&& holds(own, "class_qualname"@, TreeView::Text(name))
            &&& holds(own, "method_name"@, TreeView::Text(method))
            &&& holds(own, "new_source"@, TreeView::Text(source))
            &&& holds(attr, "kind"@, TreeView::Text("module_attr"@))
            &&& holds(attr, "name"@, TreeView::Text(name))
            &&& holds(attr, "new_source"@, TreeView::Text(source))
            &&& body->Table_0.len() == 3
            &&& bind->Table_0.len() == 4
            &&& own->Table_0.len() == 4
            &&& attr->Table_0.len() == 3
        }),
{
    broadcast use lemma_put_is_held;

    assert(name_views(names) =~= Seq::new(names.len(), |i: int| TreeView::Text(names[i])));
}

} // verus!
