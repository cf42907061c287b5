//! The index of imports of a project.
use fest::plugin_index::{
    entry_action, path_to_module, scan_project, scan_source, EntryAction, ProjectFile,
};

#[test]
fn scan_source_resolves_bare_relative_one_dot() {
    let src = "from . import sibling\n";
    let index = scan_source(src, "myproj.subpkg.consumer", "c.py");
    assert_eq!(index.import_bindings.len(), 1);
    assert_eq!(index.import_bindings[0].target_module, "myproj.subpkg");
    assert_eq!(index.import_bindings[0].target_name, "sibling");
    assert_eq!(index.import_bindings[0].consumer_key, "sibling");
}

#[test]
fn scan_source_resolves_relative_two_dots() {
    let src = "from ..sibling_pkg import thing\n";
    let index = scan_source(src, "myproj.subpkg.consumer", "c.py");
    assert_eq!(index.import_bindings.len(), 1);
    assert_eq!(index.import_bindings[0].target_module, "myproj.sibling_pkg");
    assert_eq!(index.import_bindings[0].target_name, "thing");
}

#[test]
fn scan_source_extracts_simple_from_import() {
    let src = "from foo import bar\n";
    let index = scan_source(src, "myproj.consumer", "c.py");
    assert_eq!(index.import_bindings.len(), 1);
    assert_eq!(index.import_bindings[0].target_module, "foo");
    assert_eq!(index.import_bindings[0].target_name, "bar");
    assert_eq!(index.import_bindings[0].consumer_key, "bar");
}

#[test]
fn scan_source_handles_alias() {
    let src = "from foo import bar as baz\n";
    let index = scan_source(src, "m.c", "c.py");
    assert_eq!(index.import_bindings[0].consumer_key, "baz");
    assert_eq!(index.import_bindings[0].target_name, "bar");
}

#[test]
fn scan_source_handles_multi_name_import() {
    let src = "from foo import a, b as c, d\n";
    let index = scan_source(src, "m.c", "c.py");
    let keys: Vec<_> = index
        .import_bindings
        .iter()
        .map(|b| b.consumer_key.clone())
        .collect();
    assert_eq!(keys, vec!["a", "c", "d"]);
}

#[test]
fn aliased_reexport_records_target_and_local_names_separately() {
    let src = "from pkg.models import User as MyUser\n";
    let index = scan_source(src, "pkg.api", "pkg/api.py");
    assert_eq!(
        index.import_bindings.len(),
        1,
        "expected one binding for aliased import, got {:?}",
        index.import_bindings
    );
    let b = &index.import_bindings[0];
    assert_eq!(b.consumer_module, "pkg.api");
    assert_eq!(
        b.consumer_key, "MyUser",
        "consumer_key must be the alias (MyUser)"
    );
    assert_eq!(b.target_module, "pkg.models");
    assert_eq!(
        b.target_name, "User",
        "target_name must be the original name (User)"
    );
}

#[test]
fn aliased_reexport_without_as_keeps_names_equal() {
    let src = "from pkg.models import User\n";
    let index = scan_source(src, "pkg.api", "pkg/api.py");
    let b = &index.import_bindings[0];
    assert_eq!(b.consumer_key, "User");
    assert_eq!(b.target_name, "User");
}

#[test]
fn scan_source_resolves_relative_one_dot() {
    let src = "from .sib import x\n";
    let index = scan_source(src, "myproj.subpkg.consumer", "c.py");
    assert_eq!(index.import_bindings[0].target_module, "myproj.subpkg.sib");
}

#[test]
fn scan_source_detects_importlib_reload() {
    let src = "import importlib\nimportlib.reload(foo)\n";
    let index = scan_source(src, "m.c", "c.py");
    assert_eq!(index.reload_warnings.len(), 1);
    assert_eq!(index.reload_warnings[0].kind, "reload");
    assert_eq!(index.reload_warnings[0].line, 2);
}

#[test]
fn scan_source_detects_dynamic_import_module() {
    let src = "import importlib\nimportlib.import_module('foo')\n";
    let index = scan_source(src, "m.c", "c.py");
    assert!(
        index
            .reload_warnings
            .iter()
            .any(|w| w.kind == "import_module")
    );
}

#[test]
fn scan_source_detects_dunder_import() {
    let src = "__import__('foo')\n";
    let index = scan_source(src, "m.c", "c.py");
    assert!(index.reload_warnings.iter().any(|w| w.kind == "__import__"));
}

#[test]
fn scan_source_detects_static_all_literal() {
    let src = r#"
__all__ = ["User", "Group"]
class User: pass
class Group: pass
class _Private: pass
"#;
    let index = scan_source(src, "pkg.models", "pkg/models.py");
    assert_eq!(
        index.module_exports.get("pkg.models"),
        Some(&vec!["User".to_owned(), "Group".to_owned()]),
        "static __all__ list literal should populate module_exports",
    );
}

#[test]
fn scan_source_detects_static_all_tuple_literal() {
    let src = r#"__all__ = ("a", "b")
a = 1
b = 2
"#;
    let index = scan_source(src, "pkg.x", "pkg/x.py");
    assert_eq!(
        index.module_exports.get("pkg.x"),
        Some(&vec!["a".to_owned(), "b".to_owned()]),
        "static __all__ tuple literal should populate module_exports",
    );
}

#[test]
fn scan_source_detects_annotated_all_literal() {
    let src = "__all__: list[str] = [\"A\", \"B\"]\nA = 1\nB = 2\n";
    let index = scan_source(src, "pkg.ann", "pkg/ann.py");
    assert_eq!(
        index.module_exports.get("pkg.ann"),
        Some(&vec!["A".to_owned(), "B".to_owned()]),
        "annotated __all__ list literal should populate module_exports",
    );
}

#[test]
fn scan_source_skips_dynamic_all() {
    let src = "__all__ = [n for n in dir() if not n.startswith('_')]\n";
    let index = scan_source(src, "pkg.dyn", "pkg/dyn.py");
    assert!(
        index.module_exports.get("pkg.dyn").is_none(),
        "dynamic __all__ (list comp) should NOT produce static exports"
    );
}

#[test]
fn scan_source_skips_non_string_all() {
    // Mixed-type or non-string literals are ignored.
    let src = "__all__ = [1, 2]\n";
    let index = scan_source(src, "pkg.bad", "pkg/bad.py");
    assert!(
        index.module_exports.get("pkg.bad").is_none(),
        "non-string literal __all__ should be ignored"
    );
}

#[test]
fn scan_source_no_all_leaves_module_exports_empty() {
    let src = "class A: pass\nclass B: pass\n";
    let index = scan_source(src, "pkg.noall", "pkg/noall.py");
    assert!(
        index.module_exports.is_empty(),
        "modules without __all__ should not appear in module_exports"
    );
}

#[test]
fn star_import_resolves_via_static_all() {
    let api = "from .models import *\n";
    let models = "__all__ = [\"User\", \"Group\"]\nclass User: pass\nclass Group: pass\nclass \
                  _P: pass\n";
    let mut index = scan_source(api, "pkg.api", "pkg/api.py");
    let mods = scan_source(models, "pkg.models", "pkg/models.py");
    index.merge(mods);
    index.resolve_star_imports();

    let names: Vec<String> = index
        .import_bindings
        .iter()
        .filter(|b| b.consumer_module == "pkg.api" && b.target_module == "pkg.models")
        .map(|b| b.target_name.clone())
        .collect();
    assert_eq!(names, vec!["User".to_owned(), "Group".to_owned()]);
    assert!(
        index.pending_star_imports.is_empty(),
        "static resolution should leave no pending entries"
    );
}

#[test]
fn star_import_without_all_falls_through_to_pending() {
    let api = "from .models import *\n";
    let models = "class Open: pass\nclass _Hidden: pass\n"; // no __all__
    let mut index = scan_source(api, "pkg.api", "pkg/api.py");
    let mods = scan_source(models, "pkg.models", "pkg/models.py");
    index.merge(mods);
    index.resolve_star_imports();

    assert!(
        !index.pending_star_imports.is_empty(),
        "missing __all__ should leave a pending entry for runtime resolution"
    );
    assert_eq!(index.pending_star_imports[0].consumer_module, "pkg.api");
    assert_eq!(index.pending_star_imports[0].target_module, "pkg.models");
    // The placeholder should not still be in import_bindings.
    let star_count = index
        .import_bindings
        .iter()
        .filter(|b| b.target_name == "*")
        .count();
    assert_eq!(
        star_count, 0,
        "star placeholders should be removed after resolve"
    );
}

#[test]
fn star_import_resolution_is_idempotent() {
    let api = "from .models import *\n";
    let models = "__all__ = [\"A\"]\nclass A: pass\n";
    let mut index = scan_source(api, "pkg.api", "pkg/api.py");
    let mods = scan_source(models, "pkg.models", "pkg/models.py");
    index.merge(mods);
    index.resolve_star_imports();
    let count_after_first = index.import_bindings.len();
    index.resolve_star_imports();
    assert_eq!(
        index.import_bindings.len(),
        count_after_first,
        "second resolve should be a no-op"
    );
}

/// A file of a project.
fn file(path: &str, source: &str) -> ProjectFile {
    ProjectFile { path: path.to_owned(), source: Some(source.to_owned()) }
}

#[test]
fn scan_project_walks_all_py_files() {
    let index = scan_project(
        "/root",
        &[
            file("/root/pkg/__init__.py", ""),
            file("/root/pkg/a.py", "from pkg.b import x\n"),
            file("/root/pkg/b.py", "x = 1\n"),
        ],
    );
    assert_eq!(index.import_bindings.len(), 1);
    assert_eq!(index.import_bindings[0].target_module, "pkg.b");
    assert_eq!(index.import_bindings[0].consumer_module, "pkg.a");
}

#[test]
fn scan_project_skips_pycache_directories() {
    assert_eq!(entry_action("__pycache__", false, true), EntryAction::Skip);
    assert_eq!(entry_action("pkg", false, true), EntryAction::Descend);
    assert_eq!(entry_action("__init__.py", false, false), EntryAction::Scan);
    assert_eq!(entry_action("notes.txt", false, false), EntryAction::Skip);
}

#[test]
fn scan_project_does_not_follow_symlinked_directories() {
    assert_eq!(entry_action("link", true, true), EntryAction::Skip);
    assert_eq!(entry_action("real", false, true), EntryAction::Descend);
}

#[test]
fn unreadable_files_add_nothing() {
    let files = [ProjectFile { path: "/root/a.py".to_owned(), source: None }];
    let index = scan_project("/root", &files);
    assert!(index.import_bindings.is_empty());
    assert!(index.reload_warnings.is_empty());
}

#[test]
fn module_names_follow_paths() {
    assert_eq!(path_to_module("/root", "/root/pkg/sub/mod.py"), "pkg.sub.mod");
    assert_eq!(path_to_module("/root", "/root/pkg/__init__.py"), "pkg");
}
