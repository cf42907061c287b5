//! Structural diffs of mutants.
use fest::ast::Module;
use fest::mutation::diff::{derive_diff, mutated_stmt_end, BindScope, MutationDiff};
use fest::mutation::mutant::{Mutant, SkipReason};
use fest::mutation::wire::{lay_out_diff, lay_out_scope};
use fest::parse::parse_module;
use fest::tree::to_line;

fn parse(src: &str) -> Module {
    parse_module(src).expect("valid python")
}

fn make_mutant(file: &str, original: &str, mutated: &str, byte_offset: usize) -> Mutant {
    Mutant {
        file_path: file.to_owned(),
        line: 1,
        column: 1,
        byte_offset,
        byte_length: original.len(),
        original_text: original.to_owned(),
        mutated_text: mutated.to_owned(),
        mutator_name: "test".to_owned(),
    }
}

#[test]
fn subscript_target_yields_unmappable_target() {
    let src = "d = {}\nd['k'] = 1\n";
    let mutated = "d = {}\nd['k'] = 2\n";
    let module = parse(src);
    let off = src.find("'k'] = 1").unwrap() + "'k'] = ".len();
    let mutant = Mutant {
        file_path: "m.py".into(),
        line: 2,
        column: 9,
        byte_offset: off,
        byte_length: 1,
        original_text: "1".into(),
        mutated_text: "2".into(),
        mutator_name: "constant".into(),
    };
    let diff = derive_diff(&mutant, &module, &module, mutated);
    assert_eq!(
        diff,
        Err(SkipReason::UnmappableTarget),
        "subscript target d['k'] = ... is unmappable, expected UnmappableTarget, got {diff:?}"
    );
}

#[test]
fn attribute_target_yields_unmappable_target() {
    let src = "class C: pass\nobj = C()\nobj.x = 1\n";
    let mutated = "class C: pass\nobj = C()\nobj.x = 2\n";
    let module = parse(src);
    let off = src.find("obj.x = 1").unwrap() + "obj.x = ".len();
    let mutant = Mutant {
        file_path: "m.py".into(),
        line: 3,
        column: 9,
        byte_offset: off,
        byte_length: 1,
        original_text: "1".into(),
        mutated_text: "2".into(),
        mutator_name: "constant".into(),
    };
    let diff = derive_diff(&mutant, &module, &module, mutated);
    assert_eq!(
        diff,
        Err(SkipReason::UnmappableTarget),
        "attribute target obj.x = ... is unmappable, expected UnmappableTarget, got {diff:?}"
    );
}

#[test]
fn top_level_function_body_yields_function_body_variant() {
    let original_src = "def add(a, b):\n    return a + b\n";
    let mutated_src = "def add(a, b):\n    return a - b\n";
    let original_ast = parse(original_src);
    let mutated_ast = parse(mutated_src);
    let plus_offset = original_src.find('+').unwrap();
    let mutant = make_mutant("calc.py", "+", "-", plus_offset);

    let diffs = derive_diff(&mutant, &original_ast, &mutated_ast, mutated_src)
        .expect("derive_diff should succeed");

    assert_eq!(diffs.len(), 1);
    match &diffs[0] {
        MutationDiff::FunctionBody {
            qualname,
            new_source,
        } => {
            assert_eq!(qualname, "add");
            assert!(new_source.starts_with("def add"));
            assert!(new_source.contains("return a - b"));
        }
        other => panic!("expected FunctionBody, got {other:?}"),
    }
}

#[test]
fn module_level_constant_yields_statement_bind_variant() {
    let original_src = "MAX = 100\n";
    let mutated_src = "MAX = 101\n";
    let original_ast = parse(original_src);
    let mutated_ast = parse(mutated_src);
    let mutant = make_mutant("config.py", "100", "101", 6);

    let diffs = derive_diff(&mutant, &original_ast, &mutated_ast, mutated_src)
        .expect("derive_diff should succeed");

    assert_eq!(diffs.len(), 1);
    match &diffs[0] {
        MutationDiff::StatementBind {
            names,
            stmt_source,
            scope,
        } => {
            assert_eq!(names, &["MAX"]);
            assert!(stmt_source.contains("101"), "stmt_source={stmt_source:?}");
            assert_eq!(*scope, BindScope::Module);
        }
        other => panic!("expected StatementBind, got {other:?}"),
    }
}

#[test]
fn statement_bind_handles_shrinking_mutation() {
    // "100" -> "1" — shrinks by 2 bytes.
    let original_src = "MAX = 100\n";
    let mutated_src = "MAX = 1\n";
    let original_ast = parse(original_src);
    let mutated_ast = parse(mutated_src);
    let mutant = Mutant {
        file_path: "config.py".into(),
        line: 1,
        column: 1,
        byte_offset: 6,
        byte_length: 3,
        original_text: "100".to_owned(),
        mutated_text: "1".to_owned(),
        mutator_name: "test".to_owned(),
    };
    let diffs = derive_diff(&mutant, &original_ast, &mutated_ast, mutated_src)
        .expect("derive_diff should succeed");
    assert_eq!(diffs.len(), 1);
    match &diffs[0] {
        MutationDiff::StatementBind {
            names,
            stmt_source,
            scope,
        } => {
            assert_eq!(names, &["MAX"]);
            assert!(stmt_source.contains("1"), "stmt_source={stmt_source:?}");
            assert_eq!(*scope, BindScope::Module);
        }
        other => panic!("expected StatementBind, got {other:?}"),
    }
}

#[test]
fn class_method_body_yields_class_method_variant() {
    let original_src = "class Calc:\n    def add(self, a, b):\n        return a + b\n";
    let mutated_src = "class Calc:\n    def add(self, a, b):\n        return a - b\n";
    let original_ast = parse(original_src);
    let mutated_ast = parse(mutated_src);
    let plus_offset = original_src.find('+').unwrap();
    let mutant = make_mutant("calc.py", "+", "-", plus_offset);

    let diffs = derive_diff(&mutant, &original_ast, &mutated_ast, mutated_src)
        .expect("derive_diff should succeed");

    assert_eq!(diffs.len(), 1);
    match &diffs[0] {
        MutationDiff::ClassMethod {
            class_qualname,
            method_name,
            new_source,
        } => {
            assert_eq!(class_qualname, "Calc");
            assert_eq!(method_name, "add");
            assert!(new_source.contains("return a - b"));
        }
        other => panic!("expected ClassMethod, got {other:?}"),
    }
}

#[test]
fn class_attr_yields_statement_bind_class_variant() {
    let original_src = "class Cfg:\n    LIMIT = 10\n";
    let mutated_src = "class Cfg:\n    LIMIT = 11\n";
    let original_ast = parse(original_src);
    let mutated_ast = parse(mutated_src);
    let offset = original_src.find("10").unwrap();
    let mutant = make_mutant("cfg.py", "10", "11", offset);

    let diffs = derive_diff(&mutant, &original_ast, &mutated_ast, mutated_src)
        .expect("derive_diff should succeed");

    assert_eq!(diffs.len(), 1);
    match &diffs[0] {
        MutationDiff::StatementBind {
            names,
            stmt_source,
            scope,
        } => {
            assert_eq!(names, &["LIMIT"]);
            assert!(stmt_source.contains("11"), "stmt_source={stmt_source:?}");
            assert_eq!(
                *scope,
                BindScope::Class {
                    qualname: "Cfg".to_owned()
                }
            );
        }
        other => panic!("expected StatementBind (class scope), got {other:?}"),
    }
}

#[test]
fn class_scope_assign_yields_statement_bind_class() {
    let src = "class C:\n    X = 5\n";
    let mutated = "class C:\n    X = 6\n";
    let module = parse(src);
    let off = src.find("X = 5").unwrap() + "X = ".len();
    let mutant = Mutant {
        file_path: "m.py".to_owned(),
        line: 2,
        column: 9,
        byte_offset: off,
        byte_length: 1,
        original_text: "5".into(),
        mutated_text: "6".into(),
        mutator_name: "constant".into(),
    };
    let diff = derive_diff(&mutant, &module, &module, mutated);
    assert_eq!(
        diff,
        Ok(vec![MutationDiff::StatementBind {
            names: vec!["X".to_owned()],
            stmt_source: "X = 6".to_owned(),
            scope: BindScope::Class {
                qualname: "C".to_owned()
            },
        }])
    );
}

#[test]
fn class_scope_annotated_assign_yields_statement_bind_class() {
    let src = "class C:\n    X: int = 5\n";
    let mutated = "class C:\n    X: int = 6\n";
    let module = parse(src);
    let off = src.find("X: int = 5").unwrap() + "X: int = ".len();
    let mutant = Mutant {
        file_path: "m.py".to_owned(),
        line: 2,
        column: 14,
        byte_offset: off,
        byte_length: 1,
        original_text: "5".into(),
        mutated_text: "6".into(),
        mutator_name: "constant".into(),
    };
    let diff = derive_diff(&mutant, &module, &module, mutated);
    assert_eq!(
        diff,
        Ok(vec![MutationDiff::StatementBind {
            names: vec!["X".to_owned()],
            stmt_source: "X: int = 6".to_owned(),
            scope: BindScope::Class {
                qualname: "C".to_owned()
            },
        }])
    );
}

#[test]
fn nested_function_yields_dotted_qualname() {
    let original_src = "def outer():\n    def inner():\n        return 1\n    return inner\n";
    let mutated_src = "def outer():\n    def inner():\n        return 2\n    return inner\n";
    let original_ast = parse(original_src);
    let mutated_ast = parse(mutated_src);
    let offset = original_src.find("1\n").unwrap();
    let mutant = make_mutant("nested.py", "1", "2", offset);

    let diffs = derive_diff(&mutant, &original_ast, &mutated_ast, mutated_src)
        .expect("derive_diff should succeed");

    assert_eq!(diffs.len(), 1);
    match &diffs[0] {
        MutationDiff::FunctionBody {
            qualname,
            new_source,
        } => {
            assert_eq!(qualname, "outer.inner");
            assert!(new_source.contains("return 2"));
            assert!(new_source.starts_with("def inner"));
        }
        other => panic!("expected FunctionBody for outer.inner, got {other:?}"),
    }
}

#[test]
fn decorator_removal_yields_module_attr_variant() {
    let original_src = "@cache\ndef foo():\n    return 1\n";
    let mutated_src = "def foo():\n    return 1\n";
    let original_ast = parse(original_src);
    let mutated_ast = parse(mutated_src);
    let mutant = Mutant {
        file_path: "decor.py".into(),
        line: 1,
        column: 1,
        byte_offset: 0,
        byte_length: "@cache\n".len(),
        original_text: "@cache\n".into(),
        mutated_text: String::new(),
        mutator_name: "remove_decorator".to_owned(),
    };

    let diffs = derive_diff(&mutant, &original_ast, &mutated_ast, mutated_src)
        .expect("derive_diff should succeed");

    assert_eq!(diffs.len(), 1);
    match &diffs[0] {
        MutationDiff::ModuleAttr { name, new_source } => {
            assert_eq!(name, "foo");
            assert!(new_source.contains("def foo"));
            assert!(!new_source.contains("@cache"));
        }
        other => panic!("expected ModuleAttr, got {other:?}"),
    }
}

#[test]
fn shrinking_mutation_does_not_panic_or_underflow() {
    // Decorator removal: replaces "@cache\n" with "" — mutated_text shorter than byte_length.
    let original_src = "@cache\ndef foo():\n    return 1\n";
    let mutated_src = "def foo():\n    return 1\n";
    let original_ast = parse(original_src);
    let mutated_ast = parse(mutated_src);
    let mutant = Mutant {
        file_path: "f.py".into(),
        line: 1,
        column: 1,
        byte_offset: 0,
        byte_length: "@cache\n".len(),
        original_text: "@cache\n".into(),
        mutated_text: String::new(),
        mutator_name: "remove_decorator".to_owned(),
    };
    // Must not panic.
    drop(derive_diff(
        &mutant,
        &original_ast,
        &mutated_ast,
        mutated_src,
    ));
}

#[test]
fn property_setter_yields_fset_suffix() {
    let original_src =
        "class Foo:\n    @x.setter\n    def x(self, v):\n        self._x = v + 1\n";
    let mutated_src =
        "class Foo:\n    @x.setter\n    def x(self, v):\n        self._x = v - 1\n";
    let original_ast = parse(original_src);
    let mutated_ast = parse(mutated_src);
    let plus_offset = original_src.find("v + 1").unwrap() + 2;
    let mutant = make_mutant("p.py", "+", "-", plus_offset);

    let diffs = derive_diff(&mutant, &original_ast, &mutated_ast, mutated_src)
        .expect("derive_diff should succeed");
    assert_eq!(diffs.len(), 1);
    match &diffs[0] {
        MutationDiff::ClassMethod {
            class_qualname,
            method_name,
            ..
        } => {
            assert_eq!(class_qualname, "Foo");
            assert_eq!(method_name, "x.fset");
        }
        other => panic!("expected ClassMethod with x.fset, got {other:?}"),
    }
}

#[test]
fn aug_assign_yields_statement_bind_with_full_stmt() {
    let src = "COUNTER = 0\nCOUNTER += 1\n";
    let mutated = "COUNTER = 0\nCOUNTER += 2\n";
    let module = parse(src);
    // Locate the "1" inside `+= 1`. Compute dynamically to avoid drift.
    let off = src.find("+= 1").unwrap() + "+= ".len();
    let mutant = Mutant {
        file_path: "m.py".into(),
        line: 2,
        column: 11,
        byte_offset: off,
        byte_length: 1,
        original_text: "1".into(),
        mutated_text: "2".into(),
        mutator_name: "constant".into(),
    };
    let diff = derive_diff(&mutant, &module, &module, mutated);
    assert_eq!(
        diff,
        Ok(vec![MutationDiff::StatementBind {
            names: vec!["COUNTER".to_owned()],
            stmt_source: "COUNTER += 2".to_owned(),
            scope: BindScope::Module,
        }])
    );
}

#[test]
fn bare_assign_emits_statement_bind_module_scope() {
    let original = "X = 5\n";
    let mutated = "X = 6\n";
    let module = parse(original);
    let mutant = Mutant {
        file_path: "m.py".into(),
        line: 1,
        column: 5,
        byte_offset: 4, // position of "5"
        byte_length: 1,
        original_text: "5".into(),
        mutated_text: "6".into(),
        mutator_name: "constant".into(),
    };
    let diff = derive_diff(&mutant, &module, &module, mutated);
    assert_eq!(
        diff,
        Ok(vec![MutationDiff::StatementBind {
            names: vec!["X".to_owned()],
            stmt_source: "X = 6".to_owned(),
            scope: BindScope::Module,
        }])
    );
}

#[test]
fn module_scope_annotated_assign_yields_statement_bind() {
    let src = "X: int = 5\n";
    let mutated = "X: int = 6\n";
    let module = parse(src);
    let mutant = Mutant {
        file_path: "m.py".into(),
        line: 1,
        column: 9,
        byte_offset: 9,
        byte_length: 1,
        original_text: "5".into(),
        mutated_text: "6".into(),
        mutator_name: "constant".into(),
    };
    let diff = derive_diff(&mutant, &module, &module, mutated);
    assert_eq!(
        diff,
        Ok(vec![MutationDiff::StatementBind {
            names: vec!["X".to_owned()],
            stmt_source: "X: int = 6".to_owned(),
            scope: BindScope::Module,
        }])
    );
}

#[test]
fn module_scope_annotation_only_no_value_yields_unsupported_statement() {
    // X: int (no value) — nothing to bind, derive_diff returns UnsupportedStatement.
    let src = "X: int\nY = 5\n";
    let mutated = "X: int\nY = 6\n";
    let module = parse(src);
    let mutant = Mutant {
        file_path: "m.py".into(),
        // Point mutant at the annotation line and verify UnsupportedStatement.
        line: 1,
        column: 3,
        byte_offset: 3,
        byte_length: 3, // "int" position
        original_text: "int".into(),
        mutated_text: "str".into(),
        mutator_name: "constant".into(),
    };
    let diff = derive_diff(&mutant, &module, &module, mutated);
    // AnnAssign with no value yields UnsupportedStatement (no binding to derive).
    assert_eq!(
        diff,
        Err(SkipReason::UnsupportedStatement),
        "annotation-only AnnAssign should return UnsupportedStatement"
    );
}

#[test]
fn property_deleter_yields_fdel_suffix() {
    let original_src = "class Foo:\n    @x.deleter\n    def x(self):\n        self._x = 1\n";
    let mutated_src = "class Foo:\n    @x.deleter\n    def x(self):\n        self._x = 2\n";
    let original_ast = parse(original_src);
    let mutated_ast = parse(mutated_src);
    let offset = original_src.find("= 1").unwrap() + 2;
    let mutant = make_mutant("p.py", "1", "2", offset);

    let diffs = derive_diff(&mutant, &original_ast, &mutated_ast, mutated_src)
        .expect("derive_diff should succeed");
    assert_eq!(diffs.len(), 1);
    match &diffs[0] {
        MutationDiff::ClassMethod {
            class_qualname,
            method_name,
            ..
        } => {
            assert_eq!(class_qualname, "Foo");
            assert_eq!(method_name, "x.fdel");
        }
        other => panic!("expected ClassMethod with x.fdel, got {other:?}"),
    }
}

#[test]
fn tuple_unpack_yields_multi_name_bind() {
    let src = "a, b = 1, 2\n";
    let mutated = "a, b = 1, 3\n";
    let module = parse(src);
    let off = src.find(", 2").unwrap() + ", ".len();
    let mutant = Mutant {
        file_path: "m.py".into(),
        line: 1,
        column: 10,
        byte_offset: off,
        byte_length: 1,
        original_text: "2".into(),
        mutated_text: "3".into(),
        mutator_name: "constant".into(),
    };
    let diff = derive_diff(&mutant, &module, &module, mutated);
    assert_eq!(
        diff,
        Ok(vec![MutationDiff::StatementBind {
            names: vec!["a".to_owned(), "b".to_owned()],
            stmt_source: "a, b = 1, 3".to_owned(),
            scope: BindScope::Module,
        }])
    );
}

#[test]
fn chained_assign_yields_multi_name_bind() {
    let src = "a = b = 5\n";
    let mutated = "a = b = 6\n";
    let module = parse(src);
    let off = src.find("= 5").unwrap() + "= ".len();
    let mutant = Mutant {
        file_path: "m.py".into(),
        line: 1,
        column: 8,
        byte_offset: off,
        byte_length: 1,
        original_text: "5".into(),
        mutated_text: "6".into(),
        mutator_name: "constant".into(),
    };
    let diff = derive_diff(&mutant, &module, &module, mutated);
    // Multi-target chains: Python AST gives targets = [a, b]. Order matches AST.
    assert_eq!(
        diff,
        Ok(vec![MutationDiff::StatementBind {
            names: vec!["a".to_owned(), "b".to_owned()],
            stmt_source: "a = b = 6".to_owned(),
            scope: BindScope::Module,
        }])
    );
}

#[test]
fn mutation_inside_if_body_recurses() {
    let src = "import sys\nif sys.version_info >= (3, 11):\n    X = 5\n";
    let mutated = "import sys\nif sys.version_info >= (3, 11):\n    X = 6\n";
    let module = parse(src);
    let off = src.find("X = 5").unwrap() + "X = ".len();
    let mutant = Mutant {
        file_path: "m.py".to_owned(),
        line: 3,
        column: 9,
        byte_offset: off,
        byte_length: 1,
        original_text: "5".into(),
        mutated_text: "6".into(),
        mutator_name: "constant".into(),
    };
    let diff = derive_diff(&mutant, &module, &module, mutated);
    assert_eq!(
        diff,
        Ok(vec![MutationDiff::StatementBind {
            names: vec!["X".to_owned()],
            stmt_source: "X = 6".to_owned(),
            scope: BindScope::Module,
        }])
    );
}

#[test]
fn mutation_inside_if_orelse_recurses() {
    let src = "if False:\n    X = 1\nelse:\n    X = 2\n";
    let mutated = "if False:\n    X = 1\nelse:\n    X = 3\n";
    let module = parse(src);
    let off = src.rfind("X = 2").unwrap() + "X = ".len();
    let mutant = Mutant {
        file_path: "m.py".to_owned(),
        line: 4,
        column: 9,
        byte_offset: off,
        byte_length: 1,
        original_text: "2".into(),
        mutated_text: "3".into(),
        mutator_name: "constant".into(),
    };
    let diff = derive_diff(&mutant, &module, &module, mutated);
    assert!(
        matches!(diff, Ok(ref v) if matches!(v.as_slice(), [MutationDiff::StatementBind { .. }])),
        "expected StatementBind from else branch, got {diff:?}"
    );
}

#[test]
fn mutation_inside_try_handler_recurses() {
    let src = "try:\n    X = 1\nexcept Exception:\n    X = 2\n";
    let mutated = "try:\n    X = 1\nexcept Exception:\n    X = 3\n";
    let module = parse(src);
    let off = src.rfind("X = 2").unwrap() + "X = ".len();
    let mutant = Mutant {
        file_path: "m.py".to_owned(),
        line: 4,
        column: 9,
        byte_offset: off,
        byte_length: 1,
        original_text: "2".into(),
        mutated_text: "3".into(),
        mutator_name: "constant".into(),
    };
    let diff = derive_diff(&mutant, &module, &module, mutated);
    assert!(
        matches!(diff, Ok(ref v) if matches!(v.as_slice(), [MutationDiff::StatementBind { .. }])),
        "expected StatementBind from try handler, got {diff:?}"
    );
}

#[test]
fn mutation_inside_for_body_recurses() {
    let src = "for i in range(3):\n    X = 1\n";
    let mutated = "for i in range(3):\n    X = 2\n";
    let module = parse(src);
    let off = src.find("X = 1").unwrap() + "X = ".len();
    let mutant = Mutant {
        file_path: "m.py".to_owned(),
        line: 2,
        column: 9,
        byte_offset: off,
        byte_length: 1,
        original_text: "1".into(),
        mutated_text: "2".into(),
        mutator_name: "constant".into(),
    };
    let diff = derive_diff(&mutant, &module, &module, mutated);
    assert!(
        matches!(diff, Ok(ref v) if matches!(v.as_slice(), [MutationDiff::StatementBind { .. }])),
        "expected StatementBind from for body, got {diff:?}"
    );
}

#[test]
fn mutation_inside_while_body_recurses() {
    let src = "while True:\n    X = 1\n    break\n";
    let mutated = "while True:\n    X = 2\n    break\n";
    let module = parse(src);
    let off = src.find("X = 1").unwrap() + "X = ".len();
    let mutant = Mutant {
        file_path: "m.py".to_owned(),
        line: 2,
        column: 9,
        byte_offset: off,
        byte_length: 1,
        original_text: "1".into(),
        mutated_text: "2".into(),
        mutator_name: "constant".into(),
    };
    let diff = derive_diff(&mutant, &module, &module, mutated);
    assert!(
        matches!(diff, Ok(ref v) if matches!(v.as_slice(), [MutationDiff::StatementBind { .. }])),
        "expected StatementBind from while body, got {diff:?}"
    );
}

#[test]
fn mutation_in_if_test_yields_condition_mutation() {
    // Mutation on the `if` condition itself returns ConditionMutation.
    let src = "if 1 < 2:\n    X = 1\n";
    let mutated = "if 1 < 3:\n    X = 1\n";
    let module = parse(src);
    let off = src.find("1 < 2").unwrap() + 4; // position of "2"
    let mutant = Mutant {
        file_path: "m.py".to_owned(),
        line: 1,
        column: 8,
        byte_offset: off,
        byte_length: 1,
        original_text: "2".into(),
        mutated_text: "3".into(),
        mutator_name: "constant".into(),
    };
    let diff = derive_diff(&mutant, &module, &module, mutated);
    assert_eq!(
        diff,
        Err(SkipReason::ConditionMutation),
        "condition mutation should return ConditionMutation, got {diff:?}"
    );
}

#[test]
fn tuple_with_starred_target_yields_unmappable_target() {
    let src = "*a, b = 1, 2, 3\n";
    let mutated = "*a, b = 1, 2, 4\n";
    let module = parse(src);
    let off = src.find(", 3").unwrap() + ", ".len();
    let mutant = Mutant {
        file_path: "m.py".into(),
        line: 1,
        column: 14,
        byte_offset: off,
        byte_length: 1,
        original_text: "3".into(),
        mutated_text: "4".into(),
        mutator_name: "constant".into(),
    };
    let diff = derive_diff(&mutant, &module, &module, mutated);
    assert_eq!(
        diff,
        Err(SkipReason::UnmappableTarget),
        "starred unpack target is unmappable, got {diff:?}"
    );
}

#[test]
fn nested_class_method_uses_dotted_qualname() {
    let src = "class Outer:\n    class Inner:\n        def m(self):\n            return 1\n";
    let mutated =
        "class Outer:\n    class Inner:\n        def m(self):\n            return 2\n";
    let module = parse(src);
    let off = src.find("return 1").unwrap() + "return ".len();
    let mutant = Mutant {
        file_path: "m.py".to_owned(),
        line: 4,
        column: 20,
        byte_offset: off,
        byte_length: 1,
        original_text: "1".into(),
        mutated_text: "2".into(),
        mutator_name: "constant".into(),
    };
    let diff =
        derive_diff(&mutant, &module, &module, mutated).expect("derive_diff should succeed");
    match diff.as_slice() {
        [
            MutationDiff::ClassMethod {
                class_qualname,
                method_name,
                ..
            },
        ] => {
            assert_eq!(class_qualname, "Outer.Inner");
            assert_eq!(method_name, "m");
        }
        other => panic!("expected ClassMethod with qualname Outer.Inner, got {other:?}"),
    }
}

#[test]
fn nested_class_attr_uses_dotted_qualname() {
    let src = "class Outer:\n    class Inner:\n        X = 5\n";
    let mutated = "class Outer:\n    class Inner:\n        X = 6\n";
    let module = parse(src);
    let off = src.find("X = 5").unwrap() + "X = ".len();
    let mutant = Mutant {
        file_path: "m.py".to_owned(),
        line: 3,
        column: 13,
        byte_offset: off,
        byte_length: 1,
        original_text: "5".into(),
        mutated_text: "6".into(),
        mutator_name: "constant".into(),
    };
    let diff =
        derive_diff(&mutant, &module, &module, mutated).expect("derive_diff should succeed");
    match diff.as_slice() {
        [
            MutationDiff::StatementBind {
                names,
                scope: BindScope::Class { qualname },
                ..
            },
        ] => {
            assert_eq!(qualname, "Outer.Inner");
            assert_eq!(names, &vec!["X".to_owned()]);
        }
        other => panic!("expected StatementBind class scope Outer.Inner, got {other:?}"),
    }
}

#[test]
fn condition_mutation_returns_condition_skip_reason() {
    let src = "if 1 < 2:\n    X = 1\n";
    let mutated = "if 1 < 3:\n    X = 1\n";
    let module = parse(src);
    let off = src.find("1 < 2").unwrap() + 4; // position of "2"
    let mutant = Mutant {
        file_path: "m.py".to_owned(),
        line: 1,
        column: 8,
        byte_offset: off,
        byte_length: 1,
        original_text: "2".into(),
        mutated_text: "3".into(),
        mutator_name: "constant".into(),
    };
    let result = derive_diff(&mutant, &module, &module, mutated);
    assert_eq!(result, Err(SkipReason::ConditionMutation));
}

#[test]
fn while_condition_mutation_returns_condition_skip_reason() {
    let src = "while 1 < 2:\n    X = 1\n    break\n";
    let mutated = "while 1 < 3:\n    X = 1\n    break\n";
    let module = parse(src);
    let off = src.find("1 < 2").unwrap() + 4;
    let mutant = Mutant {
        file_path: "m.py".to_owned(),
        line: 1,
        column: 11,
        byte_offset: off,
        byte_length: 1,
        original_text: "2".into(),
        mutated_text: "3".into(),
        mutator_name: "constant".into(),
    };
    let result = derive_diff(&mutant, &module, &module, mutated);
    assert_eq!(result, Err(SkipReason::ConditionMutation));
}

#[test]
fn for_iter_mutation_returns_condition_skip_reason() {
    let src = "for i in range(5):\n    X = 1\n";
    let mutated = "for i in range(6):\n    X = 1\n";
    let module = parse(src);
    let off = src.find("range(5)").unwrap() + "range(".len();
    let mutant = Mutant {
        file_path: "m.py".to_owned(),
        line: 1,
        column: 16,
        byte_offset: off,
        byte_length: 1,
        original_text: "5".into(),
        mutated_text: "6".into(),
        mutator_name: "constant".into(),
    };
    let result = derive_diff(&mutant, &module, &module, mutated);
    assert_eq!(result, Err(SkipReason::ConditionMutation));
}

#[test]
fn subscript_target_returns_unmappable_target() {
    let src = "d = {}\nd['k'] = 1\n";
    let mutated = "d = {}\nd['k'] = 2\n";
    let module = parse(src);
    let off = src.find("'k'] = 1").unwrap() + "'k'] = ".len();
    let mutant = Mutant {
        file_path: "m.py".to_owned(),
        line: 2,
        column: 9,
        byte_offset: off,
        byte_length: 1,
        original_text: "1".into(),
        mutated_text: "2".into(),
        mutator_name: "constant".into(),
    };
    let result = derive_diff(&mutant, &module, &module, mutated);
    assert_eq!(result, Err(SkipReason::UnmappableTarget));
}

#[test]
fn statement_bind_serializes_with_scope_tag() {
    let diff = MutationDiff::StatementBind {
        names: vec!["X".to_owned(), "Y".to_owned()],
        stmt_source: "X, Y = 1, 2".to_owned(),
        scope: BindScope::Module,
    };
    assert_eq!(
        to_line(&lay_out_diff(&diff)),
        "{\"kind\":\"statement_bind\",\"names\":[\"X\",\"Y\"],\"stmt_source\":\"X, Y = 1, 2\",\"scope\":{\"kind\":\"module\"}}"
    );
}

#[test]
fn statement_bind_class_scope_includes_qualname() {
    let diff = MutationDiff::StatementBind {
        names: vec!["counter".to_owned()],
        stmt_source: "counter: int = 5".to_owned(),
        scope: BindScope::Class { qualname: "Outer.Inner".to_owned() },
    };
    let line = to_line(&lay_out_diff(&diff));
    assert!(line.contains("\"scope\":{\"kind\":\"class\",\"qualname\":\"Outer.Inner\"}"));
    assert_eq!(
        to_line(&lay_out_scope(&BindScope::Class { qualname: "Outer.Inner".to_owned() })),
        "{\"kind\":\"class\",\"qualname\":\"Outer.Inner\"}"
    );
}

#[test]
fn other_diffs_are_tagged_with_their_kind() {
    let body = MutationDiff::FunctionBody {
        qualname: "mod.outer.inner".to_owned(),
        new_source: "def inner():\n    return 2\n".to_owned(),
    };
    assert_eq!(
        to_line(&lay_out_diff(&body)),
        "{\"kind\":\"function_body\",\"qualname\":\"mod.outer.inner\",\"new_source\":\"def inner():\\n    return 2\\n\"}"
    );
    let method = MutationDiff::ClassMethod {
        class_qualname: "C".to_owned(),
        method_name: "m".to_owned(),
        new_source: "def m(self): pass".to_owned(),
    };
    assert!(to_line(&lay_out_diff(&method)).starts_with("{\"kind\":\"class_method\""));
    let attr = MutationDiff::ModuleAttr {
        name: "f".to_owned(),
        new_source: "def f(): pass".to_owned(),
    };
    assert!(to_line(&lay_out_diff(&attr)).starts_with("{\"kind\":\"module_attr\""));
}

/// A mutation without a diff is classified by the innermost statement that
/// holds it.
#[test]
fn nested_mutations_have_the_reason_of_their_statement() {
    let cases = [
        ("if a:\n    while 1 < 2:\n        pass\n", "2", SkipReason::ConditionMutation),
        ("class C:\n    if 7:\n        x = 1\n", "7", SkipReason::ConditionMutation),
        ("try:\n    pass\nexcept E:\n    d['k'] = 3\n", "3", SkipReason::UnmappableTarget),
        ("class C:\n    d['k'] = 3\n", "3", SkipReason::UnmappableTarget),
        ("if a:\n    del x[5]\n", "5", SkipReason::UnsupportedStatement),
        ("if a:\n    pass\nelif 9:\n    pass\n", "9", SkipReason::UnsupportedStatement),
    ];
    for (src, original, reason) in cases {
        let module = parse(src);
        let off = src.find(original).expect("original in source");
        let mutant = make_mutant("m.py", original, "0", off);
        let mutated = mutant.apply_to_source(src);
        assert_eq!(derive_diff(&mutant, &module, &module, &mutated), Err(reason), "{src}");
    }
}

/// The end of a statement moves by what the text grows or shrinks.
#[test]
fn statement_end_moves_with_the_text() {
    for value in ["1", "10000"] {
        let source = "MAX = 100";
        let mutated = format!("MAX = {value}");
        let mutant = make_mutant("config.py", "100", value, 6);
        let diffs = derive_diff(&mutant, &parse(source), &parse(&mutated), &mutated)
            .expect("derive_diff should succeed");
        let expected = MutationDiff::StatementBind {
            names: vec!["MAX".to_owned()],
            stmt_source: mutated,
            scope: BindScope::Module,
        };
        assert_eq!(diffs, vec![expected]);
    }
}

/// The end of a source moves to the end of the mutated source; an end that
/// would come before the start stays.
#[test]
fn source_end_moves_to_the_mutated_end() {
    let source = "MAX = 100";
    for value in ["1", "10000", ""] {
        let mutant = make_mutant("config.py", "100", value, 6);
        let mutated = mutant.apply_to_source(source);
        assert_eq!(mutated_stmt_end(source.len(), &mutant), mutated.len());
    }
    assert_eq!(mutated_stmt_end(2, &make_mutant("config.py", "100", "", 6)), 2);
}
