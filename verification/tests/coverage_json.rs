//! Coverage reports in JSON.
use fest::coverage::json_parser::{parse_coverage_json, parse_coverage_json_str, pick_field};
use fest::Error;

/// Minimal valid JSON with one file and two lines.
#[test]
fn parse_minimal_json() {
    let json = r#"{
        "meta": {},
        "files": {
            "src/app.py": {
                "executed_lines": [1, 2, 3],
                "contexts": {
                    "1": ["test_app.py::test_hello"],
                    "2": ["test_app.py::test_hello", "test_app.py::test_world"],
                    "3": [""]
                }
            }
        }
    }"#;

    let project_dir = "/project";
    let map = parse_coverage_json_str(json, project_dir).expect("should parse valid JSON");

    let key_line1 = ("/project/src/app.py", 1);
    let key_line2 = ("/project/src/app.py", 2);
    let key_line3 = ("/project/src/app.py", 3);

    assert_eq!(map.get(key_line1.0, key_line1.1).expect("line 1 present").len(), 1);
    assert_eq!(map.get(key_line2.0, key_line2.1).expect("line 2 present").len(), 2);
    // Line 3 had only an empty context, so it should be absent.
    assert!(map.get(key_line3.0, key_line3.1).is_none());
}

/// Multiple files are parsed correctly.
#[test]
fn parse_multiple_files() {
    let json = r#"{
        "files": {
            "a.py": {
                "executed_lines": [1],
                "contexts": {
                    "1": ["test_a.py::test_one"]
                }
            },
            "b.py": {
                "executed_lines": [5],
                "contexts": {
                    "5": ["test_b.py::test_five"]
                }
            }
        }
    }"#;

    let project_dir = "/proj";
    let map = parse_coverage_json_str(json, project_dir).expect("should parse");
    assert_eq!(map.len(), 2);

    let key_a = ("/proj/a.py", 1);
    let key_b = ("/proj/b.py", 5);
    assert!(map.contains_key(key_a.0, key_a.1));
    assert!(map.contains_key(key_b.0, key_b.1));
}

/// Empty files map yields an empty `CoverageMap`.
#[test]
fn parse_empty_files() {
    let json = r#"{ "files": {} }"#;
    let project_dir = "/proj";
    let map = parse_coverage_json_str(json, project_dir).expect("should parse");
    assert!(map.is_empty());
}

/// Invalid JSON returns an error.
#[test]
fn parse_invalid_json() {
    let project_dir = "/proj";
    let result = parse_coverage_json_str("not valid json {{{", project_dir);
    assert!(result.is_err());
}

/// Invalid line number string returns an error.
#[test]
fn parse_invalid_line_number() {
    let json = r#"{
        "files": {
            "src/app.py": {
                "executed_lines": [],
                "contexts": {
                    "not_a_number": ["test_a.py::test_one"]
                }
            }
        }
    }"#;

    let project_dir = "/proj";
    let result = parse_coverage_json_str(json, project_dir);
    assert!(result.is_err());
}

/// Contexts with a mix of empty and non-empty entries only keep non-empty.
#[test]
fn parse_filters_empty_contexts() {
    let json = r#"{
        "files": {
            "mod.py": {
                "executed_lines": [10],
                "contexts": {
                    "10": ["", "test_mod.py::test_x", ""]
                }
            }
        }
    }"#;

    let project_dir = "/proj";
    let map = parse_coverage_json_str(json, project_dir).expect("should parse");
    let key = ("/proj/mod.py", 10);
    let tests = map.get(key.0, key.1).expect("line 10 present");
    assert_eq!(tests.len(), 1);
    assert_eq!(tests[0], "test_mod.py::test_x");
}

/// Parsing a file that cannot be read returns an error.
#[test]
fn parse_file_not_found() {
    let result = parse_coverage_json(
        "/nonexistent/coverage.json",
        Err("No such file or directory (os error 2)"),
        "/proj",
    );
    assert!(result.is_err());
    assert!(matches!(result, Err(Error::Coverage(m)) if m.contains("/nonexistent/coverage.json")));
}

/// The text of a file is parsed.
#[test]
fn parse_from_temp_file() {
    let json_content = r#"{
        "files": {
            "lib.py": {
                "executed_lines": [7],
                "contexts": {
                    "7": ["test_lib.py::test_func"]
                }
            }
        }
    }"#;
    let map = parse_coverage_json("/tmp/x/coverage.json", Ok(json_content), "/tmp/x")
        .expect("should parse from file");
    assert!(map.contains_key("/tmp/x/lib.py", 7));
}

/// A record may be written as a list of the value of its field.
#[test]
fn parse_records_as_lists() {
    let json = r#"[{"a.py": [{"3": ["t"]}]}]"#;
    let map = parse_coverage_json_str(json, "/project").expect("should parse lists");
    assert_eq!(map.get("/project/a.py", 3).expect("line 3 present"), &["t".to_owned()]);
    assert!(parse_coverage_json_str("[]", "/project").is_err());
    assert!(parse_coverage_json_str("[{}, {}]", "/project").is_err());
}

/// Members that nobody asks for are skipped, however large or deep they are.
#[test]
fn other_members_are_skipped() {
    let deep = format!("{}{}", "[".repeat(1000), "]".repeat(1000));
    let json = format!(
        r#"{{"meta": 1e999, "totals": {deep}, "files": {{"a.py": {{"x": {deep}, "contexts": {{"3": ["t"]}}}}}}}}"#
    );
    let map = parse_coverage_json_str(&json, "/project").expect("should skip other members");
    assert_eq!(map.get("/project/a.py", 3).expect("line 3 present"), &["t".to_owned()]);
}

/// What is wrong with a report is told.
#[test]
fn problems_of_a_report_are_told() {
    let problem = |json: &str| match parse_coverage_json_str(json, "/project") {
        Err(Error::Coverage(message)) => message,
        other => panic!("expected an error, got {other:?}"),
    };
    assert_eq!(problem("{}"), "failed to parse coverage JSON: missing field `files`");
    assert_eq!(
        problem(r#"{"files": {"a.py": {}}}"#),
        "failed to parse coverage JSON: missing field `contexts`"
    );
    assert_eq!(
        problem("[]"),
        "failed to parse coverage JSON: invalid length, expected one element"
    );
    assert!(problem("5").contains("invalid type: integer `5`, expected a map"));
    assert!(problem(r#"{"files": ["#).contains("EOF while parsing"));
    assert!(problem(r#"{"files": {"a.py": {"contexts": {"1": [2]}}}}"#).contains("expected a string"));
}

/// A field is picked from an object by its name, and from a list of one.
#[test]
fn fields_are_picked() {
    let object = Ok(vec![("a".to_owned(), "1".to_owned()), ("b".to_owned(), "2".to_owned())]);
    let list = |items: &[&str]| Ok(items.iter().map(|item| (*item).to_owned()).collect());
    let no_list = Err("no list".to_owned());
    let no_object = Err("no object".to_owned());
    assert_eq!(pick_field(&object, &no_list, "b"), Ok("2".to_owned()));
    assert_eq!(pick_field(&object, &no_list, "c"), Err("missing field `c`".to_owned()));
    assert_eq!(pick_field(&no_object, &list(&["7"]), "c"), Ok("7".to_owned()));
    assert!(pick_field(&no_object, &list(&["7", "8"]), "c").is_err());
    assert_eq!(pick_field(&no_object, &no_list, "c"), Err("no object".to_owned()));
}
