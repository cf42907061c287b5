//! Coverage databases of coverage.py.
use fest::coverage::sqlite_reader::{
    build_coverage_map, build_coverage_map_from_line_bits, decode_numbits, load_context_table,
    load_file_table, strip_context_suffix, ArcRow, LineBitsRow, NameRow,
};
use fest::coverage::CoverageMap;
use rusqlite::Connection;

/// The rows of a table with a number and a name.
fn names(conn: &Connection, sql: &str) -> Vec<NameRow> {
    let mut statement = conn.prepare(sql).expect("prepare");
    let rows = statement
        .query_map([], |row| Ok(NameRow { id: row.get(0)?, name: row.get(1)? }))
        .expect("query");
    rows.map(|row| row.expect("row")).collect()
}

/// The coverage in a database.
fn load(conn: &Connection, project_dir: &str) -> CoverageMap {
    let files = load_file_table(&names(conn, "SELECT id, path FROM file"), project_dir);
    let contexts = load_context_table(&names(conn, "SELECT id, context FROM context"));
    let mut statement =
        conn.prepare("SELECT file_id, context_id, numbits FROM line_bits").expect("prepare");
    let bits: Vec<LineBitsRow> = statement
        .query_map([], |row| {
            Ok(LineBitsRow {
                file_id: row.get(0)?,
                context_id: row.get(1)?,
                numbits: row.get(2)?,
            })
        })
        .expect("query")
        .map(|row| row.expect("row"))
        .collect();
    let arcs: Option<Vec<ArcRow>> =
        conn.prepare("SELECT file_id, context_id, fromno, tono FROM arc").ok().map(|mut arc| {
            arc.query_map([], |row| {
                Ok(ArcRow {
                    file_id: row.get(0)?,
                    context_id: row.get(1)?,
                    fromno: row.get(2)?,
                    tono: row.get(3)?,
                })
            })
            .expect("query")
            .map(|row| row.expect("row"))
            .collect()
        });
    let from_bits = build_coverage_map_from_line_bits(&bits, &files, &contexts);
    build_coverage_map(from_bits, arcs.as_deref(), &files, &contexts)
}

/// A small database with line bits: those of the first context are for lines
/// 1 and 3, and the second context is empty.
fn create_test_db() -> Connection {
    let conn = Connection::open_in_memory().expect("open db");
    conn.execute_batch(
        "CREATE TABLE file (id INTEGER PRIMARY KEY, path TEXT);
         CREATE TABLE context (id INTEGER PRIMARY KEY, context TEXT);
         CREATE TABLE line_bits (file_id INTEGER, context_id INTEGER, numbits BLOB);
         INSERT INTO file (id, path) VALUES (1, 'src/app.py');
         INSERT INTO context (id, context) VALUES (1, 'test_app.py::test_hello|run');
         INSERT INTO context (id, context) VALUES (2, '');
         INSERT INTO line_bits (file_id, context_id, numbits) VALUES (1, 1, X'0A');
         INSERT INTO line_bits (file_id, context_id, numbits) VALUES (1, 2, X'02');",
    )
    .expect("create and populate db");
    conn
}

/// A small database with arcs: those of the first context pass lines 1, 2 and
/// 3, and the second context is empty.
fn create_arc_db() -> Connection {
    let conn = Connection::open_in_memory().expect("open db");
    conn.execute_batch(
        "CREATE TABLE file (id INTEGER PRIMARY KEY, path TEXT);
         CREATE TABLE context (id INTEGER PRIMARY KEY, context TEXT);
         CREATE TABLE line_bits (file_id INTEGER, context_id INTEGER, numbits BLOB);
         CREATE TABLE arc (file_id INTEGER, context_id INTEGER, fromno INTEGER, tono INTEGER);
         INSERT INTO file (id, path) VALUES (1, 'src/app.py');
         INSERT INTO context (id, context) VALUES (1, 'test_app.py::test_hello|run');
         INSERT INTO context (id, context) VALUES (2, '');
         INSERT INTO arc (file_id, context_id, fromno, tono) VALUES (1, 1, 1, 2);
         INSERT INTO arc (file_id, context_id, fromno, tono) VALUES (1, 1, 2, 3);
         INSERT INTO arc (file_id, context_id, fromno, tono) VALUES (1, 2, 5, 6);",
    )
    .expect("create and populate db");
    conn
}

#[test]
fn decode_numbits_empty_blob() {
    assert!(decode_numbits(&[]).is_empty());
}

#[test]
fn decode_numbits_single_byte_all_bits() {
    // 0xFF = all 8 bits set -> lines 0..7
    let lines = decode_numbits(&[0xFF]);
    assert_eq!(lines, vec![0, 1, 2, 3, 4, 5, 6, 7]);
}

#[test]
fn decode_numbits_sparse_bits() {
    // byte 0 = 0b0000_0010 -> line 1
    // byte 1 = 0b0000_0100 -> line 10 (1*8 + 2)
    let lines = decode_numbits(&[0x02, 0x04]);
    assert_eq!(lines, vec![1, 10]);
}

#[test]
fn decode_numbits_all_zeros() {
    assert!(decode_numbits(&[0x00, 0x00, 0x00]).is_empty());
}

#[test]
fn decode_numbits_high_line_numbers() {
    // byte 12 = 0b0000_0001 -> line 96 (12*8 + 0)
    let mut blob = vec![0; 13];
    blob[12] = 0x01;
    let lines = decode_numbits(&blob);
    assert_eq!(lines, vec![96]);
}

#[test]
fn strip_context_suffix_with_run() {
    assert_eq!(
        strip_context_suffix("test_app.py::test_hello|run"),
        "test_app.py::test_hello"
    );
}

#[test]
fn strip_context_suffix_with_setup() {
    assert_eq!(
        strip_context_suffix("test_app.py::test_hello|setup"),
        "test_app.py::test_hello"
    );
}

#[test]
fn strip_context_suffix_with_teardown() {
    assert_eq!(
        strip_context_suffix("test_app.py::test_hello|teardown"),
        "test_app.py::test_hello"
    );
}

#[test]
fn strip_context_suffix_without_pipe() {
    assert_eq!(
        strip_context_suffix("test_app.py::test_hello"),
        "test_app.py::test_hello"
    );
}

#[test]
fn strip_context_suffix_empty() {
    assert_eq!(strip_context_suffix(""), "");
}

#[test]
fn strip_context_suffix_pipe_only() {
    // "|" alone — no recognized suffix after pipe, so kept as-is.
    assert_eq!(strip_context_suffix("|"), "|");
}

#[test]
fn strip_context_suffix_unknown_suffix() {
    // "|other" is not a recognized suffix — kept as-is.
    assert_eq!(
        strip_context_suffix("test.py::test_x|other"),
        "test.py::test_x|other"
    );
}

#[test]
fn parse_coverage_sqlite_basic() {
        let conn = create_test_db();

    let map = load(&conn, "/proj");

    let key_line1 = ("/proj/src/app.py", 1);
    let key_line3 = ("/proj/src/app.py", 3);

    assert!(map.contains_key(key_line1.0, key_line1.1));
    assert!(map.contains_key(key_line3.0, key_line3.1));

    let tests_line1 = map.get(key_line1.0, key_line1.1).expect("line 1 present");
    assert_eq!(tests_line1.len(), 1);
    assert_eq!(tests_line1[0], "test_app.py::test_hello");

    // Line 1 from empty context should NOT be in the map
    // (only one entry for line 1, from context 1)
}

#[test]
fn parse_coverage_sqlite_empty_db() {
        let conn = Connection::open_in_memory().expect("open db");
    conn.execute_batch(
        "CREATE TABLE file (id INTEGER PRIMARY KEY, path TEXT);
         CREATE TABLE context (id INTEGER PRIMARY KEY, context TEXT);
         CREATE TABLE line_bits (file_id INTEGER, context_id INTEGER, numbits BLOB);",
    )
    .expect("create tables");

    let map = load(&conn, "/proj");
    assert!(map.is_empty());
}

#[test]
fn parse_coverage_sqlite_missing_file_id() {
        let conn = Connection::open_in_memory().expect("open db");
    conn.execute_batch(
        "CREATE TABLE file (id INTEGER PRIMARY KEY, path TEXT);
         CREATE TABLE context (id INTEGER PRIMARY KEY, context TEXT);
         CREATE TABLE line_bits (file_id INTEGER, context_id INTEGER, numbits BLOB);
         INSERT INTO context (id, context) VALUES (1, 'test.py::test_x|run');
         INSERT INTO line_bits (file_id, context_id, numbits) VALUES (999, 1, X'02');",
    )
    .expect("create tables and insert data");

    let map = load(&conn, "/proj");
    assert!(map.is_empty());
}

#[test]
fn parse_coverage_sqlite_absolute_path() {
    
    let abs_path = "/absolute/src/app.py";

    let conn = Connection::open_in_memory().expect("open db");
    conn.execute_batch(&format!(
        "CREATE TABLE file (id INTEGER PRIMARY KEY, path TEXT);
         CREATE TABLE context (id INTEGER PRIMARY KEY, context TEXT);
         CREATE TABLE line_bits (file_id INTEGER, context_id INTEGER, numbits BLOB);
         INSERT INTO file (id, path) VALUES (1, '{abs_path}');
         INSERT INTO context (id, context) VALUES (1, 'test.py::test_x|run');
         INSERT INTO line_bits (file_id, context_id, numbits) VALUES (1, 1, X'04');",
    ))
    .expect("create and populate db");
    // line 2 -> byte 0, bit 2 = 0x04

    let map = load(&conn, "/proj");
    let key = (abs_path, 2);
    assert!(map.contains_key(key.0, key.1));
}

#[test]
fn parse_coverage_sqlite_multiple_contexts_same_line() {
        let conn = Connection::open_in_memory().expect("open db");
    conn.execute_batch(
        "CREATE TABLE file (id INTEGER PRIMARY KEY, path TEXT);
         CREATE TABLE context (id INTEGER PRIMARY KEY, context TEXT);
         CREATE TABLE line_bits (file_id INTEGER, context_id INTEGER, numbits BLOB);
         INSERT INTO file (id, path) VALUES (1, 'mod.py');
         INSERT INTO context (id, context) VALUES (1, 'test.py::test_a|run');
         INSERT INTO context (id, context) VALUES (2, 'test.py::test_b|run');
         INSERT INTO line_bits (file_id, context_id, numbits) VALUES (1, 1, X'20');
         INSERT INTO line_bits (file_id, context_id, numbits) VALUES (1, 2, X'20');",
    )
    .expect("create and populate db");
    // Both contexts cover line 5 (byte 0, bit 5 = 0x20)

    let map = load(&conn, "/proj");
    let key = ("/proj/mod.py", 5);
    let tests = map.get(key.0, key.1).expect("line 5 present");
    assert_eq!(tests.len(), 2);
}

#[test]
fn parse_coverage_sqlite_missing_context_id() {
        let conn = Connection::open_in_memory().expect("open db");
    conn.execute_batch(
        "CREATE TABLE file (id INTEGER PRIMARY KEY, path TEXT);
         CREATE TABLE context (id INTEGER PRIMARY KEY, context TEXT);
         CREATE TABLE line_bits (file_id INTEGER, context_id INTEGER, numbits BLOB);
         INSERT INTO file (id, path) VALUES (1, 'mod.py');
         INSERT INTO line_bits (file_id, context_id, numbits) VALUES (1, 999, X'02');",
    )
    .expect("create and populate db");

    // line_bits references context_id=999 which doesn't exist
    let map = load(&conn, "/proj");
    assert!(map.is_empty());
}

#[test]
fn parse_coverage_sqlite_arc_table_basic() {
        let conn = create_arc_db();

    let map = load(&conn, "/proj");

    // Lines 1, 2, 3 should be covered by test_hello
    for line in [1, 2, 3] {
        let key = ("/proj/src/app.py", line);
        let tests = map.get(key.0, key.1).unwrap_or_else(|| {
            panic!("line {line} should be in coverage map");
        });
        assert!(
            tests.contains(&"test_app.py::test_hello".to_owned()),
            "line {line} should be covered by test_hello"
        );
    }

    // Empty context lines should NOT be present
    let key_5 = ("/proj/src/app.py", 5);
    assert!(
        !map.contains_key(key_5.0, key_5.1),
        "empty context lines should be excluded"
    );
}

#[test]
fn parse_coverage_sqlite_arc_negative_lines_skipped() {
        let conn = Connection::open_in_memory().expect("open db");
    conn.execute_batch(
        "CREATE TABLE file (id INTEGER PRIMARY KEY, path TEXT);
         CREATE TABLE context (id INTEGER PRIMARY KEY, context TEXT);
         CREATE TABLE line_bits (file_id INTEGER, context_id INTEGER, numbits BLOB);
         CREATE TABLE arc (file_id INTEGER, context_id INTEGER, fromno INTEGER, tono INTEGER);
         INSERT INTO file (id, path) VALUES (1, 'mod.py');
         INSERT INTO context (id, context) VALUES (1, 'test.py::test_x|run');
         INSERT INTO arc (file_id, context_id, fromno, tono) VALUES (1, 1, -1, 5);
         INSERT INTO arc (file_id, context_id, fromno, tono) VALUES (1, 1, 5, -1);",
    )
    .expect("create db");

    let map = load(&conn, "/proj");

    // Line 5 should be covered (from both arcs: tono=5, fromno=5)
    let key = ("/proj/mod.py", 5);
    assert!(map.contains_key(key.0, key.1));

    // Negative line numbers should NOT appear
    assert_eq!(
        map.len(),
        1,
        "only line 5 should be in map, no negative lines"
    );
}

#[test]
fn parse_coverage_sqlite_arc_deduplicates_tests() {
        let conn = Connection::open_in_memory().expect("open db");
    conn.execute_batch(
        "CREATE TABLE file (id INTEGER PRIMARY KEY, path TEXT);
         CREATE TABLE context (id INTEGER PRIMARY KEY, context TEXT);
         CREATE TABLE line_bits (file_id INTEGER, context_id INTEGER, numbits BLOB);
         CREATE TABLE arc (file_id INTEGER, context_id INTEGER, fromno INTEGER, tono INTEGER);
         INSERT INTO file (id, path) VALUES (1, 'mod.py');
         INSERT INTO context (id, context) VALUES (1, 'test.py::test_a|run');
         INSERT INTO arc (file_id, context_id, fromno, tono) VALUES (1, 1, 1, 2);
         INSERT INTO arc (file_id, context_id, fromno, tono) VALUES (1, 1, 2, 3);
         INSERT INTO arc (file_id, context_id, fromno, tono) VALUES (1, 1, 3, 2);",
    )
    .expect("create db");

    let map = load(&conn, "/proj");

    // Line 2 appears in multiple arcs (as fromno and tono) but test_a
    // should be listed only once.
    let key = ("/proj/mod.py", 2);
    let tests = map.get(key.0, key.1).expect("line 2 present");
    assert_eq!(tests.len(), 1, "test_a should appear only once");
}

#[test]
fn parse_coverage_sqlite_arc_multiple_contexts() {
        let conn = Connection::open_in_memory().expect("open db");
    conn.execute_batch(
        "CREATE TABLE file (id INTEGER PRIMARY KEY, path TEXT);
         CREATE TABLE context (id INTEGER PRIMARY KEY, context TEXT);
         CREATE TABLE line_bits (file_id INTEGER, context_id INTEGER, numbits BLOB);
         CREATE TABLE arc (file_id INTEGER, context_id INTEGER, fromno INTEGER, tono INTEGER);
         INSERT INTO file (id, path) VALUES (1, 'mod.py');
         INSERT INTO context (id, context) VALUES (1, 'test.py::test_a|run');
         INSERT INTO context (id, context) VALUES (2, 'test.py::test_b|run');
         INSERT INTO arc (file_id, context_id, fromno, tono) VALUES (1, 1, 5, 5);
         INSERT INTO arc (file_id, context_id, fromno, tono) VALUES (1, 2, 5, 5);",
    )
    .expect("create db");

    let map = load(&conn, "/proj");
    let key = ("/proj/mod.py", 5);
    let tests = map.get(key.0, key.1).expect("line 5 present");
    assert_eq!(
        tests.len(),
        2,
        "both test_a and test_b should cover line 5"
    );
}

#[test]
fn parse_coverage_sqlite_prefers_line_bits_over_arc() {
        let conn = Connection::open_in_memory().expect("open db");
    conn.execute_batch(
        "CREATE TABLE file (id INTEGER PRIMARY KEY, path TEXT);
         CREATE TABLE context (id INTEGER PRIMARY KEY, context TEXT);
         CREATE TABLE line_bits (file_id INTEGER, context_id INTEGER, numbits BLOB);
         CREATE TABLE arc (file_id INTEGER, context_id INTEGER, fromno INTEGER, tono INTEGER);
         INSERT INTO file (id, path) VALUES (1, 'mod.py');
         INSERT INTO context (id, context) VALUES (1, 'test.py::test_a|run');
         INSERT INTO line_bits (file_id, context_id, numbits) VALUES (1, 1, X'02');
         INSERT INTO arc (file_id, context_id, fromno, tono) VALUES (1, 1, 99, 100);",
    )
    .expect("create db");

    let map = load(&conn, "/proj");

    // line_bits has line 1, arc has lines 99/100
    // Since line_bits is non-empty, arc should be ignored
    let key_1 = ("/proj/mod.py", 1);
    assert!(map.contains_key(key_1.0, key_1.1), "line 1 from line_bits");
    let key_99 = ("/proj/mod.py", 99);
    assert!(!map.contains_key(key_99.0, key_99.1), "arc data should be ignored");
}

/// The tests of an arc's lines are sorted.
#[test]
fn arc_tests_are_sorted() {
    let conn = create_arc_db();
    conn.execute_batch(
        "INSERT INTO context (id, context) VALUES (3, 'a_test.py::test_a|setup');
         INSERT INTO arc (file_id, context_id, fromno, tono) VALUES (1, 3, 2, 2);",
    )
    .expect("insert");
    let map = load(&conn, "/proj");
    assert_eq!(
        map.get("/proj/src/app.py", 2),
        Some(&vec!["a_test.py::test_a".to_owned(), "test_app.py::test_hello".to_owned()])
    );
}

/// Decoded lines strictly increase.
#[test]
fn decoded_lines_increase() {
    let lines = decode_numbits(&[0b1010_0110, 0, 0b1000_0001]);
    assert_eq!(lines, vec![1, 2, 5, 7, 16, 23]);
}
