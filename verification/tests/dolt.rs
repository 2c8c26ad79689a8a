use serde_json::Value;

use subcontext::agent::Agent;
use subcontext::backend::OutputReport;
use subcontext::dolt::{
    find_dolt_bin, global_dolt_bin, parse_dolt_json_rows, read_dolt_head, save_dolt_head,
    sql_escape_string, substitute_params, DoltConnection, DoltRow,
};
use subcontext::environment::Env;
use subcontext::failure::{fail, Failure};
use subcontext::scripted::{Answer, Request, Scripted};

fn env() -> Env {
    Env {
        subcontext_path: Some("/home/me".to_string()),
        home: Some("/home/me".to_string()),
        user_profile: None,
        os: "linux".to_string(),
        arch: "x86_64".to_string(),
        agent: Agent { name: "helper".to_string(), title: "Helper".to_string() },
    }
}

fn ok<T>(r: Result<T, Failure>) -> T {
    match r {
        Ok(v) => v,
        Err(e) => panic!("{}", e.chain_text()),
    }
}

fn message<T>(r: Result<T, Failure>) -> String {
    match r {
        Ok(_) => panic!("a failure was expected"),
        Err(e) => e.chain_text(),
    }
}

fn printed(stdout: &str) -> Answer {
    Answer::Output(Ok(OutputReport {
        success: true,
        stdout: stdout.to_string(),
        stderr: String::new(),
    }))
}

fn failing(stderr: &str) -> Answer {
    Answer::Output(Ok(OutputReport {
        success: false,
        stdout: String::new(),
        stderr: stderr.to_string(),
    }))
}

#[test]
fn quotes_are_doubled() {
    assert_eq!(sql_escape_string("it's"), "'it''s'");
    assert_eq!(sql_escape_string("a\\b"), "'a\\b'");
    assert_eq!(sql_escape_string(""), "''");
}

#[test]
fn parameters_are_put_in_place() {
    assert_eq!(
        substitute_params("SELECT ?1, ?2, ?1", &["a", "b'c"]),
        "SELECT 'a', 'b''c', 'a'"
    );
    assert_eq!(substitute_params("SELECT 1", &[]), "SELECT 1");
    assert_eq!(substitute_params("VALUES (?1, ?2)", &["a", "what?1"]), "VALUES ('a', 'what?1')");
    assert_eq!(substitute_params("?3 ? ?1", &["?2", "b"]), "?3 ? '?2'");
}

#[test]
fn the_tenth_parameter_is_not_the_first() {
    let params = ["a", "b", "c", "d", "e", "f", "g", "h", "i", "j"];
    let out = substitute_params("?10 ?1", &params);
    assert_eq!(out, "'j' 'a'");
}

#[test]
fn rows_are_read_from_json() {
    let rows = ok(parse_dolt_json_rows(r#"{"rows": [{"a": "x", "b": 2}, {"a": null}]}"#));
    assert_eq!(rows.len(), 2);
    assert_eq!(rows[0].len(), 2);
    assert_eq!(rows[0][0], Value::String("x".to_string()));
    assert!(rows[1][0].is_null());
    assert!(ok(parse_dolt_json_rows("")).is_empty());
    assert!(ok(parse_dolt_json_rows("{}")).is_empty());
    assert!(parse_dolt_json_rows("{").is_err());
}

#[test]
fn columns_are_read_by_type() {
    let rows = ok(parse_dolt_json_rows(r#"{"rows": [{"a": "7", "b": null, "c": 12}]}"#));
    let row = DoltRow { columns: &rows[0] };
    assert_eq!(ok(row.get::<String>(0)), "7");
    assert_eq!(ok(row.get::<i64>(0)), 7);
    assert_eq!(ok(row.get::<Option<String>>(1)), None);
    assert_eq!(ok(row.get::<i64>(2)), 12);
    assert_eq!(ok(row.get::<usize>(2)), 12);
    assert!(row.get::<String>(9).is_err());
}

#[test]
fn the_binary_lies_under_the_global_root() {
    let found = ok(global_dolt_bin(&env()));
    assert!(found.starts_with("/home/me"), "{found}");
    assert!(found.ends_with("dolt"), "{found}");
}

#[test]
fn no_binary_is_a_failure() {
    let mut backend = Scripted::new(vec![]);
    assert!(find_dolt_bin(&mut backend, &env()).is_err());
}

#[test]
fn a_connection_runs_statements() {
    let mut backend = Scripted::new(vec![Answer::Flag(true)]);
    let conn = ok(DoltConnection::open(&mut backend, &env(), "/db"));
    let first = backend.requests.len();
    backend.script = Vec::new();
    for _ in 0..first {
        backend.script.push(Answer::Flag(true));
    }
    backend.script.push(printed(""));
    backend.script.push(printed(r#"{"rows": [{"n": "one"}, {"n": "two"}]}"#));
    backend.script.push(printed(r#"{"rows": [{"n": "one"}]}"#));
    backend.script.push(printed(r#"{"rows": []}"#));
    backend.script.push(failing("no such table"));
    ok(conn.execute(&mut backend, "DELETE FROM t WHERE n = ?1", &["x'y"]));
    let all = ok(conn.query_map(&mut backend, "SELECT n FROM t", &[], |row| row.get::<String>(0)));
    assert_eq!(all, vec!["one".to_string(), "two".to_string()]);
    let one = ok(conn.query_row(&mut backend, "SELECT n FROM t", &[], |row| row.get::<String>(0)));
    assert_eq!(one, Some("one".to_string()));
    let none = ok(conn.query_row(&mut backend, "SELECT n FROM t", &[], |row| row.get::<String>(0)));
    assert_eq!(none, None);
    let refused = message(conn.query_rows(&mut backend, "SELECT n FROM t", &[]));
    assert!(refused.contains("no such table"), "{refused}");
    match &backend.requests[first] {
        Request::Capture { args, dir, .. } => {
            assert!(args.iter().any(|a| a == "DELETE FROM t WHERE n = 'x''y'"), "{args:?}");
            assert_eq!(dir.as_deref(), Some("/db"));
        }
        _ => panic!("a program should have been run"),
    }
}

#[test]
fn a_saved_head_is_read_back() {
    let mut backend = Scripted::new(vec![Answer::Done(Ok(()))]);
    ok(save_dolt_head(&mut backend, "/state", "abc123"));
    let (path, contents) = match &backend.requests[0] {
        Request::Write { path, contents } => (path.clone(), contents.clone()),
        _ => panic!("a file should have been written"),
    };
    assert!(path.starts_with("/state/"), "{path}");
    let text = String::from_utf8(contents).unwrap();
    let mut backend = Scripted::new(vec![Answer::Flag(true), Answer::Text(Ok(text))]);
    assert_eq!(ok(read_dolt_head(&mut backend, "/state")), Some("abc123".to_string()));
    let mut backend = Scripted::new(vec![Answer::Flag(false)]);
    assert_eq!(ok(read_dolt_head(&mut backend, "/state")), None);
}

#[test]
fn failures_carry_their_context() {
    let mut backend = Scripted::new(vec![Answer::Flag(true), Answer::Text(Err(fail("gone")))]);
    let told = message(read_dolt_head(&mut backend, "/state"));
    assert!(told.ends_with("gone"), "{told}");
}
