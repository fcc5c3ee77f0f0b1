use upload_server::like::like_escape;
use upload_server::logs::{post_logs, JsonBody};
use upload_server::query::{
    compile_query, compile_where, get_logs, get_reply, insert_values, LogQuery, QueryArgs,
    SqlValue, INSERT_SQL, SCHEMA_SQL,
};

fn none() -> LogQuery {
    LogQuery {
        namespace: None,
        keyword: None,
        start: None,
        end: None,
        op: None,
        order: None,
        limit: None,
        offset: None,
    }
}

fn text(s: &str) -> Option<String> {
    Some(s.to_string())
}

fn refused(q: LogQuery) -> (u16, String) {
    match get_logs(q) {
        Ok(_) => panic!("accepted"),
        Err(e) => (e.0, e.1),
    }
}

fn shown(values: &[SqlValue]) -> Vec<String> {
    values
        .iter()
        .map(|v| match v {
            SqlValue::Text(s) => format!("'{}'", s),
            SqlValue::Integer(n) => format!("{}", n),
        })
        .collect()
}

#[test]
fn a_request_without_parameters_has_the_defaults() {
    let args = get_logs(none()).unwrap();
    assert!(args.namespace.is_none() && args.keyword.is_none());
    assert!(args.start.is_none() && args.end.is_none());
    assert_eq!((args.is_or, args.asc, args.limit, args.offset), (false, false, 100, 0));
}

#[test]
fn pages_have_at_most_a_thousand_logs() {
    assert_eq!(get_logs(LogQuery { limit: Some(5000), ..none() }).unwrap().limit, 1000);
    assert_eq!(get_logs(LogQuery { limit: Some(1000), ..none() }).unwrap().limit, 1000);
    assert_eq!(get_logs(LogQuery { limit: Some(7), offset: Some(9), ..none() }).unwrap().limit, 7);
    assert_eq!(get_logs(LogQuery { limit: Some(0), offset: Some(9), ..none() }).unwrap().offset, 9);
}

#[test]
fn words_and_bounds() {
    let args = get_logs(LogQuery {
        op: text("or"),
        order: text("asc"),
        start: text("1"),
        end: text("1970-01-01T00:00:02Z"),
        ..none()
    })
    .unwrap();
    assert!(args.is_or && args.asc);
    assert_eq!((args.start, args.end), (Some(1000), Some(2000)));
    let args = get_logs(LogQuery { op: text("and"), order: text("desc"), ..none() }).unwrap();
    assert!(!args.is_or && !args.asc);
}

#[test]
fn parameters_that_are_refused() {
    assert_eq!(
        refused(LogQuery { op: text("xor"), order: text("up"), ..none() }),
        (400, "op must be \"and\" or \"or\", got \"xor\"".to_string())
    );
    assert_eq!(
        refused(LogQuery { order: text("up"), namespace: text("a b"), ..none() }),
        (400, "order must be \"asc\" or \"desc\", got \"up\"".to_string())
    );
    assert_eq!(
        refused(LogQuery { namespace: text("a b"), start: text("x"), ..none() }),
        (400, "invalid namespace: \"a b\"".to_string())
    );
    assert_eq!(
        refused(LogQuery { start: text("x"), end: text("y"), ..none() }),
        (400, "invalid RFC3339 timestamp: \"x\"".to_string())
    );
    assert_eq!(
        refused(LogQuery { end: text("9223372036854775807"), ..none() }),
        (400, "timestamp out of range".to_string())
    );
}

#[test]
fn a_query_with_all_conditions() {
    let args = get_logs(LogQuery {
        namespace: text("app"),
        keyword: text("50%_\\"),
        start: text("1"),
        end: text("2"),
        limit: Some(10),
        offset: Some(20),
        ..none()
    })
    .unwrap();
    let compiled = compile_query(&args);
    let clause =
        " WHERE namespace = ? AND message LIKE ? ESCAPE '\\' AND ts >= ? AND ts <= ?";
    assert_eq!(compiled.count_sql, format!("SELECT COUNT(*) FROM logs{}", clause));
    assert_eq!(
        compiled.select_sql,
        format!("SELECT raw FROM logs{} ORDER BY ts DESC, id DESC LIMIT 10 OFFSET 20", clause)
    );
    assert_eq!(shown(&compiled.values), ["'app'", "'%50\\%\\_\\\\%'", "1000", "2000"]);
}

#[test]
fn conditions_may_be_joined_with_or() {
    let args = QueryArgs {
        namespace: None,
        keyword: text("x"),
        start: None,
        end: Some(5),
        is_or: true,
        asc: true,
        limit: 1,
        offset: 0,
    };
    let mut sql = "Q".to_string();
    let mut values = vec![SqlValue::Integer(9)];
    compile_where(&args, &mut sql, &mut values);
    assert_eq!(sql, "Q WHERE message LIKE ? ESCAPE '\\' OR ts <= ?");
    assert_eq!(shown(&values), ["9", "'%x%'", "5"]);
    assert_eq!(
        compile_query(&args).select_sql,
        "SELECT raw FROM logs WHERE message LIKE ? ESCAPE '\\' OR ts <= ? ORDER BY ts ASC, id ASC LIMIT 1 OFFSET 0"
    );
}

#[test]
fn a_query_without_conditions_has_no_clause() {
    let compiled = compile_query(&get_logs(none()).unwrap());
    assert_eq!(compiled.count_sql, "SELECT COUNT(*) FROM logs");
    assert!(compiled.values.is_empty());
}

#[test]
fn wildcards_are_escaped() {
    assert_eq!(like_escape("plain"), "plain");
    assert_eq!(like_escape("a%b_c\\d"), "a\\%b\\_c\\\\d");
    assert_eq!(like_escape(""), "");
}

fn sql_values(values: &[SqlValue]) -> Vec<rusqlite::types::Value> {
    values
        .iter()
        .map(|v| match v {
            SqlValue::Text(s) => rusqlite::types::Value::Text(s.clone()),
            SqlValue::Integer(n) => rusqlite::types::Value::Integer(*n),
        })
        .collect()
}

#[test]
fn the_statements_run_and_select_what_is_asked_for() {
    let conn = rusqlite::Connection::open_in_memory().unwrap();
    conn.execute_batch(SCHEMA_SQL).unwrap();
    let rows = [
        (1000, "app", "an ERROR here"),
        (2000, "app2", "100% done"),
        (2000, "app", "1000 done"),
        (3000, "app", "error again"),
    ];
    for (i, (ts, namespace, message)) in rows.iter().enumerate() {
        let raw = format!("{}", i);
        conn.execute(INSERT_SQL, (ts, namespace, message, raw)).unwrap();
    }
    let run = |q: LogQuery| -> (i64, Vec<String>) {
        let compiled = compile_query(&get_logs(q).unwrap());
        let values = sql_values(&compiled.values);
        let total = conn
            .query_row(&compiled.count_sql, rusqlite::params_from_iter(values.clone()), |r| r.get(0))
            .unwrap();
        let mut stmt = conn.prepare(&compiled.select_sql).unwrap();
        let raws = stmt
            .query_map(rusqlite::params_from_iter(values), |r| r.get::<usize, String>(0))
            .unwrap()
            .map(|r| r.unwrap())
            .collect();
        (total, raws)
    };
    let ids = |v: &[&str]| -> Vec<String> { v.iter().map(|s| s.to_string()).collect() };
    assert_eq!(run(none()), (4, ids(&["3", "2", "1", "0"])));
    assert_eq!(run(LogQuery { namespace: text("app"), ..none() }), (3, ids(&["3", "2", "0"])));
    assert_eq!(run(LogQuery { keyword: text("0%"), ..none() }), (1, ids(&["1"])));
    assert_eq!(run(LogQuery { keyword: text("error"), order: text("asc"), ..none() }), (2, ids(&["0", "3"])));
    assert_eq!(
        run(LogQuery { start: text("2"), end: text("2"), limit: Some(1), ..none() }),
        (2, ids(&["2"]))
    );
    assert_eq!(
        run(LogQuery { namespace: text("app2"), end: text("1"), op: text("or"), ..none() }),
        (2, ids(&["1", "0"]))
    );
}

#[test]
fn texts_that_are_no_json_are_left_out() {
    let raws = vec!["{\"a\":1}".to_string(), "{".to_string(), "2".to_string()];
    let reply = get_reply(Ok((9, raws))).unwrap();
    assert_eq!(reply.total, 9);
    let shown: Vec<String> = reply.logs.iter().map(|v| v.to_string()).collect();
    assert_eq!(shown, ["{\"a\":1}", "2"]);
}

#[test]
fn a_query_that_failed() {
    match get_reply(Err("locked".to_string())) {
        Ok(_) => panic!("accepted"),
        Err(e) => assert_eq!((e.0, e.1.as_str()), (500, "query failed: locked")),
    }
}

#[test]
fn texts_of_a_query_do_not_stand_in_its_sql() {
    let sql = |namespace: &str, keyword: &str| {
        let q = LogQuery { namespace: text(namespace), keyword: text(keyword), ..none() };
        compile_query(&get_logs(q).unwrap()).select_sql
    };
    assert_eq!(sql("a", "x"), sql("b", "' OR 1=1; --"));
}

#[test]
fn written_logs_are_found_by_time_and_whole() {
    let entries = [
        r#"{"message":"c","namespace":"x","timestamp":30}"#,
        r#"{"message":"b1","namespace":"x","timestamp":20,"level":{"n":[1,null]}}"#,
        r#"{"message":"a","namespace":"y","timestamp":"1970-01-01T00:00:10Z"}"#,
        r#"{"message":"b2","namespace":"x","timestamp":20}"#,
    ];
    let body: serde_json::Value =
        serde_json::from_str(&format!("[{}]", entries.join(","))).unwrap();
    let conn = rusqlite::Connection::open_in_memory().unwrap();
    conn.execute_batch(SCHEMA_SQL).unwrap();
    for log in post_logs(&JsonBody(body.clone())).unwrap() {
        let values = sql_values(&insert_values(&log));
        conn.execute(INSERT_SQL, rusqlite::params_from_iter(values)).unwrap();
    }
    for (order, expected) in [("asc", [2, 1, 3, 0]), ("desc", [0, 3, 1, 2])] {
        let q = LogQuery { order: text(order), limit: Some(1000), ..none() };
        let compiled = compile_query(&get_logs(q).unwrap());
        let total: i64 = conn.query_row(&compiled.count_sql, (), |r| r.get(0)).unwrap();
        let mut stmt = conn.prepare(&compiled.select_sql).unwrap();
        let raws = stmt.query_map((), |r| r.get(0)).unwrap().map(|r| r.unwrap()).collect();
        let reply = get_reply(Ok((total, raws))).unwrap();
        assert_eq!(reply.total, 4);
        let whole: Vec<serde_json::Value> = expected.iter().map(|i| body[*i].clone()).collect();
        assert_eq!(reply.logs, whole);
    }
}
