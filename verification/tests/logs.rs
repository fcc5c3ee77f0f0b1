use serde_json::Value;
use upload_server::error::ApiError;
use upload_server::logs::{
    parse_log_entry, post_logs, post_reply, JsonBody, JsonRejection, MAX_BATCH,
    MAX_MESSAGE_BYTES,
};
use upload_server::query::{get_reply, insert_values, SqlValue};

fn json(text: &str) -> Value {
    serde_json::from_str(text).unwrap()
}

fn body(text: &str) -> JsonBody {
    JsonBody(json(text))
}

fn refused(text: &str) -> (u16, String) {
    match post_logs(&body(text)) {
        Ok(_) => panic!("accepted: {}", text),
        Err(ApiError(status, message)) => (status, message),
    }
}

#[test]
fn a_single_object_is_one_log() {
    let logs = post_logs(&body(
        r#"{"timestamp":"2026-09-01T12:00:00Z","namespace":"app","message":"boot ok"}"#,
    ))
    .unwrap();
    assert_eq!(logs.len(), 1);
    assert_eq!(logs[0].ts, 1_788_264_000_000);
    assert_eq!(logs[0].namespace, "app");
    assert_eq!(logs[0].message, "boot ok");
    assert_eq!(
        logs[0].raw,
        r#"{"message":"boot ok","namespace":"app","timestamp":"2026-09-01T12:00:00Z"}"#
    );
}

#[test]
fn a_batch_keeps_its_order() {
    let logs = post_logs(&body(
        r#"[{"timestamp":2,"namespace":"a","message":"x"},{"timestamp":1,"namespace":"b","message":"y"}]"#,
    ))
    .unwrap();
    assert_eq!(logs.len(), 2);
    assert_eq!((logs[0].ts, logs[0].namespace.as_str()), (2000, "a"));
    assert_eq!((logs[1].ts, logs[1].namespace.as_str()), (1000, "b"));
}

#[test]
fn one_bad_entry_refuses_the_batch() {
    let text = r#"[{"timestamp":2,"namespace":"a","message":"x"},{"timestamp":1,"message":"y"},{}]"#;
    assert_eq!(refused(text), (400, "log #1: missing \"namespace\" string".to_string()));
}

#[test]
fn bodies_that_hold_no_logs_are_refused() {
    assert_eq!(refused("[]"), (400, "empty log batch".to_string()));
    for text in ["1", "null", "true", "\"x\""] {
        assert_eq!(
            refused(text),
            (400, "body must be a log object or an array of log objects".to_string())
        );
    }
}

#[test]
fn a_batch_has_at_most_a_thousand_logs() {
    let entry = json(r#"{"timestamp":1,"namespace":"a","message":"x"}"#);
    let full = JsonBody(Value::Array(vec![entry.clone(); MAX_BATCH]));
    assert_eq!(post_logs(&full).unwrap().len(), 1000);
    let over = JsonBody(Value::Array(vec![entry; MAX_BATCH + 1]));
    match post_logs(&over) {
        Ok(_) => panic!("accepted"),
        Err(e) => {
            assert_eq!((e.0, e.1.as_str()), (400, "too many logs in one request (max 1000)"))
        }
    }
}

#[test]
fn each_rule_of_an_entry_has_its_answer() {
    let cases = [
        ("3", "log #0: must be a json object"),
        ("{}", "log #0: missing \"timestamp\""),
        (r#"{"timestamp":null}"#, "log #0: timestamp: must be an RFC3339 string or unix seconds number"),
        (r#"{"timestamp":1.5}"#, "log #0: timestamp: must be an integer count of seconds"),
        (r#"{"timestamp":9223372036854775807}"#, "log #0: timestamp: timestamp out of range"),
        (r#"{"timestamp":"x\"y"}"#, "log #0: timestamp: invalid RFC3339 timestamp: \"x\\\"y\""),
        (r#"{"timestamp":1}"#, "log #0: missing \"namespace\" string"),
        (r#"{"timestamp":1,"namespace":7}"#, "log #0: missing \"namespace\" string"),
        (r#"{"timestamp":1,"namespace":"a/b"}"#, "log #0: invalid namespace: \"a/b\""),
        (r#"{"timestamp":1,"namespace":"a"}"#, "log #0: missing \"message\" string"),
        (r#"{"timestamp":1,"namespace":"a","message":""}"#, "log #0: empty message"),
    ];
    for (text, message) in cases {
        match parse_log_entry(0, &json(text)) {
            Ok(_) => panic!("accepted: {}", text),
            Err(e) => assert_eq!((e.0, e.1.as_str()), (400, message)),
        }
    }
}

#[test]
fn the_index_of_the_entry_is_named() {
    match parse_log_entry(120, &json("{}")) {
        Ok(_) => panic!("accepted"),
        Err(e) => assert_eq!(e.1, "log #120: missing \"timestamp\""),
    }
}

#[test]
fn messages_are_counted_in_bytes() {
    let entry = |message: String| {
        let mut members = serde_json::Map::new();
        members.insert("timestamp".to_string(), Value::from(1));
        members.insert("namespace".to_string(), Value::from("a"));
        members.insert("message".to_string(), Value::from(message));
        Value::Object(members)
    };
    let full = parse_log_entry(0, &entry("x".repeat(MAX_MESSAGE_BYTES))).unwrap();
    assert_eq!(full.message.len(), 65536);
    assert!(parse_log_entry(0, &entry("\u{e9}".repeat(MAX_MESSAGE_BYTES / 2))).is_ok());
    match parse_log_entry(0, &entry("\u{e9}".repeat(MAX_MESSAGE_BYTES / 2 + 1))) {
        Ok(_) => panic!("accepted"),
        Err(e) => assert_eq!(e.1, "log #0: message too long (max 65536 bytes)"),
    }
}

#[test]
fn written_logs_come_back_with_their_extra_members() {
    let text = r#"[{"timestamp":1,"namespace":"a","message":"x\n\u0001","extra":{"k":[1,null,true,-5]},"ratio":0.25},{"timestamp":2,"namespace":"b","message":"y"}]"#;
    let logs = post_logs(&body(text)).unwrap();
    let raws: Vec<String> = logs.into_iter().map(|log| log.raw).collect();
    let reply = get_reply(Ok((2, raws))).unwrap();
    assert_eq!(reply.total, 2);
    assert_eq!(Value::Array(reply.logs), json(text));
}

#[test]
fn every_number_comes_back_as_it_was() {
    let reals: [f64; 21] = [
        0.25, 0.000001, 1e-7, 1e15, 1e16, 1.5e300, 0.30000000000000004, 0.1, -0.0,
        9007199254740993.0, 1.7976931348623157e308, 2.2250738585072014e-308,
        2.225073858507201e-308, 5e-324, 123456789.12345679, 1.2345678901234567e-5,
        8.41e21, 9.5e22, 6.0221407600000003e23, 0.1e-6, 3.141592653589793,
    ];
    for x in reals {
        for x in [x, -x] {
            let mut entry = json(r#"{"timestamp":1,"namespace":"a","message":"m"}"#);
            entry["x"] = Value::from(x);
            let log = parse_log_entry(0, &entry).unwrap();
            let reply = get_reply(Ok((1, vec![log.raw]))).unwrap();
            let back = reply.logs[0]["x"].as_f64().unwrap();
            assert_eq!(back.to_bits(), x.to_bits(), "{}", x);
        }
    }
    let raw = |text: &str| parse_log_entry(0, &json(text)).unwrap().raw;
    let text = |x: &str| {
        format!(r#"{{"message":"m","namespace":"a","timestamp":1,"x":{}}}"#, x)
    };
    for x in ["1e-7", "1e+16", "0.30000000000000004", "1000000000000000.0", "-0.0"] {
        assert_eq!(raw(&text(x)), text(x));
    }
    for x in [Value::from(u64::MAX), Value::from(i64::MIN)] {
        let mut entry = json(r#"{"timestamp":1,"namespace":"a","message":"m"}"#);
        entry["x"] = x;
        let log = parse_log_entry(0, &entry).unwrap();
        assert_eq!(get_reply(Ok((1, vec![log.raw]))).unwrap().logs, [entry]);
    }
}

#[test]
fn a_reserved_name_is_kept_behind_another() {
    let entry = |members: &str| {
        json(&format!(r#"{{"timestamp":1,"namespace":"a","message":"m"{}}}"#, members))
    };
    let read = |entry: &Value| {
        let log = parse_log_entry(0, entry).unwrap();
        get_reply(Ok((1, vec![log.raw]))).unwrap().logs
    };
    let behind = entry(r#","!":0,"$serde_json::private::RawValue":1"#);
    assert_eq!(read(&behind), [behind]);
    assert_eq!(read(&entry(r#","$serde_json::private::RawValue":1"#)).len(), 0);
}

#[test]
fn entries_come_back_down_to_a_depth() {
    let nested = |depth: usize| {
        let mut v = Value::from(1);
        for _ in 0..depth {
            v = Value::Array(vec![v]);
        }
        let mut entry = json(r#"{"timestamp":1,"namespace":"a","message":"m"}"#);
        entry["x"] = v;
        entry
    };
    let read = |entry: &Value| {
        let log = parse_log_entry(0, entry).unwrap();
        get_reply(Ok((1, vec![log.raw]))).unwrap().logs
    };
    assert_eq!(read(&nested(126)), [nested(126)]);
    assert_eq!(read(&nested(127)).len(), 0);
}

#[test]
fn the_values_of_an_insert_follow_the_columns() {
    let log = parse_log_entry(0, &json(r#"{"timestamp":3,"namespace":"n","message":"m"}"#)).unwrap();
    let values = insert_values(&log);
    assert_eq!(values.len(), 4);
    assert!(matches!(&values[0], SqlValue::Integer(3000)));
    assert!(matches!(&values[1], SqlValue::Text(s) if s == "n"));
    assert!(matches!(&values[2], SqlValue::Text(s) if s == "m"));
    assert!(matches!(&values[3], SqlValue::Text(s) if *s == log.raw));
}

#[test]
fn storing_is_answered_with_the_count_or_the_fault() {
    assert_eq!(post_reply(3, Ok(())).unwrap().count, 3);
    match post_reply(3, Err("disk full".to_string())) {
        Ok(_) => panic!("accepted"),
        Err(e) => assert_eq!((e.0, e.1.as_str()), (500, "store failed: disk full")),
    }
}

#[test]
fn bodies_that_are_no_json_are_refused() {
    let answer = |rejection| match JsonBody::from_request(Err(rejection)) {
        Ok(_) => panic!("accepted"),
        Err(ApiError(status, message)) => (status, message),
    };
    assert_eq!(
        answer(JsonRejection::MissingJsonContentType),
        (415, "expected request with Content-Type: application/json".to_string())
    );
    assert_eq!(
        answer(JsonRejection::Other("oops".to_string())),
        (400, "invalid json body: oops".to_string())
    );
    assert_eq!(JsonBody::from_request(Ok(json("[1]"))).unwrap().0, json("[1]"));
}
