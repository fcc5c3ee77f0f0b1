//! Log entries: what a request to write logs may hold, and what is kept of it.

use crate::error::ApiError;
use crate::json::{member, value_text, JsonView};
use crate::namespace::valid_namespace_segment;
use crate::text::{concat, quote, show};
use crate::timestamp::parse_timestamp;
use serde_json::Value;
use vstd::prelude::*;

verus! {

/// How many bytes the message of a log entry may have.
pub const MAX_MESSAGE_BYTES: usize = 65536;

/// How many log entries one request may hold.
pub const MAX_BATCH: usize = 1000;

/// A log entry as it is stored: the time in milliseconds, the namespace, the message, and the
/// text of the whole entry.
#[derive(Debug)]
pub struct ParsedLog {
    pub ts: i64,
    pub namespace: String,
    pub message: String,
    pub raw: String,
}

/// What a log entry holds.
#[verifier::ext_equal]
pub struct LogView {
    pub ts: i64,
    pub namespace: Seq<char>,
    pub message: Seq<char>,
    pub raw: Seq<char>,
}

impl View for ParsedLog {
    type V = LogView;

    open spec fn view(&self) -> LogView {
        LogView {
            ts: self.ts,
            namespace: self.namespace@,
            message: self.message@,
            raw: self.raw@,
        }
    }
}

/// What a sequence of log entries holds.
pub open spec fn log_views(logs: Seq<ParsedLog>) -> Seq<LogView> {
    logs.map_values(|log: ParsedLog| log@)
}

/// A result with the error as a specification writes it.
pub open spec fn api_view<T>(r: Result<T, ApiError>) -> Result<T, (u16, Seq<char>)> {
    match r {
        Ok(t) => Ok(t),
        Err(e) => Err(e@),
    }
}

/// What is answered where the entry at `index` is refused.
pub open spec fn entry_error(index: int, what: Seq<char>) -> (u16, Seq<char>) {
    (400u16, "log #"@ + crate::text::decimal(index as nat) + ": "@ + what)
}

/// The string member of that name.
pub open spec fn text_member(v: JsonView, name: Seq<char>) -> Option<Seq<char>> {
    match crate::json::member_view(v, name) {
        Some(JsonView::Text(s)) => Some(s),
        _ => None,
    }
}

/// What is stored of the entry `v` at `index` of a request, or why it is refused: the first of
/// the rules that it breaks.
pub open spec fn entry_log(index: int, v: JsonView) -> Result<LogView, (u16, Seq<char>)> {
    if !(v is Object) {
        Err(entry_error(index, "must be a json object"@))
    } else {
        match crate::json::member_view(v, "timestamp"@) {
            None => Err(entry_error(index, "missing \"timestamp\""@)),
            Some(t) => match crate::timestamp::timestamp_millis(t) {
                Err(e) => Err(entry_error(index, "timestamp: "@ + e)),
                Ok(ts) => entry_with_time(index, v, ts),
            },
        }
    }
}

/// What is stored of an entry whose time is `ts`, or why it is refused.
pub open spec fn entry_with_time(index: int, v: JsonView, ts: i64) -> Result<
    LogView,
    (u16, Seq<char>),
> {
    match text_member(v, "namespace"@) {
        None => Err(entry_error(index, "missing \"namespace\" string"@)),
        Some(namespace) => if !crate::namespace::valid_segment(namespace) {
            Err(entry_error(index, "invalid namespace: "@ + crate::text::quoted(namespace)))
        } else {
            match text_member(v, "message"@) {
                None => Err(entry_error(index, "missing \"message\" string"@)),
                Some(message) => if message.len() == 0 {
                    Err(entry_error(index, "empty message"@))
                } else if vstd::utf8::encode_utf8(message).len() > MAX_MESSAGE_BYTES {
                    Err(entry_error(index, "message too long (max 65536 bytes)"@))
                } else {
                    Ok(LogView { ts, namespace, message, raw: crate::json::json_text(v) })
                },
            }
        },
    }
}

/// What is answered where the entry at `index` is refused.
fn refuse(index: usize, what: &str) -> (r: ApiError)
    ensures
        r@ == entry_error(index as int, what@),
{
    let mut e: String = concat("log #", show(index as u64).as_str());
    e.append(": ");
    e.append(what);
    ApiError::bad(e)
}

/// What is stored of the entry `v` at `index` of a request, or why it is refused.
pub fn parse_log_entry(index: usize, v: &Value) -> (r: Result<ParsedLog, ApiError>)
    ensures
        match r {
            Ok(log) => entry_log(index as int, crate::json::json_view(*v)) == Ok::<
                LogView,
                (u16, Seq<char>),
            >(log@),
            Err(e) => entry_log(index as int, crate::json::json_view(*v)) == Err::<
                LogView,
                (u16, Seq<char>),
            >(e@),
        },
        r matches Ok(log) ==> crate::json::reads_back(
            crate::json::json_view(*v),
            crate::json::depth_limit(),
        ) ==> crate::json::json_parse(vstd::utf8::encode_utf8(log.raw@)) == Some(
            crate::json::json_view(*v),
        ),
        r matches Ok(log) ==> {
            &&& crate::json::json_view(*v) matches JsonView::Object(members)
            &&& members.contains_key("namespace"@) && members["namespace"@] == JsonView::Text(
                log.namespace@,
            )
            &&& members.contains_key("message"@) && members["message"@] == JsonView::Text(
                log.message@,
            )
            &&& members.contains_key("timestamp"@) && crate::timestamp::timestamp_millis(
                members["timestamp"@],
            ) == Ok::<i64, Seq<char>>(log.ts)
            &&& log.raw@ == crate::json::json_text(crate::json::json_view(*v))
        },
        r matches Err(e) ==> e.0 == 400,
{
    if !v.is_object() {
        return Err(refuse(index, "must be a json object"));
    }
    let ts: &Value = match member(v, "timestamp") {
        Some(ts) => ts,
        None => return Err(refuse(index, "missing \"timestamp\"")),
    };
    let ts: i64 = match parse_timestamp(ts) {
        Ok(ts) => ts,
        Err(e) => return Err(refuse(index, concat("timestamp: ", e.as_str()).as_str())),
    };
    let namespace: &str = match string_member(v, "namespace") {
        Some(namespace) => namespace,
        None => return Err(refuse(index, "missing \"namespace\" string")),
    };
    if !valid_namespace_segment(namespace) {
        let what: String = concat("invalid namespace: ", quote(namespace).as_str());
        return Err(refuse(index, what.as_str()));
    }
    let message: &str = match string_member(v, "message") {
        Some(message) => message,
        None => return Err(refuse(index, "missing \"message\" string")),
    };
    if message.is_empty() {
        return Err(refuse(index, "empty message"));
    }
    if message.as_bytes().len() > MAX_MESSAGE_BYTES {
        return Err(refuse(index, "message too long (max 65536 bytes)"));
    }
    Ok(
        ParsedLog {
            ts,
            namespace: namespace.to_owned(),
            message: message.to_owned(),
            raw: value_text(v),
        },
    )
}

/// The string member of that name.
fn string_member<'a>(v: &'a Value, name: &str) -> (r: Option<&'a str>)
    ensures
        match r {
            Some(s) => text_member(crate::json::json_view(*v), name@) == Some(s@),
            None => text_member(crate::json::json_view(*v), name@) is None,
        },
{
    match member(v, name) {
        Some(x) => x.as_str(),
        None => None,
    }
}

/// The body of a request, a JSON value.
#[derive(Debug)]
pub struct JsonBody(pub Value);

/// Why the body of a request could not be taken as JSON.
#[derive(Debug)]
pub enum JsonRejection {
    /// The content type is not that of JSON.
    MissingJsonContentType,
    /// Any other reason, in words.
    Other(String),
}

/// What is answered where the body could not be taken as JSON.
pub open spec fn rejection_error(e: JsonRejection) -> (u16, Seq<char>) {
    match e {
        JsonRejection::MissingJsonContentType => (
            415u16,
            "expected request with Content-Type: application/json"@,
        ),
        JsonRejection::Other(what) => (400u16, "invalid json body: "@ + what@),
    }
}

impl JsonBody {
    /// The body, from what reading the request gave.
    pub fn from_request(received: Result<Value, JsonRejection>) -> (r: Result<JsonBody, ApiError>)
        ensures
            match received {
                Ok(v) => r == Ok::<JsonBody, ApiError>(JsonBody(v)),
                Err(e) => api_view(r) == Err::<JsonBody, (u16, Seq<char>)>(rejection_error(e)),
            },
    {
        match received {
            Ok(v) => Ok(JsonBody(v)),
            Err(JsonRejection::MissingJsonContentType) => Err(
                ApiError(415, "expected request with Content-Type: application/json".to_owned()),
            ),
            Err(JsonRejection::Other(what)) => Err(
                ApiError::bad(concat("invalid json body: ", what.as_str())),
            ),
        }
    }
}

/// What is stored of the first `n` of the entries of a request, or why the first entry that
/// breaks a rule is refused.
pub open spec fn first_logs(items: Seq<JsonView>, n: int) -> Result<Seq<LogView>, (u16, Seq<char>)>
    decreases n,
{
    if n <= 0 {
        Ok(Seq::empty())
    } else {
        match first_logs(items, n - 1) {
            Err(e) => Err(e),
            Ok(logs) => match entry_log(n - 1, items[n - 1]) {
                Err(e) => Err(e),
                Ok(log) => Ok(logs.push(log)),
            },
        }
    }
}

/// The entries of a request to write logs: the items of an array, 1 to 1000 of them, or one
/// object alone.
pub open spec fn body_entries(body: JsonView) -> Result<Seq<JsonView>, (u16, Seq<char>)> {
    match body {
        JsonView::Array(items) => if items.len() == 0 {
            Err((400u16, "empty log batch"@))
        } else if items.len() > MAX_BATCH {
            Err((400u16, "too many logs in one request (max 1000)"@))
        } else {
            Ok(items)
        },
        JsonView::Object(_) => Ok(seq![body]),
        _ => Err((400u16, "body must be a log object or an array of log objects"@)),
    }
}

/// What is stored of a request to write logs, or why it is refused.
pub open spec fn body_logs(body: JsonView) -> Result<Seq<LogView>, (u16, Seq<char>)> {
    match body_entries(body) {
        Err(e) => Err(e),
        Ok(items) => first_logs(items, items.len() as int),
    }
}

/// Where the first entries hold one that is refused, so do all entries.
proof fn lemma_first_logs_err(items: Seq<JsonView>, m: int, n: int)
    requires
        0 <= m <= n,
        first_logs(items, m) is Err,
    ensures
        first_logs(items, n) == first_logs(items, m),
    decreases n,
{
    if m < n {
        lemma_first_logs_err(items, m, n - 1);
    }
}

/// What is stored of a request to write logs, all of its entries in order, or why it is refused,
/// in which case nothing of it is stored. The text of an entry gives the entry back.
pub fn post_logs(body: &JsonBody) -> (r: Result<Vec<ParsedLog>, ApiError>)
    ensures
        match r {
            Ok(logs) => body_logs(crate::json::json_view(body.0)) == Ok::<
                Seq<LogView>,
                (u16, Seq<char>),
            >(log_views(logs@)),
            Err(e) => body_logs(crate::json::json_view(body.0)) == Err::<
                Seq<LogView>,
                (u16, Seq<char>),
            >(e@),
        },
        r matches Ok(logs) ==> stored_entries_read_back(
            body_entries(crate::json::json_view(body.0))->Ok_0,
            log_views(logs@),
        ),
        r matches Ok(logs) ==> match crate::json::json_view(body.0) {
            JsonView::Array(items) => {
                &&& 1 <= items.len() <= 1000
                &&& logs@.len() == items.len()
                &&& forall|i: int|
                    0 <= i < items.len() ==> (#[trigger] logs@[i]).raw@ == crate::json::json_text(
                        items[i],
                    )
                &&& forall|i: int|
                    0 <= i < items.len() ==> entry_log(i, items[i]) == Ok::<
                        LogView,
                        (u16, Seq<char>),
                    >((#[trigger] logs@[i])@)
            },
            JsonView::Object(_) => {
                &&& logs@.len() == 1
                &&& logs@[0].raw@ == crate::json::json_text(crate::json::json_view(body.0))
            },
            _ => false,
        },
        r matches Err(e) ==> e.0 == 400,
{
    match body.0.as_array() {
        Some(items) => {
            let ghost entries = crate::json::json_views(items@);
            if items.len() == 0 {
                return Err(ApiError::bad("empty log batch".to_owned()));
            }
            if items.len() > MAX_BATCH {
                return Err(ApiError::bad("too many logs in one request (max 1000)".to_owned()));
            }
            let mut logs: Vec<ParsedLog> = Vec::new();
            assert(log_views(logs@) =~= Seq::empty());
            for i in 0..items.len()
                invariant
                    entries == crate::json::json_views(items@),
                    items@.len() <= MAX_BATCH,
                    body_logs(crate::json::json_view(body.0)) == first_logs(
                        entries,
                        entries.len() as int,
                    ),
                    logs@.len() == i,
                    first_logs(entries, i as int) == Ok::<Seq<LogView>, (u16, Seq<char>)>(
                        log_views(logs@),
                    ),
                    stored_entries_read_back(entries, log_views(logs@)),
                    forall|j: int|
                        0 <= j < i ==> (#[trigger] logs@[j]).raw@ == crate::json::json_text(
                            entries[j],
                        ),
                    forall|j: int|
                        0 <= j < i ==> entry_log(j, entries[j]) == Ok::<
                            LogView,
                            (u16, Seq<char>),
                        >((#[trigger] logs@[j])@),
            {
                assert(entries[i as int] == crate::json::json_view(items@[i as int]));
                match parse_log_entry(i, &items[i]) {
                    Ok(log) => {
                        let ghost before = log_views(logs@);
                        logs.push(log);
                        assert(log_views(logs@) =~= before.push(log@));
                    },
                    Err(e) => {
                        proof {
                            lemma_first_logs_err(entries, i + 1, entries.len() as int);
                        }
                        return Err(e);
                    },
                }
            }
            Ok(logs)
        },
        None => {
            if !body.0.is_object() {
                return Err(
                    ApiError::bad("body must be a log object or an array of log objects".to_owned()),
                );
            }
            let ghost entry = crate::json::json_view(body.0);
            proof {
                reveal_with_fuel(first_logs, 2);
            }
            match parse_log_entry(0, &body.0) {
                Ok(log) => {
                    let logs: Vec<ParsedLog> = vec![log];
                    assert(log_views(logs@) =~= Seq::empty().push(log@));
                    Ok(logs)
                },
                Err(e) => Err(e),
            }
        },
    }
}

/// Whether the text that is stored of each of the entries gives the entry back, where its kind of
/// JSON value reads back at all.
pub open spec fn stored_entries_read_back(entries: Seq<JsonView>, logs: Seq<LogView>) -> bool {
    forall|i: int|
        0 <= i < logs.len() && crate::json::reads_back(entries[i], crate::json::depth_limit())
            ==> crate::json::json_parse(vstd::utf8::encode_utf8((#[trigger] logs[i]).raw)) == Some(
            entries[i],
        )
}

/// The answer to a request to write logs that was carried out.
#[derive(Debug)]
pub struct PostReply {
    /// How many log entries were stored.
    pub count: usize,
}

/// The answer to a request to write logs, from how many entries it held and what came of storing
/// them.
pub fn post_reply(count: usize, stored: Result<(), String>) -> (r: Result<PostReply, ApiError>)
    ensures
        match stored {
            Ok(_) => r == Ok::<PostReply, ApiError>(PostReply { count }),
            Err(e) => api_view(r) == Err::<PostReply, (u16, Seq<char>)>(
                (500u16, "store failed: "@ + e@),
            ),
        },
{
    match stored {
        Ok(_) => Ok(PostReply { count }),
        Err(e) => Err(ApiError::internal(concat("store failed: ", e.as_str()))),
    }
}

/// A batch is stored whole or not at all: it is refused exactly where one of its entries is, with
/// the answer to the first such entry, and otherwise every entry is stored, in order.
pub proof fn law_batch_is_all_or_nothing(items: Seq<JsonView>, n: int)
    requires
        0 <= n <= items.len(),
    ensures
        first_logs(items, n) is Ok <==> (forall|i: int|
            0 <= i < n ==> #[trigger] entry_log(i, items[i]) is Ok),
        first_logs(items, n) matches Ok(logs) ==> logs.len() == n && forall|i: int|
            0 <= i < n ==> #[trigger] entry_log(i, items[i]) == Ok::<LogView, (u16, Seq<char>)>(
                logs[i],
            ),
        first_logs(items, n) matches Err(e) ==> exists|k: int|
            #![trigger entry_log(k, items[k])]
            0 <= k < n && entry_log(k, items[k]) == Err::<LogView, (u16, Seq<char>)>(e) && (forall|
                i: int,
            |
                0 <= i < k ==> #[trigger] entry_log(i, items[i]) is Ok),
    decreases n,
{
    if n > 0 {
        law_batch_is_all_or_nothing(items, n - 1);
        assert(entry_log(n - 1, items[n - 1]) == entry_log(n - 1, items[n - 1]));
        match first_logs(items, n - 1) {
            Ok(logs) => {
                if let Ok(log) = entry_log(n - 1, items[n - 1]) {
                    assert forall|i: int| 0 <= i < n implies #[trigger] entry_log(i, items[i])
                        == Ok::<LogView, (u16, Seq<char>)>(logs.push(log)[i]) by {}
                }
            },
            Err(_) => {},
        }
    }
}

/// An entry is stored exactly where it is an object with a timestamp, a string `namespace` that
/// is a segment, and a string `message` of 1 to 65536 bytes; what is stored is these three and
/// the text of the whole object, whatever else it holds, and wherever in the request it stands.
pub proof fn law_entry_rules(index: int, v: JsonView)
    ensures
        entry_log(index, v) is Ok <==> {
            &&& crate::json::member_view(v, "timestamp"@) matches Some(t)
            &&& crate::timestamp::timestamp_millis(t) is Ok
            &&& text_member(v, "namespace"@) matches Some(namespace)
            &&& crate::namespace::valid_segment(namespace)
            &&& text_member(v, "message"@) matches Some(message)
            &&& 1 <= message.len()
            &&& vstd::utf8::encode_utf8(message).len() <= 65536
        },
        entry_log(index, v) matches Ok(log) ==> {
            &&& Some(log.namespace) == text_member(v, "namespace"@)
            &&& Some(log.message) == text_member(v, "message"@)
            &&& log.raw == crate::json::json_text(v)
            &&& crate::timestamp::timestamp_millis(
                crate::json::member_view(v, "timestamp"@)->0,
            ) == Ok::<i64, Seq<char>>(log.ts)
            &&& forall|other: int| #[trigger] entry_log(other, v) == entry_log(index, v)
        },
        entry_log(index, v) matches Err(e) ==> e.0 == 400,
{
}

/// What a request to write logs holds is taken item by item: of an array with 1 to 1000 items the
/// log at each place is that of the item at that place, and all are stored where none is refused,
/// else the first that is refused gives the answer; an object is the one item at place 0. An empty
/// array, a longer one, and any other value are refused.
pub proof fn law_request_is_its_items(body: JsonView)
    ensures
        body matches JsonView::Array(items) ==> 1 <= items.len() <= 1000 ==> {
            &&& body_entries(body) == Ok::<Seq<JsonView>, (u16, Seq<char>)>(items)
            &&& body_logs(body) is Ok <==> (forall|i: int|
                0 <= i < items.len() ==> #[trigger] entry_log(i, items[i]) is Ok)
            &&& body_logs(body) matches Ok(logs) ==> {
                &&& logs.len() == items.len()
                &&& forall|i: int|
                    0 <= i < items.len() ==> #[trigger] entry_log(i, items[i]) == Ok::<
                        LogView,
                        (u16, Seq<char>),
                    >(logs[i])
            }
            &&& body_logs(body) matches Err(e) ==> exists|k: int|
                {
                    &&& 0 <= k < items.len()
                    &&& #[trigger] entry_log(k, items[k]) == Err::<LogView, (u16, Seq<char>)>(e)
                    &&& forall|i: int| 0 <= i < k ==> #[trigger] entry_log(i, items[i]) is Ok
                }
        },
        body matches JsonView::Array(items) ==> items.len() == 0 ==> body_logs(body) == Err::<
            Seq<LogView>,
            (u16, Seq<char>),
        >((400u16, "empty log batch"@)),
        body matches JsonView::Array(items) ==> items.len() > 1000 ==> body_logs(body) == Err::<
            Seq<LogView>,
            (u16, Seq<char>),
        >((400u16, "too many logs in one request (max 1000)"@)),
        body is Object ==> {
            &&& body_entries(body) == Ok::<Seq<JsonView>, (u16, Seq<char>)>(seq![body])
            &&& body_logs(body) == match entry_log(0, body) {
                Ok(log) => Ok::<Seq<LogView>, (u16, Seq<char>)>(seq![log]),
                Err(e) => Err(e),
            }
        },
        !(body is Array) && !(body is Object) ==> body_logs(body) == Err::<
            Seq<LogView>,
            (u16, Seq<char>),
        >((400u16, "body must be a log object or an array of log objects"@)),
{
    if let JsonView::Array(items) = body {
        law_batch_is_all_or_nothing(items, items.len() as int);
    }
    if body is Object {
        reveal_with_fuel(first_logs, 2);
        if let Ok(log) = entry_log(0, body) {
            assert(Seq::<LogView>::empty().push(log) =~= seq![log]);
        }
    }
}

/// What is stored of an entry is what its members say: an object is accepted exactly where it has a
/// timestamp, a segment as `namespace`, and as `message` a text that is not empty and takes at most
/// 64 KiB, whatever other members it has. It is stored with that time, that namespace and that
/// message, and its own text, which holds all of its members.
pub proof fn law_entry_is_stored_as_it_says(index: int, v: JsonView)
    ensures
        entry_log(index, v) is Ok <==> (v matches JsonView::Object(members) && {
            &&& members.contains_key("timestamp"@)
            &&& crate::timestamp::timestamp_millis(members["timestamp"@]) is Ok
            &&& members.contains_key("namespace"@)
            &&& members["namespace"@] matches JsonView::Text(namespace)
            &&& crate::namespace::valid_segment(namespace)
            &&& members.contains_key("message"@)
            &&& members["message"@] matches JsonView::Text(message)
            &&& message.len() > 0
            &&& vstd::utf8::encode_utf8(message).len() <= 64 * 1024
        }),
        entry_log(index, v) matches Ok(log) ==> {
            &&& v matches JsonView::Object(members)
            &&& crate::timestamp::timestamp_millis(members["timestamp"@]) == Ok::<i64, Seq<char>>(
                log.ts,
            )
            &&& members["namespace"@] == JsonView::Text(log.namespace)
            &&& members["message"@] == JsonView::Text(log.message)
            &&& log.raw == crate::json::json_text(v)
        },
{
}

/// What is said of an entry that is refused: its place in the request, and the first rule that it
/// breaks.
pub proof fn law_refused_entry_is_named(index: nat, v: JsonView)
    ensures
        entry_log(index as int, v) matches Err(e) ==> {
            let what = |w: Seq<char>|
                e == (400u16, "log #"@ + crate::text::decimal(index) + ": "@ + w);
            match v {
                JsonView::Object(members) => if !members.contains_key("timestamp"@) {
                    what("missing \"timestamp\""@)
                } else if crate::timestamp::timestamp_millis(members["timestamp"@]) is Err {
                    what(
                        "timestamp: "@ + crate::timestamp::timestamp_millis(
                            members["timestamp"@],
                        )->Err_0,
                    )
                } else if !(members.contains_key("namespace"@) && members["namespace"@] is Text) {
                    what("missing \"namespace\" string"@)
                } else if !crate::namespace::valid_segment(members["namespace"@]->Text_0) {
                    what(
                        "invalid namespace: "@ + crate::text::quoted(
                            members["namespace"@]->Text_0,
                        ),
                    )
                } else if !(members.contains_key("message"@) && members["message"@] is Text) {
                    what("missing \"message\" string"@)
                } else if members["message"@]->Text_0.len() == 0 {
                    what("empty message"@)
                } else {
                    what("message too long (max 65536 bytes)"@)
                },
                _ => what("must be a json object"@),
            }
        },
{
}

/// A log and an answer are seen whole: each part has its place in the view.
pub proof fn law_logs_are_seen_whole(logs: Seq<ParsedLog>, e: ApiError)
    ensures
        log_views(logs).len() == logs.len(),
        forall|i: int|
            0 <= i < logs.len() ==> {
                let (log, view) = (logs[i], #[trigger] log_views(logs)[i]);
                &&& view.ts == log.ts
                &&& view.namespace == log.namespace@
                &&& view.message == log.message@
                &&& view.raw == log.raw@
            },
        e@ == (e.0, e.1@),
{
}

/// A result is seen as it is.
pub proof fn law_results_are_seen_whole<T>(r: Result<T, ApiError>)
    ensures
        r matches Ok(t) ==> api_view(r) == Ok::<T, (u16, Seq<char>)>(t),
        r matches Err(e) ==> api_view(r) == Err::<T, (u16, Seq<char>)>((e.0, e.1@)),
{
}

/// A body that could not be taken as JSON is answered by its cause: the wrong content type with 415,
/// anything else with 400 and what went wrong.
pub proof fn law_unreadable_bodies_are_answered_by_cause(e: JsonRejection)
    ensures
        e is MissingJsonContentType ==> rejection_error(e) == (
            415u16,
            "expected request with Content-Type: application/json"@,
        ),
        e matches JsonRejection::Other(what) ==> rejection_error(e) == (
            400u16,
            "invalid json body: "@ + what@,
        ),
{
}

} // verus!
