//! Queries for logs: what a request may ask for, and the SQL that finds it.

use crate::error::ApiError;
use crate::json::{parse_value, JsonView};
use crate::like::like_escape;
use crate::logs::{LogView, ParsedLog};
use crate::namespace::valid_namespace_segment;
use crate::text::{concat, join, quote, same_text, show};
use crate::timestamp::parse_ts_param;
use serde_json::Value;
use vstd::prelude::*;

verus! {

/// How many logs a page holds where the request does not say.
pub const DEFAULT_LIMIT: usize = 100;

/// How many logs a page holds at most.
pub const MAX_LIMIT: usize = 1000;

/// The parameters of a request for logs, each of which may be missing.
#[derive(Debug)]
pub struct LogQuery {
    pub namespace: Option<String>,
    pub keyword: Option<String>,
    pub start: Option<String>,
    pub end: Option<String>,
    pub op: Option<String>,
    pub order: Option<String>,
    pub limit: Option<usize>,
    pub offset: Option<usize>,
}

/// What a request for logs asks for.
#[derive(Debug)]
pub struct QueryArgs {
    pub namespace: Option<String>,
    pub keyword: Option<String>,
    pub start: Option<i64>,
    pub end: Option<i64>,
    pub is_or: bool,
    pub asc: bool,
    pub limit: usize,
    pub offset: usize,
}

/// What a request for logs asks for: logs of this namespace, with this text in the message, not
/// before `start` and not after `end`; the logs for which one of these holds (`is_or`) or all;
/// the earliest first (`asc`) or the latest; at most `limit` of them, after `offset` others.
#[verifier::ext_equal]
pub struct QueryView {
    pub namespace: Option<Seq<char>>,
    pub keyword: Option<Seq<char>>,
    pub start: Option<i64>,
    pub end: Option<i64>,
    pub is_or: bool,
    pub asc: bool,
    pub limit: usize,
    pub offset: usize,
}

impl View for QueryArgs {
    type V = QueryView;

    open spec fn view(&self) -> QueryView {
        QueryView {
            namespace: crate::text::option_text(self.namespace),
            keyword: crate::text::option_text(self.keyword),
            start: self.start,
            end: self.end,
            is_or: self.is_or,
            asc: self.asc,
            limit: self.limit,
            offset: self.offset,
        }
    }
}

/// Whether a parameter is the word `yes`; it is the word `no` where it is missing.
pub open spec fn choice(
    given: Option<Seq<char>>,
    no: Seq<char>,
    yes: Seq<char>,
    what: Seq<char>,
) -> Result<bool, Seq<char>> {
    match given {
        None => Ok(false),
        Some(word) => if word == no {
            Ok(false)
        } else if word == yes {
            Ok(true)
        } else {
            Err(what + crate::text::quoted(word))
        },
    }
}

/// The bound in time that a parameter gives.
pub open spec fn time_bound(given: Option<Seq<char>>) -> Result<Option<i64>, Seq<char>> {
    match given {
        None => Ok(None),
        Some(t) => match crate::timestamp::param_millis(t) {
            Ok(n) => Ok(Some(n)),
            Err(e) => Err(e),
        },
    }
}

/// What a request for logs asks for, or why it is refused: the first of its parameters, in the
/// order `op`, `order`, `namespace`, `start`, `end`, that is not as it must be.
pub open spec fn wanted(q: LogQuery) -> Result<QueryView, Seq<char>> {
    match choice(
        crate::text::option_text(q.op),
        "and"@,
        "or"@,
        "op must be \"and\" or \"or\", got "@,
    ) {
        Err(e) => Err(e),
        Ok(is_or) => match choice(
            crate::text::option_text(q.order),
            "desc"@,
            "asc"@,
            "order must be \"asc\" or \"desc\", got "@,
        ) {
            Err(e) => Err(e),
            Ok(asc) => wanted_in_order(q, is_or, asc),
        },
    }
}

/// What a request asks for whose `op` and `order` are known.
pub open spec fn wanted_in_order(q: LogQuery, is_or: bool, asc: bool) -> Result<
    QueryView,
    Seq<char>,
> {
    let namespace = crate::text::option_text(q.namespace);
    if namespace is Some && !crate::namespace::valid_segment(namespace->0) {
        Err("invalid namespace: "@ + crate::text::quoted(namespace->0))
    } else {
        match time_bound(crate::text::option_text(q.start)) {
            Err(e) => Err(e),
            Ok(start) => match time_bound(crate::text::option_text(q.end)) {
                Err(e) => Err(e),
                Ok(end) => Ok(
                    QueryView {
                        namespace,
                        keyword: crate::text::option_text(q.keyword),
                        start,
                        end,
                        is_or,
                        asc,
                        limit: match q.limit {
                            Some(n) => if n < MAX_LIMIT {
                                n
                            } else {
                                MAX_LIMIT
                            },
                            None => DEFAULT_LIMIT,
                        },
                        offset: match q.offset {
                            Some(n) => n,
                            None => 0,
                        },
                    },
                ),
            },
        }
    }
}

/// Whether a parameter is the word `yes`.
fn choose_word(given: &Option<String>, no: &str, yes: &str, what: &str) -> (r: Result<bool, String>)
    ensures
        crate::text::result_view(r) == choice(
            crate::text::option_text(*given),
            no@,
            yes@,
            what@,
        ),
{
    match given {
        None => Ok(false),
        Some(word) => {
            if same_text(word.as_str(), no) {
                Ok(false)
            } else if same_text(word.as_str(), yes) {
                Ok(true)
            } else {
                Err(concat(what, quote(word.as_str()).as_str()))
            }
        },
    }
}

/// The bound in time that a parameter gives.
fn bound(given: &Option<String>) -> (r: Result<Option<i64>, String>)
    ensures
        crate::text::result_view(r) == time_bound(crate::text::option_text(*given)),
{
    match given {
        None => Ok(None),
        Some(t) => match parse_ts_param(t.as_str()) {
            Ok(n) => Ok(Some(n)),
            Err(e) => Err(e),
        },
    }
}

/// What a request for logs asks for, or why it is refused.
pub fn get_logs(q: LogQuery) -> (r: Result<QueryArgs, ApiError>)
    ensures
        match r {
            Ok(args) => wanted(q) == Ok::<QueryView, Seq<char>>(args@),
            Err(e) => e.0 == 400 && wanted(q) == Err::<QueryView, Seq<char>>(e.1@),
        },
        r matches Ok(args) ==> {
            &&& args.namespace == q.namespace
            &&& args.keyword == q.keyword
            &&& args.start is Some == q.start is Some
            &&& args.end is Some == q.end is Some
            &&& args.is_or == (q.op matches Some(s) && s@ == "or"@)
            &&& args.asc == (q.order matches Some(s) && s@ == "asc"@)
            &&& args.limit == (match q.limit {
                None => 100,
                Some(n) => if n > 1000 {
                    1000
                } else {
                    n as int
                },
            })
            &&& args.offset == (match q.offset {
                None => 0,
                Some(n) => n as int,
            })
        },
{
    proof {
        reveal_strlit("and");
        reveal_strlit("or");
        reveal_strlit("asc");
        reveal_strlit("desc");
        assert("and"@.len() != "or"@.len());
        assert("asc"@.len() != "desc"@.len());
    }
    let is_or: bool = match choose_word(
        &q.op,
        "and",
        "or",
        "op must be \"and\" or \"or\", got ",
    ) {
        Ok(is_or) => is_or,
        Err(e) => return Err(ApiError::bad(e)),
    };
    let asc: bool = match choose_word(
        &q.order,
        "desc",
        "asc",
        "order must be \"asc\" or \"desc\", got ",
    ) {
        Ok(asc) => asc,
        Err(e) => return Err(ApiError::bad(e)),
    };
    if let Some(namespace) = &q.namespace {
        if !valid_namespace_segment(namespace.as_str()) {
            return Err(
                ApiError::bad(
                    concat("invalid namespace: ", quote(namespace.as_str()).as_str()),
                ),
            );
        }
    }
    let start: Option<i64> = match bound(&q.start) {
        Ok(start) => start,
        Err(e) => return Err(ApiError::bad(e)),
    };
    let end: Option<i64> = match bound(&q.end) {
        Ok(end) => end,
        Err(e) => return Err(ApiError::bad(e)),
    };
    let limit: usize = match q.limit {
        Some(n) => if n < MAX_LIMIT {
            n
        } else {
            MAX_LIMIT
        },
        None => DEFAULT_LIMIT,
    };
    let offset: usize = match q.offset {
        Some(n) => n,
        None => 0,
    };
    Ok(
        QueryArgs {
            namespace: q.namespace,
            keyword: q.keyword,
            start,
            end,
            is_or,
            asc,
            limit,
            offset,
        },
    )
}

/// A value that takes the place of a `?` in SQL.
#[derive(Debug)]
pub enum SqlValue {
    Text(String),
    Integer(i64),
}

/// What a value in SQL holds.
pub enum SqlView {
    Text(Seq<char>),
    Integer(i64),
}

impl View for SqlValue {
    type V = SqlView;

    open spec fn view(&self) -> SqlView {
        match *self {
            SqlValue::Text(s) => SqlView::Text(s@),
            SqlValue::Integer(n) => SqlView::Integer(n),
        }
    }
}

/// What a sequence of values holds.
pub open spec fn sql_views(values: Seq<SqlValue>) -> Seq<SqlView> {
    values.map_values(|v: SqlValue| v@)
}

/// A condition on a log.
pub enum Condition {
    NamespaceIs(Seq<char>),
    MessageLike(Seq<char>),
    NotBefore(i64),
    NotAfter(i64),
}

/// The conditions that a query sets.
pub open spec fn conditions(q: QueryView) -> Seq<Condition> {
    let namespace = match q.namespace {
        Some(s) => seq![Condition::NamespaceIs(s)],
        None => Seq::empty(),
    };
    let keyword = match q.keyword {
        Some(s) => seq![
            Condition::MessageLike(seq!['%'] + crate::like::escaped(s) + seq!['%']),
        ],
        None => Seq::empty(),
    };
    let start = match q.start {
        Some(t) => seq![Condition::NotBefore(t)],
        None => Seq::empty(),
    };
    let end = match q.end {
        Some(t) => seq![Condition::NotAfter(t)],
        None => Seq::empty(),
    };
    namespace + keyword + start + end
}

/// A condition in SQL, with `?` for its value.
pub open spec fn condition_sql(c: Condition) -> Seq<char> {
    match c {
        Condition::NamespaceIs(_) => "namespace = ?"@,
        Condition::MessageLike(_) => "message LIKE ? ESCAPE '\\'"@,
        Condition::NotBefore(_) => "ts >= ?"@,
        Condition::NotAfter(_) => "ts <= ?"@,
    }
}

/// The value of a condition.
pub open spec fn condition_value(c: Condition) -> SqlView {
    match c {
        Condition::NamespaceIs(s) => SqlView::Text(s),
        Condition::MessageLike(p) => SqlView::Text(p),
        Condition::NotBefore(t) => SqlView::Integer(t),
        Condition::NotAfter(t) => SqlView::Integer(t),
    }
}

/// The values of the conditions that a query sets, in order.
pub open spec fn where_values(q: QueryView) -> Seq<SqlView> {
    conditions(q).map_values(|c: Condition| condition_value(c))
}

/// The clause of SQL that selects what a query asks for; none where it sets no condition.
pub open spec fn where_sql(q: QueryView) -> Seq<char> {
    if conditions(q).len() == 0 {
        Seq::empty()
    } else {
        " WHERE "@ + crate::text::joined(
            conditions(q).map_values(|c: Condition| condition_sql(c)),
            if q.is_or {
                " OR "@
            } else {
                " AND "@
            },
        )
    }
}

/// Appends the clause that selects what a query asks for, and its values.
pub fn compile_where(args: &QueryArgs, sql: &mut String, values: &mut Vec<SqlValue>)
    ensures
        final(sql)@ == old(sql)@ + where_sql(args@),
        sql_views(final(values)@) == sql_views(old(values)@) + where_values(args@),
{
    let ghost before = sql_views(values@);
    let mut conds: Vec<String> = Vec::new();
    if let Some(namespace) = &args.namespace {
        conds.push("namespace = ?".to_owned());
        values.push(SqlValue::Text(namespace.clone()));
    }
    if let Some(keyword) = &args.keyword {
        conds.push("message LIKE ? ESCAPE '\\'".to_owned());
        let mut pattern: String = concat("%", like_escape(keyword.as_str()).as_str());
        pattern.append("%");
        proof {
            reveal_strlit("%");
            assert("%"@ =~= seq!['%']);
        }
        values.push(SqlValue::Text(pattern));
    }
    if let Some(start) = args.start {
        conds.push("ts >= ?".to_owned());
        values.push(SqlValue::Integer(start));
    }
    if let Some(end) = args.end {
        conds.push("ts <= ?".to_owned());
        values.push(SqlValue::Integer(end));
    }
    proof {
        assert(crate::text::texts(conds@) =~= conditions(args@).map_values(
            |c: Condition| condition_sql(c),
        ));
        assert(sql_views(values@) =~= before + where_values(args@));
    }
    if conds.len() > 0 {
        sql.append(" WHERE ");
        let word: &str = if args.is_or {
            " OR "
        } else {
            " AND "
        };
        sql.append(join(&conds, word).as_str());
    }
    assert(sql@ =~= old(sql)@ + where_sql(args@));
}

/// The table of logs, and the indexes that queries use.
pub const SCHEMA_SQL: &'static str = "PRAGMA journal_mode=WAL;
CREATE TABLE IF NOT EXISTS logs (
    id INTEGER PRIMARY KEY AUTOINCREMENT,
    ts INTEGER NOT NULL,
    namespace TEXT NOT NULL,
    message TEXT NOT NULL,
    raw TEXT NOT NULL
);
CREATE INDEX IF NOT EXISTS idx_logs_ts ON logs(ts);
CREATE INDEX IF NOT EXISTS idx_logs_namespace ON logs(namespace);";

/// The statement that stores a log; `insert_values` gives its values.
pub const INSERT_SQL: &'static str =
    "INSERT INTO logs (ts, namespace, message, raw) VALUES (?1, ?2, ?3, ?4)";

/// The values of the statement that stores a log.
pub fn insert_values(log: &ParsedLog) -> (r: Vec<SqlValue>)
    ensures
        sql_views(r@) == seq![
            SqlView::Integer(log@.ts),
            SqlView::Text(log@.namespace),
            SqlView::Text(log@.message),
            SqlView::Text(log@.raw),
        ],
        r@.len() == 4,
        r@[0] == SqlValue::Integer(log.ts),
        r@[1] matches SqlValue::Text(s) && s@ == log.namespace@,
        r@[2] matches SqlValue::Text(s) && s@ == log.message@,
        r@[3] matches SqlValue::Text(s) && s@ == log.raw@,
{
    let r: Vec<SqlValue> = vec![
        SqlValue::Integer(log.ts),
        SqlValue::Text(log.namespace.clone()),
        SqlValue::Text(log.message.clone()),
        SqlValue::Text(log.raw.clone()),
    ];
    assert(sql_views(r@) =~= seq![
        SqlView::Integer(log@.ts),
        SqlView::Text(log@.namespace),
        SqlView::Text(log@.message),
        SqlView::Text(log@.raw),
    ]);
    r
}

/// A query in SQL: the statement that counts the logs it selects, the statement that gives the
/// texts of a page of them, and the values of either.
#[derive(Debug)]
pub struct CompiledQuery {
    pub count_sql: String,
    pub select_sql: String,
    pub values: Vec<SqlValue>,
}

/// The statement that counts the logs that a query selects.
pub open spec fn count_sql(q: QueryView) -> Seq<char> {
    "SELECT COUNT(*) FROM logs"@ + where_sql(q)
}

/// The statement that gives the texts of the page that a query asks for, ordered by time, and by
/// the order of writing among logs of the same time.
pub open spec fn select_sql(q: QueryView) -> Seq<char> {
    let dir = if q.asc {
        "ASC"@
    } else {
        "DESC"@
    };
    "SELECT raw FROM logs"@ + where_sql(q) + " ORDER BY ts "@ + dir + ", id "@ + dir + " LIMIT "@
        + crate::text::decimal(q.limit as nat) + " OFFSET "@ + crate::text::decimal(q.offset as nat)
}

/// A query in SQL.
pub fn compile_query(args: &QueryArgs) -> (r: CompiledQuery)
    ensures
        r.count_sql@ == count_sql(args@),
        r.select_sql@ == select_sql(args@),
        sql_views(r.values@) == where_values(args@),
{
    let mut values: Vec<SqlValue> = Vec::new();
    let mut clause: String = String::new();
    compile_where(args, &mut clause, &mut values);
    assert(clause@ =~= where_sql(args@));
    assert(sql_views(values@) =~= where_values(args@));
    let dir: &str = if args.asc {
        "ASC"
    } else {
        "DESC"
    };
    let mut select: String = concat("SELECT raw FROM logs", clause.as_str());
    select.append(" ORDER BY ts ");
    select.append(dir);
    select.append(", id ");
    select.append(dir);
    select.append(" LIMIT ");
    select.append(show(args.limit as u64).as_str());
    select.append(" OFFSET ");
    select.append(show(args.offset as u64).as_str());
    CompiledQuery {
        count_sql: concat("SELECT COUNT(*) FROM logs", clause.as_str()),
        select_sql: select,
        values,
    }
}

/// The JSON values that the texts hold; a text that is no JSON counts for nothing.
pub open spec fn readable(raws: Seq<Seq<char>>) -> Seq<JsonView>
    decreases raws.len(),
{
    if raws.len() == 0 {
        Seq::empty()
    } else {
        match crate::json::json_parse(vstd::utf8::encode_utf8(raws.last())) {
            Some(v) => readable(raws.drop_last()).push(v),
            None => readable(raws.drop_last()),
        }
    }
}

/// The JSON values that the texts of logs hold.
pub fn readable_logs(raws: &Vec<String>) -> (r: Vec<Value>)
    ensures
        crate::json::json_views(r@) == readable(crate::text::texts(raws@)),
{
    let mut r: Vec<Value> = Vec::new();
    let ghost all = crate::text::texts(raws@);
    assert(all.take(0) =~= Seq::empty());
    assert(crate::json::json_views(r@) =~= readable(all.take(0)));
    for i in 0..raws.len()
        invariant
            all == crate::text::texts(raws@),
            crate::json::json_views(r@) == readable(all.take(i as int)),
    {
        assert(all.take(i + 1).drop_last() =~= all.take(i as int));
        let ghost before = crate::json::json_views(r@);
        match parse_value(raws[i].as_str().as_bytes()) {
            Ok(v) => {
                r.push(v);
                assert(crate::json::json_views(r@) =~= before.push(crate::json::json_view(v)));
            },
            Err(_) => {},
        }
    }
    assert(all.take(all.len() as int) =~= all);
    r
}

/// The answer to a request for logs: how many logs the query selects, and a page of them.
#[derive(Debug)]
pub struct LogsReply {
    pub total: i64,
    pub logs: Vec<Value>,
}

/// The answer to a request for logs, from the count and the texts that the query gave.
pub fn get_reply(found: Result<(i64, Vec<String>), String>) -> (r: Result<LogsReply, ApiError>)
    ensures
        match found {
            Ok((total, raws)) => r matches Ok(reply) && reply.total == total
                && crate::json::json_views(reply.logs@) == readable(crate::text::texts(raws@)),
            Err(e) => r matches Err(answer) && answer@ == (500u16, "query failed: "@ + e@),
        },
{
    match found {
        Ok((total, raws)) => Ok(LogsReply { total, logs: readable_logs(&raws) }),
        Err(e) => Err(ApiError::internal(concat("query failed: ", e.as_str()))),
    }
}

/// Whether a condition holds of a stored log, as SQL reads it.
pub open spec fn condition_holds(c: Condition, log: LogView) -> bool {
    match c {
        Condition::NamespaceIs(s) => log.namespace == s,
        Condition::MessageLike(p) => crate::like::like_matches(p, log.message),
        Condition::NotBefore(t) => log.ts >= t,
        Condition::NotAfter(t) => log.ts <= t,
    }
}

/// Whether the clause of a query selects a stored log, as SQL reads it.
pub open spec fn selects(q: QueryView, log: LogView) -> bool {
    let conds = conditions(q);
    if conds.len() == 0 {
        true
    } else if q.is_or {
        exists|i: int| 0 <= i < conds.len() && condition_holds(#[trigger] conds[i], log)
    } else {
        forall|i: int| 0 <= i < conds.len() ==> condition_holds(#[trigger] conds[i], log)
    }
}

/// A query selects the logs of its namespace, exactly that one, whose message holds its keyword
/// as it stands (either case of an ASCII letter counting as the other), and whose time lies
/// between its bounds or on one of them. With `or` one of the conditions that it sets is enough;
/// one that sets no condition selects every log.
pub proof fn law_query_selects(q: QueryView, log: LogView)
    ensures
        !q.is_or ==> (selects(q, log) <==> {
            &&& q.namespace matches Some(s) ==> log.namespace == s
            &&& q.keyword matches Some(s) ==> crate::like::occurs_in(s, log.message)
            &&& q.start matches Some(t) ==> t <= log.ts
            &&& q.end matches Some(t) ==> log.ts <= t
        }),
        q.is_or ==> (selects(q, log) <==> {
            ||| q.namespace is None && q.keyword is None && q.start is None && q.end is None
            ||| (q.namespace matches Some(s) && log.namespace == s)
            ||| (q.keyword matches Some(s) && crate::like::occurs_in(s, log.message))
            ||| (q.start matches Some(t) && t <= log.ts)
            ||| (q.end matches Some(t) && log.ts <= t)
        }),
{
    if let Some(s) = q.keyword {
        crate::like::law_escaped_pattern_finds_the_text(s, log.message);
    }
    let conds = conditions(q);
    let a: int = if q.namespace is Some { 1 } else { 0 };
    let b: int = if q.keyword is Some { a + 1 } else { a };
    let c: int = if q.start is Some { b + 1 } else { b };
    let d: int = if q.end is Some { c + 1 } else { c };
    assert(conds.len() == d);
    assert(q.namespace matches Some(s) ==> conds[0] == Condition::NamespaceIs(s));
    assert(q.keyword matches Some(s) ==> conds[a] == Condition::MessageLike(
        seq!['%'] + crate::like::escaped(s) + seq!['%'],
    ));
    assert(q.start matches Some(t) ==> conds[b] == Condition::NotBefore(t));
    assert(q.end matches Some(t) ==> conds[c] == Condition::NotAfter(t));
}

/// Texts that each give back a value are all readable.
proof fn lemma_readable(entries: Seq<JsonView>, raws: Seq<Seq<char>>)
    requires
        raws.len() == entries.len(),
        forall|i: int|
            0 <= i < raws.len() ==> crate::json::json_parse(
                vstd::utf8::encode_utf8(#[trigger] raws[i]),
            ) == Some(entries[i]),
    ensures
        readable(raws) == entries,
    decreases raws.len(),
{
    if raws.len() > 0 {
        lemma_readable(entries.drop_last(), raws.drop_last());
        assert(crate::json::json_parse(vstd::utf8::encode_utf8(raws[raws.len() - 1])) == Some(
            entries.last(),
        ));
    }
    assert(readable(raws) =~= entries);
}

/// What was written comes back: a page that holds the logs that were stored of a request gives
/// the entries of the request, in order and whole, with the members that the service does not
/// know. The last two conditions are what `post_logs` promises of the texts that it stores, and
/// that the entries are of the kind of which it promises that.
pub proof fn law_written_logs_come_back(body: JsonView, logs: Seq<LogView>)
    requires
        crate::logs::body_logs(body) == Ok::<Seq<LogView>, (u16, Seq<char>)>(logs),
        crate::logs::stored_entries_read_back(crate::logs::body_entries(body)->Ok_0, logs),
        forall|i: int|
            0 <= i < logs.len() ==> #[trigger] crate::json::reads_back(
                crate::logs::body_entries(body)->Ok_0[i],
                crate::json::depth_limit(),
            ),
    ensures
        readable(logs.map_values(|log: LogView| log.raw)) == crate::logs::body_entries(body)->Ok_0,
{
    let entries = crate::logs::body_entries(body)->Ok_0;
    let raws = logs.map_values(|log: LogView| log.raw);
    crate::logs::law_batch_is_all_or_nothing(entries, entries.len() as int);
    assert forall|i: int| 0 <= i < raws.len() implies crate::json::json_parse(
        vstd::utf8::encode_utf8(#[trigger] raws[i]),
    ) == Some(entries[i]) by {
        assert(raws[i] == logs[i].raw);
        assert(crate::json::reads_back(entries[i], crate::json::depth_limit()));
    }
    lemma_readable(entries, raws);
}

/// A page holds one hundred logs where the request does not say how many, and never more than one
/// thousand; the latest logs come first, all conditions must hold, and no log is passed over,
/// unless the request says otherwise.
pub proof fn law_defaults_and_limits(q: LogQuery)
    ensures
        wanted(q) matches Ok(view) ==> {
            &&& view.limit <= 1000
            &&& q.limit is None ==> view.limit == 100
            &&& q.limit matches Some(n) ==> n <= 1000 ==> view.limit == n
            &&& q.offset is None ==> view.offset == 0
            &&& q.op is None ==> !view.is_or
            &&& q.order is None ==> !view.asc
        },
{
}

/// The SQL of a query depends on which conditions it sets, not on their texts and times: these are
/// passed beside it, one for each condition.
pub proof fn law_sql_holds_no_values(p: QueryView, q: QueryView)
    requires
        p.namespace is Some == q.namespace is Some,
        p.keyword is Some == q.keyword is Some,
        p.start is Some == q.start is Some,
        p.end is Some == q.end is Some,
        p.is_or == q.is_or,
    ensures
        where_sql(p) == where_sql(q),
        count_sql(p) == count_sql(q),
        where_values(p).len() == conditions(q).len(),
{
    assert(conditions(p).map_values(|c: Condition| condition_sql(c)) =~= conditions(q).map_values(
        |c: Condition| condition_sql(c),
    ));
}

/// The stored logs that a query selects, in the order in which they were written.
pub open spec fn matching(q: QueryView, rows: Seq<LogView>) -> Seq<LogView>
    decreases rows.len(),
{
    if rows.len() == 0 {
        Seq::empty()
    } else if selects(q, rows.last()) {
        matching(q, rows.drop_last()).push(rows.last())
    } else {
        matching(q, rows.drop_last())
    }
}

/// Indices that are ordered by time, with `k` put behind those that are not later.
pub open spec fn place(times: Seq<i64>, order: Seq<int>, k: int) -> Seq<int>
    decreases order.len(),
{
    if order.len() == 0 || times[order.last()] <= times[k] {
        order.push(k)
    } else {
        place(times, order.drop_last(), k).push(order.last())
    }
}

/// The indices of `times`, the earliest time first, and of the same time the smaller index.
pub open spec fn time_order(times: Seq<i64>) -> Seq<int>
    decreases times.len(),
{
    if times.len() == 0 {
        Seq::empty()
    } else {
        place(times, time_order(times.drop_last()), times.len() - 1)
    }
}

/// The indices of the logs that a query selects, in the order that it asks for.
pub open spec fn query_order(q: QueryView, found: Seq<LogView>) -> Seq<int> {
    let order = time_order(found.map_values(|log: LogView| log.ts));
    if q.asc {
        order
    } else {
        order.reverse()
    }
}

/// The page that a query asks for of the stored logs, as SQL reads it: of the logs that it
/// selects, in its order, at most `limit` after the first `offset`.
pub open spec fn page(q: QueryView, rows: Seq<LogView>) -> Seq<LogView> {
    let found = matching(q, rows);
    let order = query_order(q, found);
    let from = if q.offset < order.len() {
        q.offset as int
    } else {
        order.len() as int
    };
    let to = if q.limit < order.len() - from {
        from + q.limit
    } else {
        order.len() as int
    };
    order.subrange(from, to).map_values(|i: int| found[i])
}

/// Whether `a` comes before `b`: its time is earlier, or the same and its index smaller.
pub open spec fn comes_before(times: Seq<i64>, a: int, b: int) -> bool {
    times[a] < times[b] || (times[a] == times[b] && a < b)
}

/// Whether the indices in `order` are below `n` and ordered by time, then by index.
pub open spec fn is_ordered(times: Seq<i64>, order: Seq<int>, n: int) -> bool {
    &&& forall|j: int| 0 <= j < order.len() ==> 0 <= #[trigger] order[j] < n
    &&& forall|j: int, k: int|
        #![trigger order[j], order[k]]
        0 <= j < k < order.len() ==> comes_before(times, order[j], order[k])
}

proof fn lemma_place(times: Seq<i64>, order: Seq<int>, k: int)
    requires
        0 <= k,
        is_ordered(times, order, k),
    ensures
        place(times, order, k).len() == order.len() + 1,
        is_ordered(times, place(times, order, k), k + 1),
        forall|x: int| #[trigger]
            place(times, order, k).contains(x) <==> order.contains(x) || x == k,
    decreases order.len(),
{
    let placed = place(times, order, k);
    if order.len() == 0 || times[order.last()] <= times[k] {
        assert forall|j: int| 0 <= j < order.len() implies comes_before(
            times,
            #[trigger] order[j],
            k,
        ) by {
            if j < order.len() - 1 {
                assert(comes_before(times, order[j], order[order.len() - 1]));
            }
        }
        assert forall|x: int| #[trigger] placed.contains(x) <==> order.contains(x) || x == k by {
            if order.contains(x) {
                let j = choose|j: int| 0 <= j < order.len() && order[j] == x;
                assert(placed[j] == x);
            }
            assert(placed[order.len() as int] == k);
        }
    } else {
        let front = order.drop_last();
        let rest = place(times, front, k);
        assert(is_ordered(times, front, k)) by {
            assert forall|j: int| 0 <= j < front.len() implies 0 <= #[trigger] front[j] < k by {
                assert(front[j] == order[j]);
            }
            assert forall|i: int, j: int|
                #![trigger front[i], front[j]]
                0 <= i < j < front.len() implies comes_before(times, front[i], front[j]) by {
                assert(front[i] == order[i] && front[j] == order[j]);
            }
        }
        lemma_place(times, front, k);
        let last = order.last();
        assert(order[order.len() - 1] == last);
        assert forall|j: int| 0 <= j < rest.len() implies comes_before(
            times,
            #[trigger] rest[j],
            last,
        ) by {
            assert(rest.contains(rest[j]));
            if rest[j] != k {
                let i = choose|i: int| 0 <= i < front.len() && front[i] == rest[j];
                assert(order[i] == rest[j]);
                assert(comes_before(times, order[i], order[order.len() - 1]));
            }
        }
        assert(placed =~= rest.push(last));
        assert(is_ordered(times, placed, k + 1)) by {
            assert forall|j: int| 0 <= j < placed.len() implies 0 <= #[trigger] placed[j] < k
                + 1 by {
                if j < rest.len() {
                    assert(placed[j] == rest[j]);
                }
            }
            assert forall|i: int, j: int|
                #![trigger placed[i], placed[j]]
                0 <= i < j < placed.len() implies comes_before(times, placed[i], placed[j]) by {
                assert(placed[i] == rest[i]);
                if j < rest.len() {
                    assert(placed[j] == rest[j]);
                }
            }
        }
        assert forall|x: int| #[trigger] placed.contains(x) <==> order.contains(x) || x == k by {
            if placed.contains(x) {
                let j = choose|j: int| 0 <= j < placed.len() && placed[j] == x;
                if j < rest.len() {
                    assert(rest[j] == x);
                    assert(rest.contains(x));
                    if x != k {
                        let i = choose|i: int| 0 <= i < front.len() && front[i] == x;
                        assert(order[i] == x);
                    }
                } else {
                    assert(order[order.len() - 1] == x);
                }
            }
            if order.contains(x) {
                let j = choose|j: int| 0 <= j < order.len() && order[j] == x;
                if j < front.len() {
                    assert(front[j] == x);
                    assert(rest.contains(x));
                    let i = choose|i: int| 0 <= i < rest.len() && rest[i] == x;
                    assert(placed[i] == x);
                } else {
                    assert(placed[rest.len() as int] == x);
                }
            }
            assert(rest.contains(k));
            let i = choose|i: int| 0 <= i < rest.len() && rest[i] == k;
            assert(placed[i] == k);
        }
    }
}

/// The order by time holds every index once, the earlier time first, and of the same time the
/// smaller index.
pub proof fn law_time_order(times: Seq<i64>)
    ensures
        time_order(times).len() == times.len(),
        is_ordered(times, time_order(times), times.len() as int),
        forall|x: int| 0 <= x < times.len() ==> #[trigger] time_order(times).contains(x),
    decreases times.len(),
{
    if times.len() > 0 {
        let front = times.drop_last();
        let order = time_order(front);
        let n = times.len() - 1;
        law_time_order(front);
        assert(is_ordered(times, order, n)) by {
            assert forall|i: int, j: int|
                #![trigger order[i], order[j]]
                0 <= i < j < order.len() implies comes_before(times, order[i], order[j]) by {
                assert(comes_before(front, order[i], order[j]));
            }
        }
        lemma_place(times, order, n);
        assert forall|x: int| 0 <= x < times.len() implies #[trigger] time_order(
            times,
        ).contains(x) by {
            if x < n {
                assert(order.contains(x));
            }
        }
    }
}

/// A query without conditions selects every log.
proof fn lemma_matching_all(q: QueryView, rows: Seq<LogView>)
    requires
        conditions(q).len() == 0,
    ensures
        matching(q, rows) == rows,
    decreases rows.len(),
{
    if rows.len() > 0 {
        lemma_matching_all(q, rows.drop_last());
    }
    assert(matching(q, rows) =~= rows);
}

/// What a query selects is among what was stored, and is selected by it.
proof fn lemma_matching(q: QueryView, rows: Seq<LogView>, k: int) -> (i: int)
    requires
        0 <= k < matching(q, rows).len(),
    ensures
        0 <= i < rows.len(),
        rows[i] == matching(q, rows)[k],
        selects(q, rows[i]),
    decreases rows.len(),
{
    let front = matching(q, rows.drop_last());
    if k < front.len() {
        lemma_matching(q, rows.drop_last(), k)
    } else {
        rows.len() - 1
    }
}

/// Whatever the store holds and the query asks for, where the database reads the statements as
/// `matching` and `page` do: if the text of each stored log gives back the entry that was written,
/// then every log of the page is read, and the one at `j` is the whole entry of a stored log that
/// the query selects.
pub proof fn law_found_logs_are_the_written_ones(
    q: QueryView,
    rows: Seq<LogView>,
    entries: Seq<JsonView>,
    j: int,
)
    requires
        rows.len() == entries.len(),
        forall|i: int|
            0 <= i < rows.len() ==> crate::json::json_parse(
                vstd::utf8::encode_utf8((#[trigger] rows[i]).raw),
            ) == Some(entries[i]),
        0 <= j < page(q, rows).len(),
    ensures
        readable(page(q, rows).map_values(|log: LogView| log.raw)).len() == page(q, rows).len(),
        exists|i: int|
            0 <= i < rows.len() && #[trigger] rows[i] == page(q, rows)[j] && selects(q, rows[i])
                && entries[i] == readable(page(q, rows).map_values(|log: LogView| log.raw))[j],
{
    let found = matching(q, rows);
    let order = query_order(q, found);
    let times = found.map_values(|log: LogView| log.ts);
    law_time_order(times);
    assert forall|k: int| 0 <= k < order.len() implies 0 <= #[trigger] order[k] < found.len() by {
        let o = time_order(times);
        assert(order[k] == if q.asc {
            o[k]
        } else {
            o[o.len() - 1 - k]
        });
    }
    let logs = page(q, rows);
    let raws = logs.map_values(|log: LogView| log.raw);
    let back = raws.map_values(
        |raw: Seq<char>| crate::json::json_parse(vstd::utf8::encode_utf8(raw))->0,
    );
    let from = if q.offset < order.len() {
        q.offset as int
    } else {
        order.len() as int
    };
    assert forall|k: int| 0 <= k < raws.len() implies crate::json::json_parse(
        vstd::utf8::encode_utf8(#[trigger] raws[k]),
    ) == Some(back[k]) by {
        assert(logs[k] == found[order[from + k]]);
        let i = lemma_matching(q, rows, order[from + k]);
        assert(rows[i].raw == raws[k]);
    }
    lemma_readable(back, raws);
    assert(logs[j] == found[order[from + j]]);
    let i = lemma_matching(q, rows, order[from + j]);
    assert(rows[i] == logs[j]);
    assert(crate::json::json_parse(vstd::utf8::encode_utf8(rows[i].raw)) == Some(entries[i]));
    assert(back[j] == entries[i]);
}

/// What is written to an empty store is found again, where the database reads the statements as
/// `matching` and `page` do: a query without conditions for a thousand logs counts the entries of
/// the one request that was stored, and its page gives each of them once and whole, by the time
/// that its timestamp names, and of the same time in the order of the request, or all of this
/// reversed. The entries are such that `post_logs` promises of the texts that it stores that they
/// can be read back.
pub proof fn law_posted_logs_are_found(body: JsonView, logs: Seq<LogView>, q: LogQuery)
    requires
        crate::logs::body_logs(body) == Ok::<Seq<LogView>, (u16, Seq<char>)>(logs),
        crate::logs::stored_entries_read_back(crate::logs::body_entries(body)->Ok_0, logs),
        forall|i: int|
            0 <= i < logs.len() ==> #[trigger] crate::json::reads_back(
                crate::logs::body_entries(body)->Ok_0[i],
                crate::json::depth_limit(),
            ),
        q.namespace is None,
        q.keyword is None,
        q.start is None,
        q.end is None,
        q.op is None,
        q.order is None || crate::text::option_text(q.order) == Some("asc"@)
            || crate::text::option_text(q.order) == Some("desc"@),
        q.limit == Some(1000usize),
        q.offset is None,
    ensures
        ({
            let entries = crate::logs::body_entries(body)->Ok_0;
            let times = logs.map_values(|log: LogView| log.ts);
            let order = if crate::text::option_text(q.order) == Some("asc"@) {
                time_order(times)
            } else {
                time_order(times).reverse()
            };
            &&& wanted(q) matches Ok(view)
            &&& matching(view, logs).len() == entries.len()
            &&& readable(page(view, logs).map_values(|log: LogView| log.raw)) == order.map_values(
                |i: int| entries[i],
            )
            &&& times.len() == entries.len()
            &&& forall|i: int|
                0 <= i < entries.len() ==> crate::timestamp::timestamp_millis(
                    crate::json::member_view(#[trigger] entries[i], "timestamp"@)->0,
                ) == Ok::<i64, Seq<char>>(times[i])
        }),
{
    let entries = crate::logs::body_entries(body)->Ok_0;
    let times = logs.map_values(|log: LogView| log.ts);
    crate::logs::law_batch_is_all_or_nothing(entries, entries.len() as int);
    assert forall|i: int| 0 <= i < entries.len() implies crate::timestamp::timestamp_millis(
        crate::json::member_view(#[trigger] entries[i], "timestamp"@)->0,
    ) == Ok::<i64, Seq<char>>(times[i]) by {
        crate::logs::law_entry_rules(i, entries[i]);
        assert(crate::logs::entry_log(i, entries[i]) == Ok::<LogView, (u16, Seq<char>)>(logs[i]));
    }
    reveal_strlit("asc");
    reveal_strlit("desc");
    assert("asc"@.len() != "desc"@.len());
    let view = wanted(q)->Ok_0;
    assert(wanted(q) is Ok);
    assert(conditions(view) =~= Seq::empty());
    lemma_matching_all(view, logs);
    law_time_order(times);
    let order = query_order(view, logs);
    assert forall|j: int| 0 <= j < order.len() implies 0 <= #[trigger] order[j]
        < entries.len() by {
        let o = time_order(times);
        assert(order[j] == if view.asc {
            o[j]
        } else {
            o[o.len() - 1 - j]
        });
    }
    let raws = page(view, logs).map_values(|log: LogView| log.raw);
    let back = order.map_values(|i: int| entries[i]);
    assert(order.subrange(0, order.len() as int) =~= order);
    assert forall|j: int| 0 <= j < raws.len() implies crate::json::json_parse(
        vstd::utf8::encode_utf8(#[trigger] raws[j]),
    ) == Some(back[j]) by {
        let i = order[j];
        assert(raws[j] == logs[i].raw);
        assert(crate::json::reads_back(entries[i], crate::json::depth_limit()));
    }
    lemma_readable(back, raws);
}

/// How SQL reads a comparison at the start of a text, with a value for its `?`: whether it holds of
/// a stored log, and what follows it.
pub open spec fn comparison(text: Seq<char>, value: SqlView, log: LogView) -> Option<
    (bool, Seq<char>),
> {
    if crate::text::begins_with(text, "namespace = ?"@) {
        match value {
            SqlView::Text(s) => Some((log.namespace == s, text.skip("namespace = ?"@.len() as int))),
            SqlView::Integer(_) => None,
        }
    } else if crate::text::begins_with(text, "message LIKE ? ESCAPE '\\'"@) {
        match value {
            SqlView::Text(p) => Some(
                (
                    crate::like::like_matches(p, log.message),
                    text.skip("message LIKE ? ESCAPE '\\'"@.len() as int),
                ),
            ),
            SqlView::Integer(_) => None,
        }
    } else if crate::text::begins_with(text, "ts >= ?"@) {
        match value {
            SqlView::Integer(t) => Some((log.ts >= t, text.skip("ts >= ?"@.len() as int))),
            SqlView::Text(_) => None,
        }
    } else if crate::text::begins_with(text, "ts <= ?"@) {
        match value {
            SqlView::Integer(t) => Some((log.ts <= t, text.skip("ts <= ?"@.len() as int))),
            SqlView::Text(_) => None,
        }
    } else {
        None
    }
}

/// How SQL reads comparisons with `AND` and `OR` between them, where `AND` binds tighter: whether
/// they hold of a stored log. Each takes the next of the values, and none may be left over; `run`
/// is whether those before hold that `AND` joins to the first.
pub open spec fn comparisons_hold(
    text: Seq<char>,
    values: Seq<SqlView>,
    log: LogView,
    run: bool,
) -> Option<bool>
    decreases values.len(),
{
    if values.len() == 0 {
        None
    } else {
        match comparison(text, values[0], log) {
            None => None,
            Some((holds, rest)) => {
                let (run, values) = (run && holds, values.skip(1));
                if rest.len() == 0 {
                    if values.len() == 0 {
                        Some(run)
                    } else {
                        None
                    }
                } else if crate::text::begins_with(rest, " AND "@) {
                    comparisons_hold(rest.skip(5), values, log, run)
                } else if crate::text::begins_with(rest, " OR "@) {
                    match comparisons_hold(rest.skip(4), values, log, true) {
                        Some(others) => Some(run || others),
                        None => None,
                    }
                } else {
                    None
                }
            },
        }
    }
}

/// How SQL reads a clause that follows the name of the table, with values for each `?`: whether a
/// stored log is selected; without a clause each is.
pub open spec fn clause_holds(text: Seq<char>, values: Seq<SqlView>, log: LogView) -> Option<bool> {
    if text.len() == 0 {
        if values.len() == 0 {
            Some(true)
        } else {
            None
        }
    } else if crate::text::begins_with(text, " WHERE "@) {
        comparisons_hold(text.skip(7), values, log, true)
    } else {
        None
    }
}

proof fn lemma_comparison(c: Condition, rest: Seq<char>, log: LogView)
    ensures
        comparison(condition_sql(c) + rest, condition_value(c), log) == Some(
            (condition_holds(c, log), rest),
        ),
{
    reveal_strlit("namespace = ?");
    reveal_strlit("message LIKE ? ESCAPE '\\'");
    reveal_strlit("ts >= ?");
    reveal_strlit("ts <= ?");
    let sql = condition_sql(c);
    let text = sql + rest;
    assert(text.take(sql.len() as int) =~= sql);
    assert(text.skip(sql.len() as int) =~= rest);
    assert(text[0] == sql[0] && text[3] == sql[3]);
    assert(crate::text::begins_with(text, "namespace = ?"@) ==> text.take(
        "namespace = ?"@.len() as int,
    )[0] == 'n');
    assert(crate::text::begins_with(text, "message LIKE ? ESCAPE '\\'"@) ==> text.take(
        "message LIKE ? ESCAPE '\\'"@.len() as int,
    )[0] == 'm');
    assert(crate::text::begins_with(text, "ts >= ?"@) ==> text.take("ts >= ?"@.len() as int)[0]
        == 't' && text.take("ts >= ?"@.len() as int)[3] == '>');
}

proof fn lemma_comparisons(conds: Seq<Condition>, is_or: bool, log: LogView, run: bool)
    requires
        conds.len() > 0,
        is_or ==> run,
    ensures
        comparisons_hold(
            crate::text::joined(
                conds.map_values(|c: Condition| condition_sql(c)),
                if is_or {
                    " OR "@
                } else {
                    " AND "@
                },
            ),
            conds.map_values(|c: Condition| condition_value(c)),
            log,
            run,
        ) == Some(
            if is_or {
                exists|i: int| 0 <= i < conds.len() && condition_holds(#[trigger] conds[i], log)
            } else {
                run && forall|i: int|
                    0 <= i < conds.len() ==> condition_holds(#[trigger] conds[i], log)
            },
        ),
    decreases conds.len(),
{
    let word = if is_or {
        " OR "@
    } else {
        " AND "@
    };
    let texts = conds.map_values(|c: Condition| condition_sql(c));
    let values = conds.map_values(|c: Condition| condition_value(c));
    let text = crate::text::joined(texts, word);
    reveal_strlit(" OR ");
    reveal_strlit(" AND ");
    let others = conds.skip(1);
    if conds.len() == 1 {
        lemma_comparison(conds[0], Seq::empty(), log);
        assert(text + Seq::<char>::empty() =~= text);
        assert(values.skip(1).len() == 0);
        assert(condition_holds(conds[0], log) == condition_holds(conds[0], log));
    } else {
        crate::text::lemma_joined_front(texts, word);
        let tail = crate::text::joined(texts.skip(1), word);
        let rest = word + tail;
        lemma_comparison(conds[0], rest, log);
        assert(text =~= condition_sql(conds[0]) + rest);
        assert(others.map_values(|c: Condition| condition_sql(c)) =~= texts.skip(1));
        assert(others.map_values(|c: Condition| condition_value(c)) =~= values.skip(1));
        assert(rest.take(word.len() as int) =~= word);
        assert(rest.skip(word.len() as int) =~= tail);
        assert(is_or ==> !crate::text::begins_with(rest, " AND "@)) by {
            if is_or && crate::text::begins_with(rest, " AND "@) {
                assert(rest.take(5)[1] == 'A');
                assert(rest[1] == word[1]);
            }
        }
        let first = condition_holds(conds[0], log);
        lemma_comparisons(others, is_or, log, if is_or { true } else { run && first });
        assert forall|i: int| 0 <= i < others.len() implies condition_holds(
            #[trigger] others[i],
            log,
        ) == condition_holds(conds[i + 1], log) by {}
        if is_or {
            if exists|i: int| 0 <= i < conds.len() && condition_holds(#[trigger] conds[i], log) {
                let i = choose|i: int|
                    0 <= i < conds.len() && condition_holds(#[trigger] conds[i], log);
                if i > 0 {
                    assert(condition_holds(others[i - 1], log));
                }
            }
        } else {
            if forall|i: int| 0 <= i < others.len() ==> condition_holds(#[trigger] others[i], log) {
                assert forall|i: int| 0 < i < conds.len() implies condition_holds(
                    #[trigger] conds[i],
                    log,
                ) by {
                    assert(condition_holds(others[i - 1], log));
                }
            }
        }
    }
}

/// What the clause of a query means, read as SQL reads it, with the values that are passed beside
/// it: with `or` one of the conditions that the query sets is enough, however many they are, and
/// otherwise all of them must hold; a query that sets none selects every log. The namespace is
/// meant exactly, the keyword as a part of the message, and the bounds in time are included.
pub proof fn law_clause_means_what_is_asked(q: QueryView, log: LogView)
    ensures
        clause_holds(where_sql(q), where_values(q), log) == Some(
            if q.is_or {
                ||| q.namespace is None && q.keyword is None && q.start is None && q.end is None
                ||| (q.namespace matches Some(s) && log.namespace == s)
                ||| (q.keyword matches Some(s) && crate::like::occurs_in(s, log.message))
                ||| (q.start matches Some(t) && t <= log.ts)
                ||| (q.end matches Some(t) && log.ts <= t)
            } else {
                &&& q.namespace matches Some(s) ==> log.namespace == s
                &&& q.keyword matches Some(s) ==> crate::like::occurs_in(s, log.message)
                &&& q.start matches Some(t) ==> t <= log.ts
                &&& q.end matches Some(t) ==> log.ts <= t
            },
        ),
        clause_holds(where_sql(q), where_values(q), log) == Some(selects(q, log)),
{
    let conds = conditions(q);
    law_query_selects(q, log);
    if conds.len() > 0 {
        lemma_comparisons(conds, q.is_or, log, true);
        reveal_strlit(" WHERE ");
        let text = where_sql(q);
        let list = text.skip(7);
        assert(text.take(7) =~= " WHERE "@);
        assert(list =~= crate::text::joined(
            conds.map_values(|c: Condition| condition_sql(c)),
            if q.is_or {
                " OR "@
            } else {
                " AND "@
            },
        ));
    }
}

/// The text of a clause: behind `WHERE` the conditions that the query sets, in the order namespace,
/// keyword, start, end, with the same word between each and the next, and as many values. A list
/// with another condition behind it gets the word and that condition, whatever stands before.
pub proof fn law_clause_is_written_out(q: QueryView)
    ensures
        ({
            let word = if q.is_or {
                " OR "@
            } else {
                " AND "@
            };
            let with = |list: Seq<char>, set: bool, condition: Seq<char>|
                if !set {
                    list
                } else if list.len() == 0 {
                    condition
                } else {
                    list + word + condition
                };
            let list = with(Seq::empty(), q.namespace is Some, "namespace = ?"@);
            let list = with(list, q.keyword is Some, "message LIKE ? ESCAPE '\\'"@);
            let list = with(list, q.start is Some, "ts >= ?"@);
            let list = with(list, q.end is Some, "ts <= ?"@);
            where_sql(q) == if list.len() == 0 {
                list
            } else {
                " WHERE "@ + list
            }
        }),
        ({
            let text = |v: Option<Seq<char>>|
                match v {
                    Some(s) => seq![SqlView::Text(s)],
                    None => Seq::empty(),
                };
            let time = |v: Option<i64>|
                match v {
                    Some(t) => seq![SqlView::Integer(t)],
                    None => Seq::empty(),
                };
            let pattern = match q.keyword {
                Some(s) => Some(seq!['%'] + crate::like::escaped(s) + seq!['%']),
                None => None,
            };
            where_values(q) == text(q.namespace) + text(pattern) + time(q.start) + time(q.end)
        }),
{
    let word = if q.is_or {
        " OR "@
    } else {
        " AND "@
    };
    reveal_strlit("namespace = ?");
    reveal_strlit("message LIKE ? ESCAPE '\\'");
    reveal_strlit("ts >= ?");
    reveal_strlit("ts <= ?");
    let conds = conditions(q);
    let texts = conds.map_values(|c: Condition| condition_sql(c));
    let a: Seq<Seq<char>> = if q.namespace is Some {
        seq!["namespace = ?"@]
    } else {
        Seq::empty()
    };
    let b = if q.keyword is Some {
        a.push("message LIKE ? ESCAPE '\\'"@)
    } else {
        a
    };
    let c = if q.start is Some {
        b.push("ts >= ?"@)
    } else {
        b
    };
    let d = if q.end is Some {
        c.push("ts <= ?"@)
    } else {
        c
    };
    assert(texts =~= d);
    lemma_joined_push(Seq::empty(), "namespace = ?"@, word);
    assert(Seq::<Seq<char>>::empty().push("namespace = ?"@) =~= seq!["namespace = ?"@]);
    lemma_joined_push(a, "message LIKE ? ESCAPE '\\'"@, word);
    lemma_joined_push(b, "ts >= ?"@, word);
    lemma_joined_push(c, "ts <= ?"@, word);
}

/// A list with one more text behind it.
proof fn lemma_joined_push(pieces: Seq<Seq<char>>, piece: Seq<char>, sep: Seq<char>)
    ensures
        crate::text::joined(pieces.push(piece), sep) == if pieces.len() == 0 {
            piece
        } else {
            crate::text::joined(pieces, sep) + sep + piece
        },
{
    assert(pieces.push(piece).drop_last() =~= pieces);
}

/// The two statements of a query have the same clause, read as `law_clause_means_what_is_asked`
/// says. One counts what it selects. The other gives the texts of these logs by time, and by the
/// order of writing among those of one time, both from the first on or both from the last on, and
/// ends with the two numbers of the page, each written in digits.
pub proof fn law_statements_count_and_page(q: QueryView)
    ensures
        count_sql(q) == "SELECT COUNT(*) FROM logs"@ + where_sql(q),
        exists|limit: Seq<char>, offset: Seq<char>|
            {
                &&& select_sql(q) == "SELECT raw FROM logs"@ + where_sql(q) + (if q.asc {
                    " ORDER BY ts ASC, id ASC LIMIT "@
                } else {
                    " ORDER BY ts DESC, id DESC LIMIT "@
                }) + limit + " OFFSET "@ + offset
                &&& #[trigger] crate::text::integer_value(limit) == Some(q.limit as int)
                &&& #[trigger] crate::text::integer_value(offset) == Some(q.offset as int)
            },
{
    let (limit, offset) = (
        crate::text::decimal(q.limit as nat),
        crate::text::decimal(q.offset as nat),
    );
    crate::text::law_decimal_writes_the_number(q.limit as nat);
    crate::text::law_decimal_writes_the_number(q.offset as nat);
    crate::text::law_integers_are_digits_with_a_sign(limit);
    crate::text::law_integers_are_digits_with_a_sign(offset);
    reveal_strlit("ASC");
    reveal_strlit("DESC");
    reveal_strlit(" ORDER BY ts ");
    reveal_strlit(", id ");
    reveal_strlit(" LIMIT ");
    reveal_strlit(" ORDER BY ts ASC, id ASC LIMIT ");
    reveal_strlit(" ORDER BY ts DESC, id DESC LIMIT ");
    let order = " ORDER BY ts "@ + (if q.asc {
        "ASC"@
    } else {
        "DESC"@
    }) + ", id "@ + (if q.asc {
        "ASC"@
    } else {
        "DESC"@
    }) + " LIMIT "@;
    assert(q.asc ==> order =~= " ORDER BY ts ASC, id ASC LIMIT "@);
    assert(!q.asc ==> order =~= " ORDER BY ts DESC, id DESC LIMIT "@);
    assert(select_sql(q) =~= "SELECT raw FROM logs"@ + where_sql(q) + order + limit + " OFFSET "@
        + offset);
}

/// What a request for logs may say and what it then asks for: `op` and `order` are one of two
/// words, a namespace is a segment, `start` and `end` are timestamps; a request that keeps to this
/// is taken as it stands, but for the page, which holds one hundred logs where nothing is said and
/// one thousand where more is asked for.
pub proof fn law_request_is_taken_as_it_stands(q: LogQuery)
    ensures
        wanted(q) is Ok <==> {
            &&& q.op matches Some(s) ==> s@ == "and"@ || s@ == "or"@
            &&& q.order matches Some(s) ==> s@ == "desc"@ || s@ == "asc"@
            &&& q.namespace matches Some(s) ==> crate::namespace::valid_segment(s@)
            &&& q.start matches Some(s) ==> crate::timestamp::param_millis(s@) is Ok
            &&& q.end matches Some(s) ==> crate::timestamp::param_millis(s@) is Ok
        },
        wanted(q) matches Ok(view) ==> {
            &&& view.is_or <==> (q.op matches Some(s) && s@ == "or"@)
            &&& view.asc <==> (q.order matches Some(s) && s@ == "asc"@)
            &&& view.namespace is Some <==> q.namespace is Some
            &&& q.namespace matches Some(s) ==> view.namespace == Some(s@)
            &&& view.keyword is Some <==> q.keyword is Some
            &&& q.keyword matches Some(s) ==> view.keyword == Some(s@)
            &&& view.start is Some <==> q.start is Some
            &&& q.start matches Some(s) ==> crate::timestamp::param_millis(s@) == Ok::<
                i64,
                Seq<char>,
            >(view.start->0)
            &&& view.end is Some <==> q.end is Some
            &&& q.end matches Some(s) ==> crate::timestamp::param_millis(s@) == Ok::<
                i64,
                Seq<char>,
            >(view.end->0)
            &&& q.limit is None ==> view.limit == 100
            &&& q.limit matches Some(n) ==> view.limit == if n <= 1000 {
                n
            } else {
                1000
            }
            &&& q.offset is None ==> view.offset == 0
            &&& q.offset matches Some(n) ==> view.offset == n
        },
{
    reveal_strlit("and");
    reveal_strlit("or");
    reveal_strlit("asc");
    reveal_strlit("desc");
    assert("and"@.len() != "or"@.len());
    assert("asc"@.len() != "desc"@.len());
}

/// What is said of a request for logs that is refused: of several faults that of `op` comes first,
/// then those of `order`, of the namespace, of `start` and of `end`.
pub proof fn law_first_fault_is_named(q: LogQuery)
    ensures
        wanted(q) matches Err(e) ==> {
            let op = q.op matches Some(s) && s@ != "and"@ && s@ != "or"@;
            let order = q.order matches Some(s) && s@ != "desc"@ && s@ != "asc"@;
            let namespace = q.namespace matches Some(s) && !crate::namespace::valid_segment(s@);
            let start = q.start matches Some(s) && crate::timestamp::param_millis(s@) is Err;
            if op {
                e == "op must be \"and\" or \"or\", got "@ + crate::text::quoted(q.op->0@)
            } else if order {
                e == "order must be \"asc\" or \"desc\", got "@ + crate::text::quoted(q.order->0@)
            } else if namespace {
                e == "invalid namespace: "@ + crate::text::quoted(q.namespace->0@)
            } else if start {
                crate::timestamp::param_millis(q.start->0@) == Err::<i64, Seq<char>>(e)
            } else {
                q.end is Some && crate::timestamp::param_millis(q.end->0@) == Err::<i64, Seq<char>>(e)
            }
        },
{
}

/// A query is seen whole: each of its parts has its place in the view.
pub proof fn law_query_is_seen_whole(args: QueryArgs, value: SqlValue, values: Seq<SqlValue>)
    ensures
        sql_views(values).len() == values.len(),
        forall|i: int| 0 <= i < values.len() ==> #[trigger] sql_views(values)[i] == values[i]@,
        args.namespace matches Some(s) ==> args@.namespace == Some(s@),
        args.namespace is None ==> args@.namespace is None,
        args.keyword matches Some(s) ==> args@.keyword == Some(s@),
        args.keyword is None ==> args@.keyword is None,
        args@.start == args.start && args@.end == args.end,
        args@.is_or == args.is_or && args@.asc == args.asc,
        args@.limit == args.limit && args@.offset == args.offset,
        value matches SqlValue::Text(s) ==> value@ == SqlView::Text(s@),
        value matches SqlValue::Integer(n) ==> value@ == SqlView::Integer(n),
{
}

/// The values of lists of texts follow each other; a text gives the value that it writes, or none
/// where it is no JSON.
pub proof fn law_each_text_is_read_by_itself(a: Seq<Seq<char>>, raw: Seq<char>, b: Seq<Seq<char>>)
    ensures
        readable(Seq::empty()).len() == 0,
        crate::json::json_parse(vstd::utf8::encode_utf8(raw)) matches Some(v) ==> readable(
            a + seq![raw] + b,
        ) == readable(a) + seq![v] + readable(b),
        crate::json::json_parse(vstd::utf8::encode_utf8(raw)) is None ==> readable(
            a + seq![raw] + b,
        ) == readable(a) + readable(b),
    decreases b.len(),
{
    let all = a + seq![raw] + b;
    if b.len() == 0 {
        assert(all.drop_last() =~= a);
        assert(all.last() == raw);
        if let Some(v) = crate::json::json_parse(vstd::utf8::encode_utf8(raw)) {
            assert(readable(all) =~= readable(a) + seq![v] + readable(b));
        } else {
            assert(readable(all) =~= readable(a) + readable(b));
        }
    } else {
        law_each_text_is_read_by_itself(a, raw, b.drop_last());
        assert(all.drop_last() =~= a + seq![raw] + b.drop_last());
        if let Some(v) = crate::json::json_parse(vstd::utf8::encode_utf8(raw)) {
            assert(readable(all) =~= readable(a) + seq![v] + readable(b));
        } else {
            assert(readable(all) =~= readable(a) + readable(b));
        }
    }
}

} // verus!
