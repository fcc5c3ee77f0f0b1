//! What the client makes of the answers of the server.

use crate::archive::{unpack, Unpacked};
use crate::json::{member, parse_value, strings_text, JsonView};
use crate::text::{after_prefix, concat, show};
use serde_json::Value;
use vstd::prelude::*;

verus! {

/// An answer of the server. The body is missing where it could not be read, for the reason given.
#[derive(Debug)]
pub struct Reply {
    pub status: u16,
    /// The status in words, as `404 Not Found`.
    pub status_text: String,
    pub content_type: Option<String>,
    pub body: Result<Vec<u8>, String>,
}

/// What is left to do: lines for the standard output, lines for the standard error, and the code
/// with which the program ends.
#[derive(Debug)]
pub struct Outcome {
    pub out: Vec<String>,
    pub err: Vec<String>,
    pub code: u8,
}

/// What is left to do, as a specification writes it.
#[verifier::ext_equal]
pub struct OutcomeView {
    pub out: Seq<Seq<char>>,
    pub err: Seq<Seq<char>>,
    pub code: u8,
}

impl View for Outcome {
    type V = OutcomeView;

    open spec fn view(&self) -> OutcomeView {
        OutcomeView {
            out: crate::text::texts(self.out@),
            err: crate::text::texts(self.err@),
            code: self.code,
        }
    }
}

/// The program ends with one line on the standard error.
pub open spec fn failure(line: Seq<char>) -> OutcomeView {
    OutcomeView { out: Seq::empty(), err: seq![line], code: 1 }
}

/// The program ends with one line on the standard error.
fn fail(what: &str, e: &str) -> (r: Outcome)
    ensures
        r@ == failure(what@ + e@),
{
    let r: Outcome = Outcome { out: Vec::new(), err: vec![concat(what, e)], code: 1 };
    assert(r@ =~= failure(what@ + e@));
    r
}

/// The JSON value in the body of an answer, where it is one.
pub open spec fn reply_json(reply: Reply) -> Option<JsonView> {
    match reply.body {
        Ok(bytes) => crate::json::json_parse(bytes@),
        Err(_) => None,
    }
}

/// What a JSON value holds that may be missing.
pub open spec fn option_json(v: Option<Value>) -> Option<JsonView> {
    match v {
        Some(v) => Some(crate::json::json_view(v)),
        None => None,
    }
}

/// The JSON value in the body of an answer, where it is one.
fn reply_value(reply: &Reply) -> (r: Option<Value>)
    ensures
        option_json(r) == reply_json(*reply),
{
    match &reply.body {
        Ok(bytes) => match parse_value(bytes.as_slice()) {
            Ok(v) => Some(v),
            Err(_) => None,
        },
        Err(_) => None,
    }
}

/// The member of that name of a value that may be missing.
pub open spec fn member_of(v: Option<JsonView>, name: Seq<char>) -> Option<JsonView> {
    match v {
        Some(v) => crate::json::member_view(v, name),
        None => None,
    }
}

/// The member of that name, where it is a string.
pub open spec fn text_of(v: Option<JsonView>, name: Seq<char>) -> Option<Seq<char>> {
    match member_of(v, name) {
        Some(JsonView::Text(s)) => Some(s),
        _ => None,
    }
}

/// The items of the member of that name, where it is an array.
pub open spec fn items_of(v: Option<JsonView>, name: Seq<char>) -> Option<Seq<JsonView>> {
    match member_of(v, name) {
        Some(JsonView::Array(items)) => Some(items),
        _ => None,
    }
}

/// The member of that name of a value that may be missing.
fn find<'a>(v: &'a Option<Value>, name: &str) -> (r: Option<&'a Value>)
    ensures
        match r {
            Some(x) => member_of(option_json(*v), name@) == Some(crate::json::json_view(*x)),
            None => member_of(option_json(*v), name@) is None,
        },
{
    match v {
        Some(v) => member(v, name),
        None => None,
    }
}

/// Whether a status says that the request was carried out.
pub open spec fn is_success(status: u16) -> bool {
    200 <= status < 300
}

/// What is said of an answer that is no success: the message in its body, else its status.
pub open spec fn refusal(status: u16, status_text: Seq<char>, body: Option<JsonView>) -> Option<
    Seq<char>,
> {
    if is_success(status) {
        None
    } else {
        match text_of(body, "error"@) {
            Some(e) => Some(e),
            None => Some("HTTP "@ + status_text),
        }
    }
}

/// What is said of an answer that is no success, from the JSON value in its body.
pub fn refused(status: u16, status_text: &str, body: &Option<Value>) -> (r: Option<String>)
    ensures
        crate::text::option_text(r) == refusal(status, status_text@, option_json(*body)),
{
    if status >= 200 && status < 300 {
        return None;
    }
    if let Some(e) = find(body, "error") {
        if let Some(s) = e.as_str() {
            return Some(s.to_owned());
        }
    }
    Some(concat("HTTP ", status_text))
}

/// What is said of an answer that is no success.
pub fn http_err(reply: &Reply) -> (r: Result<(), String>)
    ensures
        match r {
            Ok(_) => is_success(reply.status),
            Err(e) => refusal(reply.status, reply.status_text@, reply_json(*reply)) == Some(e@),
        },
{
    let body: Option<Value> = reply_value(reply);
    match refused(reply.status, reply.status_text.as_str(), &body) {
        None => Ok(()),
        Some(e) => Err(e),
    }
}

/// A string as it is, any other value as a question mark.
pub open spec fn shown(v: Option<JsonView>) -> Seq<char> {
    match v {
        Some(JsonView::Text(s)) => s,
        _ => "?"@,
    }
}

/// A string as it is, any other value as a question mark.
fn show_value(v: Option<&Value>) -> (r: String)
    ensures
        r@ == shown(
            match v {
                Some(v) => Some(crate::json::json_view(*v)),
                None => None,
            },
        ),
{
    if let Some(v) = v {
        if let Some(s) = v.as_str() {
            return s.to_owned();
        }
    }
    "?".to_owned()
}

/// The lines that show the items of the member of that name.
pub open spec fn shown_items(v: Option<JsonView>, name: Seq<char>) -> Seq<Seq<char>> {
    match items_of(v, name) {
        Some(items) => items.map_values(|x: JsonView| shown(Some(x))),
        None => Seq::empty(),
    }
}

/// The lines that show the items of the member of that name.
fn show_items(v: &Option<Value>, name: &str) -> (r: Vec<String>)
    ensures
        crate::text::texts(r@) == shown_items(option_json(*v), name@),
{
    let mut lines: Vec<String> = Vec::new();
    if let Some(x) = find(v, name) {
        if let Some(items) = x.as_array() {
            let ghost all = shown_items(option_json(*v), name@);
            for i in 0..items.len()
                invariant
                    all == crate::json::json_views(items@).map_values(
                        |x: JsonView| shown(Some(x)),
                    ),
                    crate::text::texts(lines@) =~= all.take(i as int),
            {
                let ghost before = crate::text::texts(lines@);
                lines.push(show_value(Some(&items[i])));
                assert(crate::text::texts(lines@) =~= before.push(all[i as int]));
            }
            assert(crate::text::texts(lines@) =~= all);
            return lines;
        }
    }
    assert(crate::text::texts(lines@) =~= shown_items(option_json(*v), name@));
    lines
}

/// The line that says which file could not be stored, and why.
pub open spec fn error_line(e: JsonView) -> Seq<char> {
    shown(crate::json::member_view(e, "name"@)) + ": "@ + shown(
        crate::json::member_view(e, "error"@),
    )
}

/// What the answer to an upload says: the paths that were stored, the files that were not; with a
/// list of the latter the program ends with code 1.
pub open spec fn upload_view(v: Option<JsonView>) -> OutcomeView {
    OutcomeView {
        out: shown_items(v, "paths"@),
        err: match items_of(v, "errors"@) {
            Some(items) => items.map_values(|e: JsonView| error_line(e)),
            None => Seq::empty(),
        },
        code: if items_of(v, "errors"@) is Some {
            1
        } else {
            0
        },
    }
}

/// What the answer to an upload says, from the JSON value in its body.
pub fn upload_report(v: &Option<Value>) -> (r: Outcome)
    ensures
        r@ == upload_view(option_json(*v)),
{
    let out: Vec<String> = show_items(v, "paths");
    let mut err: Vec<String> = Vec::new();
    if let Some(x) = find(v, "errors") {
        if let Some(items) = x.as_array() {
            let ghost all = crate::json::json_views(items@).map_values(
                |e: JsonView| error_line(e),
            );
            for i in 0..items.len()
                invariant
                    all == crate::json::json_views(items@).map_values(
                        |e: JsonView| error_line(e),
                    ),
                    crate::text::texts(err@) =~= all.take(i as int),
            {
                let ghost before = crate::text::texts(err@);
                let mut line: String = concat(
                    show_value(member(&items[i], "name")).as_str(),
                    ": ",
                );
                line.append(show_value(member(&items[i], "error")).as_str());
                err.push(line);
                assert(crate::text::texts(err@) =~= before.push(all[i as int]));
            }
            let r: Outcome = Outcome { out, err, code: 1 };
            assert(crate::text::texts(r.err@) =~= all);
            assert(r@ =~= upload_view(option_json(*v)));
            return r;
        }
    }
    let r: Outcome = Outcome { out, err, code: 0 };
    assert(r@ =~= upload_view(option_json(*v)));
    r
}

/// What comes of an upload: `sent` is the answer, or why there is none.
pub open spec fn upload_result(sent: Result<Reply, String>) -> OutcomeView {
    match sent {
        Err(e) => failure("请求失败: "@ + e@),
        Ok(reply) => match refusal(reply.status, reply.status_text@, reply_json(reply)) {
            Some(e) => failure("上传失败: "@ + e),
            None => upload_view(reply_json(reply)),
        },
    }
}

/// What comes of an upload.
pub fn upload_outcome(sent: Result<Reply, String>) -> (r: Outcome)
    ensures
        r@ == upload_result(sent),
{
    let reply: Reply = match sent {
        Ok(reply) => reply,
        Err(e) => return fail("请求失败: ", e.as_str()),
    };
    match http_err(&reply) {
        Err(e) => fail("上传失败: ", e.as_str()),
        Ok(_) => upload_report(&reply_value(&reply)),
    }
}

/// What comes of listing a directory.
pub open spec fn ls_result(sent: Result<Reply, String>) -> OutcomeView {
    match sent {
        Err(e) => failure("请求失败: "@ + e@),
        Ok(reply) => match refusal(reply.status, reply.status_text@, reply_json(reply)) {
            Some(e) => failure("ls 失败: "@ + e),
            None => OutcomeView {
                out: shown_items(reply_json(reply), "files"@),
                err: Seq::empty(),
                code: 0,
            },
        },
    }
}

/// What the answer to a request for a listing says, from the JSON value in its body: the files.
pub fn ls_report(v: &Option<Value>) -> (r: Outcome)
    ensures
        r@ == (OutcomeView {
            out: shown_items(option_json(*v), "files"@),
            err: Seq::empty(),
            code: 0,
        }),
{
    let r: Outcome = Outcome { out: show_items(v, "files"), err: Vec::new(), code: 0 };
    assert(crate::text::texts(r.err@) =~= Seq::empty());
    r
}

/// What comes of listing a directory.
pub fn ls_outcome(sent: Result<Reply, String>) -> (r: Outcome)
    ensures
        r@ == ls_result(sent),
{
    let reply: Reply = match sent {
        Ok(reply) => reply,
        Err(e) => return fail("请求失败: ", e.as_str()),
    };
    match http_err(&reply) {
        Err(e) => fail("ls 失败: ", e.as_str()),
        Ok(_) => ls_report(&reply_value(&reply)),
    }
}

/// What comes of a download.
#[derive(Debug)]
pub enum Download {
    /// Nothing is saved.
    Stop(Outcome),
    /// These bytes are saved.
    Save(Vec<u8>),
}

/// What comes of a download, as a specification writes it.
pub enum DownloadResult {
    Stop(OutcomeView),
    Save(Seq<u8>),
}

impl View for Download {
    type V = DownloadResult;

    open spec fn view(&self) -> DownloadResult {
        match *self {
            Download::Stop(outcome) => DownloadResult::Stop(outcome@),
            Download::Save(bytes) => DownloadResult::Save(bytes@),
        }
    }
}

/// What comes of the download of `filename`: an answer in JSON lists a directory, and is not
/// saved.
pub open spec fn download_result(filename: Seq<char>, sent: Result<Reply, String>) -> DownloadResult {
    match sent {
        Err(e) => DownloadResult::Stop(failure("请求失败: "@ + e@)),
        Ok(reply) => match refusal(reply.status, reply.status_text@, reply_json(reply)) {
            Some(e) => DownloadResult::Stop(failure("下载失败: "@ + e)),
            None => match crate::text::option_text(reply.content_type) {
                Some(t) => if crate::text::begins_with(t, "application/json"@) {
                    DownloadResult::Stop(
                        failure(
                            filename + " 是一个目录而非文件,请指定文件名,或用 ls 查看内容"@,
                        ),
                    )
                } else {
                    body_result(reply)
                },
                None => body_result(reply),
            },
        },
    }
}

/// The bytes of an answer, or what is said where they could not be read.
pub open spec fn body_result(reply: Reply) -> DownloadResult {
    match reply.body {
        Ok(bytes) => DownloadResult::Save(bytes@),
        Err(e) => DownloadResult::Stop(failure("读取响应失败: "@ + e@)),
    }
}

/// What comes of the download of `filename`.
pub fn download_outcome(filename: &str, sent: Result<Reply, String>) -> (r: Download)
    ensures
        r@ == download_result(filename@, sent),
        r matches Download::Save(bytes) ==> {
            &&& sent matches Ok(reply)
            &&& 200 <= reply.status <= 299
            &&& reply.body == Ok::<Vec<u8>, String>(bytes)
            &&& reply.content_type matches Some(t) ==> forall|rest: Seq<char>|
                t@ != #[trigger] ("application/json"@ + rest)
        },
        sent matches Ok(reply) ==> {
            &&& 200 <= reply.status <= 299
            &&& reply.body is Ok
            &&& reply.content_type matches Some(t) ==> forall|rest: Seq<char>|
                t@ != #[trigger] ("application/json"@ + rest)
        } ==> r is Save,
{
    proof {
        law_download_saves_the_body(filename@, sent);
    }
    let reply: Reply = match sent {
        Ok(reply) => reply,
        Err(e) => return Download::Stop(fail("请求失败: ", e.as_str())),
    };
    if let Err(e) = http_err(&reply) {
        return Download::Stop(fail("下载失败: ", e.as_str()));
    }
    if let Some(t) = &reply.content_type {
        if after_prefix(t.as_str(), "application/json").is_some() {
            return Download::Stop(
                fail(filename, " 是一个目录而非文件,请指定文件名,或用 ls 查看内容"),
            );
        }
    }
    match reply.body {
        Ok(bytes) => Download::Save(bytes),
        Err(e) => Download::Stop(fail("读取响应失败: ", e.as_str())),
    }
}

/// The strings among the values, in order.
pub open spec fn strings_among(items: Seq<JsonView>) -> Seq<Seq<char>>
    decreases items.len(),
{
    if items.len() == 0 {
        Seq::empty()
    } else {
        match items.last() {
            JsonView::Text(s) => strings_among(items.drop_last()).push(s),
            _ => strings_among(items.drop_last()),
        }
    }
}

/// The files that a listing names.
pub open spec fn listed(v: Option<JsonView>) -> Seq<Seq<char>> {
    match items_of(v, "files"@) {
        Some(items) => strings_among(items),
        None => Seq::empty(),
    }
}

/// The files that a listing names, from the JSON value in its body.
pub fn listed_files(v: &Option<Value>) -> (r: Vec<String>)
    ensures
        crate::text::texts(r@) == listed(option_json(*v)),
{
    let mut files: Vec<String> = Vec::new();
    assert(crate::text::texts(files@) =~= Seq::empty());
    if let Some(x) = find(v, "files") {
        if let Some(items) = x.as_array() {
            let ghost all = crate::json::json_views(items@);
            assert(all.take(0) =~= Seq::empty());
            for i in 0..items.len()
                invariant
                    all == crate::json::json_views(items@),
                    crate::text::texts(files@) == strings_among(all.take(i as int)),
            {
                assert(all.take(i + 1).drop_last() =~= all.take(i as int));
                if let Some(s) = items[i].as_str() {
                    let ghost before = crate::text::texts(files@);
                    files.push(s.to_owned());
                    assert(crate::text::texts(files@) =~= before.push(s@));
                }
            }
            assert(all.take(all.len() as int) =~= all);
        }
    }
    files
}

/// What comes of the listing with which a pull begins.
#[derive(Debug)]
pub enum Listing {
    /// There is nothing to pull.
    Stop(Outcome),
    /// The files are asked for with this body.
    Fetch(String),
}

/// What comes of the listing with which a pull begins, as a specification writes it.
pub enum ListingResult {
    Stop(OutcomeView),
    Fetch(Seq<char>),
}

impl View for Listing {
    type V = ListingResult;

    open spec fn view(&self) -> ListingResult {
        match *self {
            Listing::Stop(outcome) => ListingResult::Stop(outcome@),
            Listing::Fetch(body) => ListingResult::Fetch(body@),
        }
    }
}

/// What is asked for where a listing names these files.
pub open spec fn fetch_files(files: Seq<Seq<char>>) -> ListingResult {
    if files.len() == 0 {
        ListingResult::Stop(
            OutcomeView { out: seq!["该目录为空,无文件可拉取"@], err: Seq::empty(), code: 0 },
        )
    } else {
        ListingResult::Fetch(
            crate::json::json_text(crate::json::strings_object_view("files"@, files)),
        )
    }
}

/// What comes of the listing with which a pull begins.
pub open spec fn listing_result(sent: Result<Reply, String>) -> ListingResult {
    match sent {
        Err(e) => ListingResult::Stop(failure("请求失败: "@ + e@)),
        Ok(reply) => match refusal(reply.status, reply.status_text@, reply_json(reply)) {
            Some(e) => ListingResult::Stop(failure("pull 失败: "@ + e)),
            None => fetch_files(listed(reply_json(reply))),
        },
    }
}

/// What is asked for where a listing names these files; the body reads as an object that names
/// them.
pub fn ask_for_files(files: &Vec<String>) -> (r: Listing)
    ensures
        r@ == fetch_files(crate::text::texts(files@)),
        r matches Listing::Fetch(body) ==> crate::json::json_parse(
            vstd::utf8::encode_utf8(body@),
        ) == Some(crate::json::strings_object_view("files"@, crate::text::texts(files@))),
{
    if files.len() == 0 {
        let outcome: Outcome = Outcome {
            out: vec!["该目录为空,无文件可拉取".to_owned()],
            err: Vec::new(),
            code: 0,
        };
        assert(crate::text::texts(outcome.out@) =~= seq!["该目录为空,无文件可拉取"@]);
        assert(crate::text::texts(outcome.err@) =~= Seq::empty());
        return Listing::Stop(outcome);
    }
    proof {
        reveal_strlit("files");
        reveal_strlit("$serde_json::private::RawValue");
        assert("files"@.len() < "$serde_json::private::RawValue"@.len());
    }
    Listing::Fetch(strings_text("files", files))
}

/// What comes of the listing with which a pull begins; the body reads as an object that names the
/// files of the listing.
pub fn pull_listed(sent: Result<Reply, String>) -> (r: Listing)
    ensures
        r@ == listing_result(sent),
        r matches Listing::Fetch(body) ==> sent is Ok && crate::json::json_parse(
            vstd::utf8::encode_utf8(body@),
        ) == Some(
            crate::json::strings_object_view("files"@, listed(reply_json(sent->Ok_0))),
        ),
        r matches Listing::Fetch(body) ==> {
            &&& sent matches Ok(reply)
            &&& 200 <= reply.status <= 299
            &&& reply.body matches Ok(bytes)
            &&& crate::json::json_parse(bytes@) matches Some(JsonView::Object(members))
            &&& members.contains_key("files"@)
            &&& members["files"@] matches JsonView::Array(items)
            &&& items.filter(|x: JsonView| x is Text).len() > 0
            &&& crate::json::json_parse(vstd::utf8::encode_utf8(body@)) == Some(
                JsonView::Object(
                    map!["files"@ => JsonView::Array(items.filter(|x: JsonView| x is Text))],
                ),
            )
        },
        sent matches Ok(reply) ==> {
            &&& 200 <= reply.status <= 299
            &&& reply.body matches Ok(bytes)
            &&& crate::json::json_parse(bytes@) matches Some(JsonView::Object(members))
            &&& members.contains_key("files"@)
            &&& members["files"@] matches JsonView::Array(items)
            &&& items.filter(|x: JsonView| x is Text).len() > 0
        } ==> r is Fetch,
{
    proof {
        law_pull_asks_for_the_listed_strings(sent);
    }
    let reply: Reply = match sent {
        Ok(reply) => reply,
        Err(e) => return Listing::Stop(fail("请求失败: ", e.as_str())),
    };
    if let Err(e) = http_err(&reply) {
        return Listing::Stop(fail("pull 失败: ", e.as_str()));
    }
    ask_for_files(&listed_files(&reply_value(&reply)))
}

/// What comes of asking for the files of a pull.
#[derive(Debug)]
pub enum Pulled {
    /// Nothing is unpacked.
    Stop(Outcome),
    /// The archive is unpacked.
    Unpack(Unpacked),
}

/// The bytes of the archive in an answer, or what is said where there is none.
pub open spec fn archive_bytes(sent: Result<Reply, String>) -> Result<Seq<u8>, Seq<char>> {
    match sent {
        Err(e) => Err("请求失败: "@ + e@),
        Ok(reply) => match refusal(reply.status, reply.status_text@, reply_json(reply)) {
            Some(e) => Err("批量下载失败: "@ + e),
            None => match reply.body {
                Ok(bytes) => Ok(bytes@),
                Err(e) => Err("读取响应失败: "@ + e@),
            },
        },
    }
}

/// What comes of asking for the files of a pull.
pub fn pull_received(sent: Result<Reply, String>) -> (r: Pulled)
    ensures
        match archive_bytes(sent) {
            Err(e) => r matches Pulled::Stop(outcome) && outcome@ == failure(e),
            Ok(bytes) => match crate::archive::zip_entries(bytes) {
                Err(e) => r matches Pulled::Stop(outcome) && outcome@ == failure("解压失败: "@ + e),
                Ok(entries) => r matches Pulled::Unpack(u) && crate::archive::unpacked_fits(
                    entries,
                    u,
                ),
            },
        },
{
    let reply: Reply = match sent {
        Ok(reply) => reply,
        Err(e) => return Pulled::Stop(fail("请求失败: ", e.as_str())),
    };
    if let Err(e) = http_err(&reply) {
        return Pulled::Stop(fail("批量下载失败: ", e.as_str()));
    }
    let bytes: Vec<u8> = match reply.body {
        Ok(bytes) => bytes,
        Err(e) => return Pulled::Stop(fail("读取响应失败: ", e.as_str())),
    };
    match unpack(bytes) {
        Ok(u) => Pulled::Unpack(u),
        Err(e) => Pulled::Stop(fail("解压失败: ", e.as_str())),
    }
}

/// The line that says where a download was saved, and how many bytes it has.
pub fn saved_line(out: &str, bytes: usize) -> (r: String)
    ensures
        r@ == "已保存到 "@ + out@ + " ("@ + crate::text::decimal(bytes as nat) + " 字节)"@,
{
    let mut line: String = concat("已保存到 ", out);
    line.append(" (");
    line.append(show(bytes as u64).as_str());
    line.append(" 字节)");
    line
}

/// The strings of a list of strings are all of it.
proof fn lemma_strings_among_strings(files: Seq<Seq<char>>)
    ensures
        strings_among(files.map_values(|s: Seq<char>| JsonView::Text(s))) == files,
    decreases files.len(),
{
    let items = files.map_values(|s: Seq<char>| JsonView::Text(s));
    if files.len() > 0 {
        lemma_strings_among_strings(files.drop_last());
        assert(items.drop_last() =~= files.drop_last().map_values(
            |s: Seq<char>| JsonView::Text(s),
        ));
        assert(strings_among(items) =~= files);
    } else {
        assert(strings_among(items) =~= files);
    }
}

/// A pull asks for every file of a listing, in its order: the body with which it asks holds what
/// the listing holds, so that what one answer names can be sent back as the next request.
pub proof fn law_pull_asks_for_every_listed_file(files: Seq<Seq<char>>)
    ensures
        listed(Some(crate::json::strings_object_view("files"@, files))) == files,
{
    lemma_strings_among_strings(files);
}

/// An answer is a success where its status lies from 200 to 299. Of any other the text `error` in
/// its body is said where it has one, else its status.
pub proof fn law_refused_answers_say_why(status: u16, status_text: Seq<char>, body: Option<JsonView>)
    ensures
        refusal(status, status_text, body) is None <==> 200 <= status <= 299,
        !(200 <= status <= 299) ==> refusal(status, status_text, body) == Some(
            if body matches Some(JsonView::Object(members)) && members.contains_key("error"@)
                && members["error"@] is Text {
                body->0->Object_0["error"@]->Text_0
            } else {
                "HTTP "@ + status_text
            },
        ),
{
}

/// What each command says where there is no answer, where the answer is no success, and where its
/// body cannot be read: one line on the standard error, and the code 1.
pub proof fn law_failures_end_with_one_line(
    filename: Seq<char>,
    reply: Reply,
    e: String,
    why: Seq<char>,
)
    ensures
        ({
            let line = |line: Seq<char>|
                (OutcomeView { out: Seq::empty(), err: seq![line], code: 1u8 });
            let none = Err::<Reply, String>(e);
            let refused = Ok::<Reply, String>(reply);
            &&& upload_result(none) == line("请求失败: "@ + e@)
            &&& ls_result(none) == line("请求失败: "@ + e@)
            &&& download_result(filename, none) == DownloadResult::Stop(line("请求失败: "@ + e@))
            &&& listing_result(none) == ListingResult::Stop(line("请求失败: "@ + e@))
            &&& archive_bytes(none) == Err::<Seq<u8>, Seq<char>>("请求失败: "@ + e@)
            &&& refusal(reply.status, reply.status_text@, reply_json(reply)) == Some(why) ==> {
                &&& upload_result(refused) == line("上传失败: "@ + why)
                &&& ls_result(refused) == line("ls 失败: "@ + why)
                &&& download_result(filename, refused) == DownloadResult::Stop(
                    line("下载失败: "@ + why),
                )
                &&& listing_result(refused) == ListingResult::Stop(line("pull 失败: "@ + why))
                &&& archive_bytes(refused) == Err::<Seq<u8>, Seq<char>>("批量下载失败: "@ + why)
            }
            &&& failure(why) == line(why)
        }),
{
}

/// A download saves the bytes of the body, all of them and nothing else, exactly where the answer
/// is a success, its body could be read, and its content type does not begin as that of JSON, in
/// which the server lists a directory.
pub proof fn law_download_saves_the_body(filename: Seq<char>, sent: Result<Reply, String>)
    ensures
        sent matches Ok(reply) ==> 200 <= reply.status <= 299 ==> {
            let lists = reply.content_type matches Some(t) && exists|rest: Seq<char>|
                t@ == #[trigger] ("application/json"@ + rest);
            download_result(filename, sent) == if lists {
                DownloadResult::Stop(
                    OutcomeView {
                        out: Seq::empty(),
                        err: seq![filename + " 是一个目录而非文件,请指定文件名,或用 ls 查看内容"@],
                        code: 1u8,
                    },
                )
            } else {
                match reply.body {
                    Ok(bytes) => DownloadResult::Save(bytes@),
                    Err(e) => DownloadResult::Stop(
                        OutcomeView {
                            out: Seq::empty(),
                            err: seq!["读取响应失败: "@ + e@],
                            code: 1u8,
                        },
                    ),
                }
            }
        },
        download_result(filename, sent) is Save ==> {
            &&& sent matches Ok(reply)
            &&& 200 <= reply.status <= 299
            &&& reply.body is Ok
            &&& reply.content_type matches Some(t) ==> forall|rest: Seq<char>|
                t@ != #[trigger] ("application/json"@ + rest)
        },
{
    if let Ok(reply) = sent {
        if let Some(t) = reply.content_type {
            crate::text::law_prefix_is_followed_by_the_rest(t@, "application/json"@);
        }
    }
}

/// The strings among values are those that are texts, in their order.
proof fn lemma_strings_among(items: Seq<JsonView>)
    ensures
        strings_among(items).map_values(|s: Seq<char>| JsonView::Text(s)) == items.filter(
            |x: JsonView| x is Text,
        ),
        strings_among(items).len() == items.filter(|x: JsonView| x is Text).len(),
    decreases items.len(),
{
    reveal(Seq::filter);
    let texts = strings_among(items).map_values(|s: Seq<char>| JsonView::Text(s));
    if items.len() > 0 {
        lemma_strings_among(items.drop_last());
        assert(texts =~= items.filter(|x: JsonView| x is Text));
    } else {
        assert(texts =~= items.filter(|x: JsonView| x is Text));
    }
}

/// A pull asks for exactly the strings in the array `files` of a listing, in their order, whatever
/// other members the listing has; it says that there is nothing to pull only where there is no such
/// string.
pub proof fn law_pull_asks_for_the_listed_strings(sent: Result<Reply, String>)
    ensures
        sent matches Ok(reply) ==> 200 <= reply.status <= 299 ==> {
            let nothing = ListingResult::Stop(
                OutcomeView { out: seq!["该目录为空,无文件可拉取"@], err: Seq::empty(), code: 0u8 },
            );
            match reply.body {
                Ok(bytes) => match crate::json::json_parse(bytes@) {
                    Some(JsonView::Object(members)) => if members.contains_key("files"@) {
                        match members["files"@] {
                            JsonView::Array(items) => {
                                let texts = items.filter(|x: JsonView| x is Text);
                                listing_result(sent) == if texts.len() > 0 {
                                    ListingResult::Fetch(
                                        crate::json::json_text(
                                            JsonView::Object(
                                                map!["files"@ => JsonView::Array(texts)],
                                            ),
                                        ),
                                    )
                                } else {
                                    nothing
                                }
                            },
                            _ => listing_result(sent) == nothing,
                        }
                    } else {
                        listing_result(sent) == nothing
                    },
                    _ => listing_result(sent) == nothing,
                },
                Err(_) => listing_result(sent) == nothing,
            }
        },
        listing_result(sent) is Fetch ==> {
            &&& sent matches Ok(reply)
            &&& 200 <= reply.status <= 299
            &&& reply.body matches Ok(bytes)
            &&& crate::json::json_parse(bytes@) matches Some(JsonView::Object(members))
            &&& members.contains_key("files"@)
            &&& members["files"@] matches JsonView::Array(items)
            &&& items.filter(|x: JsonView| x is Text).len() > 0
            &&& listed(reply_json(reply)).map_values(|s: Seq<char>| JsonView::Text(s))
                == items.filter(|x: JsonView| x is Text)
        },
{
    if let Ok(reply) = sent {
        if let Some(items) = items_of(reply_json(reply), "files"@) {
            lemma_strings_among(items);
        }
    }
}

/// A listing shows the items of the array `files`, one line for each and in their order: a string
/// as it is, anything else as a question mark.
pub proof fn law_listing_shows_each_item(sent: Result<Reply, String>)
    ensures
        sent matches Ok(reply) ==> 200 <= reply.status <= 299 ==> {
            let shown = ls_result(sent);
            &&& shown.code == 0 && shown.err.len() == 0
            &&& match reply_json(reply) {
                Some(JsonView::Object(members)) => if members.contains_key("files"@) {
                    match members["files"@] {
                        JsonView::Array(items) => {
                            &&& shown.out.len() == items.len()
                            &&& forall|i: int|
                                0 <= i < items.len() ==> #[trigger] shown.out[i] == if items[i]
                                    is Text {
                                    items[i]->Text_0
                                } else {
                                    "?"@
                                }
                        },
                        _ => shown.out.len() == 0,
                    }
                } else {
                    shown.out.len() == 0
                },
                _ => shown.out.len() == 0,
            }
        },
        sent matches Ok(reply) ==> reply_json(reply) == match reply.body {
            Ok(bytes) => crate::json::json_parse(bytes@),
            Err(_) => None,
        },
{
}

/// The text of a member, or a question mark where there is none.
pub open spec fn text_or_mark(v: JsonView, name: Seq<char>) -> Seq<char> {
    if v is Object && v->Object_0.contains_key(name) && v->Object_0[name] is Text {
        v->Object_0[name]->Text_0
    } else {
        "?"@
    }
}

/// An upload shows each of the paths that were stored on the standard output, and for each of the
/// files that were not its name and what went wrong on the standard error; with an array `errors`,
/// whatever it holds, it ends with the code 1, and without one with 0.
pub proof fn law_upload_shows_paths_and_errors(sent: Result<Reply, String>)
    ensures
        sent matches Ok(reply) ==> 200 <= reply.status <= 299 ==> {
            let shown = upload_result(sent);
            match reply_json(reply) {
                Some(JsonView::Object(members)) => {
                    &&& if members.contains_key("paths"@) && members["paths"@] is Array {
                        let items = members["paths"@]->Array_0;
                        &&& shown.out.len() == items.len()
                        &&& forall|i: int|
                            0 <= i < items.len() ==> #[trigger] shown.out[i] == if items[i] is Text {
                                items[i]->Text_0
                            } else {
                                "?"@
                            }
                    } else {
                        shown.out.len() == 0
                    }
                    &&& if members.contains_key("errors"@) && members["errors"@] is Array {
                        let items = members["errors"@]->Array_0;
                        &&& shown.code == 1
                        &&& shown.err.len() == items.len()
                        &&& forall|i: int|
                            0 <= i < items.len() ==> #[trigger] shown.err[i] == text_or_mark(
                                items[i],
                                "name"@,
                            ) + ": "@ + text_or_mark(items[i], "error"@)
                    } else {
                        shown.code == 0 && shown.err.len() == 0
                    }
                },
                _ => shown.out.len() == 0 && shown.err.len() == 0 && shown.code == 0,
            }
        },
{
}

/// The archive of a pull is the body of the answer, all of its bytes.
pub proof fn law_archive_is_the_body(reply: Reply)
    ensures
        200 <= reply.status <= 299 ==> archive_bytes(Ok::<Reply, String>(reply))
            == match reply.body {
            Ok(bytes) => Ok::<Seq<u8>, Seq<char>>(bytes@),
            Err(e) => Err("读取响应失败: "@ + e@),
        },
{
}

/// What is left to do is seen whole: each part has its place in the view.
pub proof fn law_outcomes_are_seen_whole(o: Outcome, d: Download, l: Listing)
    ensures
        o@.code == o.code,
        o@.out.len() == o.out@.len() && forall|i: int|
            0 <= i < o.out@.len() ==> #[trigger] o@.out[i] == o.out@[i]@,
        o@.err.len() == o.err@.len() && forall|i: int|
            0 <= i < o.err@.len() ==> #[trigger] o@.err[i] == o.err@[i]@,
        d matches Download::Save(bytes) ==> d@ == DownloadResult::Save(bytes@),
        d matches Download::Stop(outcome) ==> d@ == DownloadResult::Stop(outcome@),
        l matches Listing::Fetch(body) ==> l@ == ListingResult::Fetch(body@),
        l matches Listing::Stop(outcome) ==> l@ == ListingResult::Stop(outcome@),
{
}

/// A value that may be missing is seen as it is.
pub proof fn law_missing_values_stay_missing(v: Option<Value>)
    ensures
        v matches Some(x) ==> option_json(v) == Some(crate::json::json_view(x)),
        v is None ==> option_json(v) is None,
{
}

} // verus!
