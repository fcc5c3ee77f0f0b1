use std::io::Write;
use upload_server::archive::{
    place_entry, pull_summary, read_entry, unpack, PullStep, ZipEntry,
};
use upload_server::client::{
    ask_for_files, download_outcome, http_err, ls_outcome, pull_listed, pull_received, saved_line,
    upload_outcome, Download, Listing, Outcome, Pulled, Reply,
};

fn reply(status: u16, body: &str) -> Reply {
    Reply {
        status,
        status_text: format!("{} Words", status),
        content_type: None,
        body: Ok(body.as_bytes().to_vec()),
    }
}

fn parts(outcome: Outcome) -> (Vec<String>, Vec<String>, u8) {
    (outcome.out, outcome.err, outcome.code)
}

fn lines(v: &[&str]) -> Vec<String> {
    v.iter().map(|s| s.to_string()).collect()
}

#[test]
fn the_message_of_a_refusal() {
    assert!(http_err(&reply(200, "")).is_ok());
    assert!(http_err(&reply(299, "{\"error\":\"x\"}")).is_ok());
    assert_eq!(http_err(&reply(404, "{\"error\":\"not found\"}")), Err("not found".to_string()));
    assert_eq!(http_err(&reply(404, "{\"error\":3}")), Err("HTTP 404 Words".to_string()));
    assert_eq!(http_err(&reply(300, "gone")), Err("HTTP 300 Words".to_string()));
    let unread = Reply { body: Err("reset".to_string()), ..reply(500, "") };
    assert_eq!(http_err(&unread), Err("HTTP 500 Words".to_string()));
}

#[test]
fn an_upload_prints_its_paths() {
    let r = upload_outcome(Ok(reply(200, r#"{"ok":true,"paths":["a/b","c",3]}"#)));
    assert_eq!(parts(r), (lines(&["a/b", "c", "?"]), lines(&[]), 0));
}

#[test]
fn an_upload_with_errors_ends_with_one() {
    let r = upload_outcome(Ok(reply(
        200,
        r#"{"ok":false,"paths":["a"],"errors":[{"name":"b","error":"full"},{"name":1}]}"#,
    )));
    assert_eq!(parts(r), (lines(&["a"]), lines(&["b: full", "?: ?"]), 1));
    let r = upload_outcome(Ok(reply(200, r#"{"errors":[]}"#)));
    assert_eq!(parts(r), (lines(&[]), lines(&[]), 1));
    let r = upload_outcome(Ok(reply(200, "no json")));
    assert_eq!(parts(r), (lines(&[]), lines(&[]), 0));
}

#[test]
fn an_upload_that_failed() {
    let r = upload_outcome(Err("refused".to_string()));
    assert_eq!(parts(r), (lines(&[]), lines(&["请求失败: refused"]), 1));
    let r = upload_outcome(Ok(reply(413, r#"{"error":"too large"}"#)));
    assert_eq!(parts(r), (lines(&[]), lines(&["上传失败: too large"]), 1));
}

#[test]
fn a_listing_prints_its_files() {
    let r = ls_outcome(Ok(reply(200, r#"{"files":["a","b/c"]}"#)));
    assert_eq!(parts(r), (lines(&["a", "b/c"]), lines(&[]), 0));
    let r = ls_outcome(Ok(reply(404, r#"{"error":"not found"}"#)));
    assert_eq!(parts(r), (lines(&[]), lines(&["ls 失败: not found"]), 1));
}

#[test]
fn a_download_is_saved() {
    match download_outcome("f", Ok(reply(200, "bytes"))) {
        Download::Save(bytes) => assert_eq!(bytes, b"bytes"),
        Download::Stop(_) => panic!("stopped"),
    }
    assert_eq!(saved_line("a.pdf", 120), "已保存到 a.pdf (120 字节)");
}

#[test]
fn a_directory_is_not_saved() {
    let listing = Reply {
        content_type: Some("application/json; charset=utf-8".to_string()),
        ..reply(200, "{}")
    };
    match download_outcome("f", Ok(listing)) {
        Download::Save(_) => panic!("saved"),
        Download::Stop(r) => assert_eq!(
            parts(r),
            (lines(&[]), lines(&["f 是一个目录而非文件,请指定文件名,或用 ls 查看内容"]), 1)
        ),
    }
    let octets = Reply {
        content_type: Some("application/octet-stream".to_string()),
        body: Err("reset".to_string()),
        ..reply(200, "")
    };
    match download_outcome("f", Ok(octets)) {
        Download::Save(_) => panic!("saved"),
        Download::Stop(r) => {
            assert_eq!(parts(r), (lines(&[]), lines(&["读取响应失败: reset"]), 1))
        }
    }
    match download_outcome("f", Ok(reply(404, "{\"error\":\"not found\"}"))) {
        Download::Save(_) => panic!("saved"),
        Download::Stop(r) => {
            assert_eq!(parts(r), (lines(&[]), lines(&["下载失败: not found"]), 1))
        }
    }
}

#[test]
fn a_pull_asks_for_the_files_of_the_listing() {
    match pull_listed(Ok(reply(200, r#"{"files":["a","b\"c",7]}"#))) {
        Listing::Fetch(body) => assert_eq!(body, r#"{"files":["a","b\"c"]}"#),
        Listing::Stop(_) => panic!("stopped"),
    }
    match pull_listed(Ok(reply(200, r#"{"files":[]}"#))) {
        Listing::Fetch(_) => panic!("fetched"),
        Listing::Stop(r) => assert_eq!(parts(r), (lines(&["该目录为空,无文件可拉取"]), lines(&[]), 0)),
    }
    match pull_listed(Ok(reply(404, ""))) {
        Listing::Fetch(_) => panic!("fetched"),
        Listing::Stop(r) => {
            assert_eq!(parts(r), (lines(&[]), lines(&["pull 失败: HTTP 404 Words"]), 1))
        }
    }
    match ask_for_files(&lines(&["x"])) {
        Listing::Fetch(body) => assert_eq!(body, r#"{"files":["x"]}"#),
        Listing::Stop(_) => panic!("stopped"),
    }
}

fn zipped(names: &[&str]) -> Vec<u8> {
    let mut writer = zip::ZipWriter::new(std::io::Cursor::new(Vec::new()));
    for name in names {
        writer.start_file(*name, zip::write::SimpleFileOptions::default()).unwrap();
        writer.write_all(name.as_bytes()).unwrap();
    }
    writer.finish().unwrap().into_inner()
}

fn shown(step: &PullStep) -> String {
    match step {
        PullStep::Skip(name) => format!("skip {}", name),
        PullStep::MakeDir(path) => format!("dir {}", path),
        PullStep::WriteFile(i, path) => format!("file {} {}", i, path),
    }
}

#[test]
fn an_archive_is_unpacked_below_the_directory() {
    let names = [
        "a/b.txt", "../up", "d/", "/etc/x", "a/../b", "a/../../b", "./c", "e\\f", "12:30.log",
        "../x:y", "a:b/../../c",
    ];
    let bytes = zipped(&names);
    let received = Reply { body: Ok(bytes), ..reply(200, "") };
    match pull_received(Ok(received)) {
        Pulled::Stop(_) => panic!("stopped"),
        Pulled::Unpack(u) => {
            assert!(u.failure.is_none());
            assert_eq!(u.archive.len(), names.len());
            let steps: Vec<String> = u.steps.iter().map(shown).collect();
            assert_eq!(
                steps,
                [
                    "file 0 a/b.txt",
                    "skip ../up",
                    "dir d/",
                    "skip /etc/x",
                    "file 4 a/../b",
                    "skip a/../../b",
                    "file 6 ./c",
                    "file 7 e\\f",
                    "file 8 12:30.log",
                    "skip ../x:y",
                    "skip a:b/../../c",
                ]
            );
            assert_eq!(pull_summary(&u.steps, "out"), "已拉取 5 个文件到 out");
        }
    }
}

#[test]
fn an_entry_that_cannot_be_read_ends_the_unpacking() {
    let mut bytes = zipped(&["a", "b"]);
    // The header of the second entry stands behind that of the first, its name and its bytes.
    let second = bytes.windows(4).rposition(|w| w == [b'P', b'K', 3, 4]).unwrap();
    bytes[second] = b'X';
    match pull_received(Ok(Reply { body: Ok(bytes), ..reply(200, "") })) {
        Pulled::Stop(_) => panic!("stopped"),
        Pulled::Unpack(u) => {
            assert_eq!(u.steps.len(), 1);
            assert!(u.failure.unwrap().starts_with("读取 zip 条目失败: "));
        }
    }
}

#[test]
fn an_answer_that_is_no_archive() {
    match pull_received(Ok(reply(200, "no archive"))) {
        Pulled::Unpack(_) => panic!("unpacked"),
        Pulled::Stop(r) => {
            assert_eq!(r.code, 1);
            assert!(r.err[0].starts_with("解压失败: "));
        }
    }
    match pull_received(Ok(reply(404, "{\"error\":\"missing: a\"}"))) {
        Pulled::Unpack(_) => panic!("unpacked"),
        Pulled::Stop(r) => {
            assert_eq!(parts(r), (lines(&[]), lines(&["批量下载失败: missing: a"]), 1))
        }
    }
}

#[test]
fn entries_are_placed_by_their_enclosed_path() {
    let entry = |is_dir: bool, enclosed: Option<&str>| ZipEntry {
        name: "n".to_string(),
        is_dir,
        enclosed: enclosed.map(|s| s.to_string()),
    };
    assert_eq!(shown(&place_entry(3, entry(false, None))), "skip n");
    assert_eq!(shown(&place_entry(3, entry(true, Some("p")))), "dir p");
    assert_eq!(shown(&place_entry(3, entry(false, Some("p")))), "file 3 p");
}

#[test]
fn a_pulled_file_has_the_bytes_of_its_entry() {
    let mut u = unpack(zipped(&["a/b.txt", "../up", "12:30.log"])).unwrap();
    let mut written = Vec::new();
    for step in &u.steps {
        if let PullStep::WriteFile(index, path) = step {
            let data = read_entry(&mut u.archive, *index).unwrap();
            assert!(data.failure.is_none());
            written.push((path.clone(), data.bytes));
        }
    }
    let expected = ["a/b.txt", "12:30.log"].map(|s| (s.to_string(), s.as_bytes().to_vec()));
    assert_eq!(written, expected);
    assert!(read_entry(&mut u.archive, 3).is_none());
}

#[test]
fn an_entry_whose_bytes_were_changed_is_not_read() {
    let mut writer = zip::ZipWriter::new(std::io::Cursor::new(Vec::new()));
    let stored = zip::write::SimpleFileOptions::default()
        .compression_method(zip::CompressionMethod::Stored);
    writer.start_file("a", stored).unwrap();
    writer.write_all(b"content").unwrap();
    let mut bytes = writer.finish().unwrap().into_inner();
    let at = bytes.windows(7).position(|w| w == b"content").unwrap();
    bytes[at] = b'C';
    let mut u = unpack(bytes).unwrap();
    assert_eq!(u.steps.len(), 1);
    let data = read_entry(&mut u.archive, 0).unwrap();
    assert_eq!(data.failure, Some("Invalid checksum".to_string()));
}
