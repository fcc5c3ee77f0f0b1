use upload_server::cli::{
    cmd_download, cmd_ls, cmd_pull, cmd_upload, command, files_url, parse_options, split_args, take_flag,
    FileCommand,
};
use upload_server::namespace::{parse_ns, valid_namespace_segment};
use upload_server::url::{file_url, fits_address, MAX_ADDRESS};

fn args(v: &[&str]) -> Vec<String> {
    v.iter().map(|s| s.to_string()).collect()
}

#[test]
fn namespaces_are_split_at_slashes() {
    assert_eq!(parse_ns("a/b/c"), args(&["a", "b", "c"]));
    assert_eq!(parse_ns("/a//b/"), args(&["a", "b"]));
    assert_eq!(parse_ns("a"), args(&["a"]));
    assert_eq!(parse_ns("a/./b"), args(&["a", ".", "b"]));
    assert!(parse_ns("").is_empty());
    assert!(parse_ns(".").is_empty());
    assert!(parse_ns("///").is_empty());
}

#[test]
fn segments_of_namespaces() {
    for s in ["a", "A-z_0.9", "...", ".a", "-"] {
        assert!(valid_namespace_segment(s));
    }
    for s in ["", ".", "..", "a/b", "a b", "\u{e9}", "a\\"] {
        assert!(!valid_namespace_segment(s));
    }
    assert!(valid_namespace_segment(&"x".repeat(128)));
    assert!(!valid_namespace_segment(&"x".repeat(129)));
}

#[test]
fn options_for_the_connection() {
    let argv = args(&["file", "--insecure", "--server", "http://a", "ls", "--server=http://b", "x"]);
    let found = parse_options(&argv, "http://d".to_string()).unwrap();
    assert_eq!(found.server, "http://b");
    assert!(found.insecure);
    assert_eq!(found.args, args(&["file", "ls", "x"]));
    let found = parse_options(&args(&["file"]), "http://d".to_string()).unwrap();
    assert_eq!((found.server.as_str(), found.insecure), ("http://d", false));
    let found = parse_options(&args(&["--server", "--insecure"]), String::new()).unwrap();
    assert_eq!((found.server.as_str(), found.insecure), ("--insecure", false));
    match parse_options(&args(&["file", "--server"]), String::new()) {
        Ok(_) => panic!("accepted"),
        Err(e) => assert_eq!(e, "--server 缺少 URL 参数"),
    }
}

#[test]
fn the_second_argument_is_the_command() {
    let v = args(&["file", "ls", "x", "y"]);
    let (sub, rest) = split_args(&v);
    assert_eq!(sub, Some("ls"));
    assert_eq!(rest, &v[2..]);
    assert_eq!(split_args(&v[..1]).0, None);
    assert!(split_args(&v[..1]).1.is_empty());
}

#[test]
fn commands_are_known_by_name() {
    let name = |v: &[&str]| match command(&args(v)) {
        Ok((FileCommand::Upload, rest)) => format!("upload {}", rest.len()),
        Ok((FileCommand::Ls, rest)) => format!("ls {}", rest.len()),
        Ok((FileCommand::Download, rest)) => format!("download {}", rest.len()),
        Ok((FileCommand::Pull, rest)) => format!("pull {}", rest.len()),
        Err(e) => e,
    };
    assert_eq!(name(&["file", "upload", "a", "b"]), "upload 2");
    assert_eq!(name(&["file", "ls"]), "ls 0");
    assert_eq!(name(&["file", "download", "a"]), "download 1");
    assert_eq!(name(&["file", "pull"]), "pull 0");
    assert_eq!(name(&["file", "rm"]), "未知子命令 file rm");
    assert_eq!(name(&["file"]), "缺少子命令(file upload / ls / download / pull)");
    assert_eq!(name(&["log"]), "未知命令,目前仅支持 file");
    assert_eq!(name(&[]), "未知命令,目前仅支持 file");
}

#[test]
fn a_flag_is_taken_with_its_value() {
    let taken = |v: &[&str]| take_flag(&args(v), "-o");
    assert_eq!(taken(&["a", "-o", "x", "b"]), Ok((args(&["a", "b"]), Some("x".to_string()))));
    assert_eq!(taken(&["-o", "x", "-o", "y"]), Ok((args(&[]), Some("y".to_string()))));
    assert_eq!(taken(&["-o", "-o"]), Ok((args(&[]), Some("-o".to_string()))));
    assert_eq!(taken(&["a"]), Ok((args(&["a"]), None)));
    assert_eq!(taken(&["a", "-o"]), Err("-o 缺少值".to_string()));
}

#[test]
fn addresses_of_files() {
    let url = |server: &str, ns: &[&str], f: Option<&str>| file_url(server, &args(ns), f);
    assert_eq!(url("http://h:1", &["a", "b"], Some("c")), Ok("http://h:1/file/a/b/c".to_string()));
    assert_eq!(url("http://h/base", &[], None), Ok("http://h/base/file".to_string()));
    assert_eq!(url("http://h", &["a b", "../x"], Some("é/?")), Ok(
        "http://h/file/a%20b/..%2Fx/%C3%A9%2F%3F".to_string()
    ));
    assert_eq!(url("http://h", &[".", ".."], Some("f")), Ok("http://h/file/f".to_string()));
    assert_eq!(
        url("h", &[], None),
        Err("服务器地址无效: relative URL without a base".to_string())
    );
    assert_eq!(url("mailto:x", &[], None), Err("服务器地址不能带查询参数(query)".to_string()));
}

#[test]
fn long_addresses_do_not_fit() {
    assert!(fits_address("http://h", &args(&["a", "b"])));
    assert!(!fits_address("http://h", &vec!["x".repeat(MAX_ADDRESS)]));
    assert!(!fits_address(&"x".repeat(MAX_ADDRESS + 1), &args(&[])));
}

#[test]
fn an_upload_names_its_namespace() {
    let request = cmd_upload("http://h", &args(&["jr/lxy", "./a.pdf", "./b.png"])).unwrap();
    assert_eq!(request.url, "http://h/files");
    assert_eq!(request.files, args(&["./a.pdf", "./b.png"]));
    assert_eq!(request.json, r#"{"namespace":["jr","lxy"]}"#);
    let request = cmd_upload("http://h", &args(&[".", "a"])).unwrap();
    assert_eq!(request.json, r#"{"namespace":[]}"#);
    match cmd_upload("http://h", &args(&["a"])) {
        Ok(_) => panic!("accepted"),
        Err(e) => assert_eq!(e, "file upload 需要 <NAMESPACE> <FILE>..."),
    }
}

#[test]
fn a_listing_may_name_a_namespace() {
    assert_eq!(cmd_ls("http://h", &args(&[])), Ok("http://h/file".to_string()));
    assert_eq!(cmd_ls("http://h", &args(&["a/b"])), Ok("http://h/file/a/b".to_string()));
    assert_eq!(
        cmd_ls("http://h", &args(&["a", "b"])),
        Err("file ls 最多接受一个 NAMESPACE 参数".to_string())
    );
}

#[test]
fn a_download_names_a_file() {
    let request = cmd_download("http://h", &args(&["a", "-o", "out", "f"])).unwrap();
    assert_eq!(request.url, "http://h/file/a/f");
    assert_eq!(request.filename, "f");
    assert_eq!(request.out, Some("out".to_string()));
    let refused = |v: &[&str]| match cmd_download("http://h", &args(v)) {
        Ok(_) => panic!("accepted"),
        Err(e) => e,
    };
    assert_eq!(refused(&["a"]), "file download 需要 <NAMESPACE> <FILENAME> [-o <OUT>]");
    assert_eq!(refused(&["a", "f", "-o"]), "-o 缺少值");
}

#[test]
fn a_pull_goes_to_the_current_directory_by_default() {
    let request = cmd_pull("http://h", &args(&["a/b"])).unwrap();
    assert_eq!((request.url.as_str(), request.dir.as_str()), ("http://h/file/a/b", "."));
    let request = cmd_pull("http://h", &args(&["-o", "d"])).unwrap();
    assert_eq!((request.url.as_str(), request.dir.as_str()), ("http://h/file", "d"));
    match cmd_pull("http://h", &args(&["a", "b"])) {
        Ok(_) => panic!("accepted"),
        Err(e) => assert_eq!(e, "file pull 最多接受一个 NAMESPACE 参数"),
    }
}

#[test]
fn uploads_and_downloads_name_the_same_place() {
    let upload = cmd_upload("http://h", &args(&["/a//b", "f"])).unwrap();
    let download = cmd_download("http://h", &args(&["/a//b", "f"])).unwrap();
    assert_eq!(upload.json, r#"{"namespace":["a","b"]}"#);
    assert_eq!(download.url, "http://h/file/a/b/f");
}

#[test]
fn files_are_sent_and_asked_for_at_one_address() {
    assert_eq!(files_url("http://h:1"), "http://h:1/files");
}
