//! The arguments of the command line client.

use crate::json::{strings_text, JsonView};
use crate::namespace::parse_ns;
use crate::text::{after_prefix, concat, same_text};
use crate::url::file_url;
use vstd::prelude::*;

verus! {

/// The arguments without the options for the connection, and these.
#[derive(Debug)]
pub struct Invocation {
    pub server: String,
    pub insecure: bool,
    pub args: Vec<String>,
}

/// The arguments without the options for the connection, and these, as a specification writes
/// them.
#[verifier::ext_equal]
pub struct InvocationView {
    pub server: Seq<char>,
    pub insecure: bool,
    pub args: Seq<Seq<char>>,
}

impl View for Invocation {
    type V = InvocationView;

    open spec fn view(&self) -> InvocationView {
        InvocationView {
            server: self.server@,
            insecure: self.insecure,
            args: crate::text::texts(self.args@),
        }
    }
}

/// Takes the options `--server URL`, `--server=URL` and `--insecure` out of `argv`, wherever they
/// stand; of several servers the last counts.
pub open spec fn scan_options(argv: Seq<Seq<char>>, found: InvocationView) -> Result<
    InvocationView,
    Seq<char>,
>
    decreases argv.len(),
{
    if argv.len() == 0 {
        Ok(found)
    } else if argv[0] == "--server"@ {
        if argv.len() == 1 {
            Err("--server 缺少 URL 参数"@)
        } else {
            scan_options(argv.skip(2), InvocationView { server: argv[1], ..found })
        }
    } else if crate::text::begins_with(argv[0], "--server="@) {
        scan_options(
            argv.skip(1),
            InvocationView { server: argv[0].skip("--server="@.len() as int), ..found },
        )
    } else if argv[0] == "--insecure"@ {
        scan_options(argv.skip(1), InvocationView { insecure: true, ..found })
    } else {
        scan_options(argv.skip(1), InvocationView { args: found.args.push(argv[0]), ..found })
    }
}

/// The arguments without the options for the connection, and these; `server` is the address where
/// no option gives one.
pub fn parse_options(argv: &Vec<String>, server: String) -> (r: Result<Invocation, String>)
    ensures
        ({
            let none = InvocationView { server: server@, insecure: false, args: Seq::empty() };
            match r {
                Ok(found) => scan_options(crate::text::texts(argv@), none) == Ok::<
                    InvocationView,
                    Seq<char>,
                >(found@),
                Err(e) => scan_options(crate::text::texts(argv@), none) == Err::<
                    InvocationView,
                    Seq<char>,
                >(e@),
            }
        }),
{
    let ghost all = crate::text::texts(argv@);
    let ghost none = InvocationView { server: server@, insecure: false, args: Seq::empty() };
    let mut found: Invocation = Invocation { server, insecure: false, args: Vec::new() };
    let mut i: usize = 0;
    assert(found@ =~= none);
    assert(all.skip(0) =~= all);
    while i < argv.len()
        invariant
            all == crate::text::texts(argv@),
            none == (InvocationView { server: server@, insecure: false, args: Seq::empty() }),
            i <= argv@.len(),
            scan_options(all, none) == scan_options(all.skip(i as int), found@),
        decreases argv@.len() - i,
    {
        let ghost rest = all.skip(i as int);
        let ghost before = found@;
        assert(rest[0] == argv@[i as int]@);
        assert(rest.skip(1) =~= all.skip(i + 1));
        let arg: &str = argv[i].as_str();
        if same_text(arg, "--server") {
            if i + 1 == argv.len() {
                return Err("--server 缺少 URL 参数".to_owned());
            }
            assert(rest[1] == argv@[i + 1]@);
            assert(rest.skip(2) =~= all.skip(i + 2));
            found.server = argv[i + 1].clone();
            assert(found@ =~= InvocationView { server: rest[1], ..before });
            i = i + 2;
        } else {
            match after_prefix(arg, "--server=") {
                Some(url) => {
                    found.server = url;
                    assert(found@ =~= InvocationView {
                        server: rest[0].skip("--server="@.len() as int),
                        ..before
                    });
                },
                None => {
                    if same_text(arg, "--insecure") {
                        found.insecure = true;
                        assert(found@ =~= InvocationView { insecure: true, ..before });
                    } else {
                        found.args.push(argv[i].clone());
                        assert(found@ =~= InvocationView {
                            args: before.args.push(rest[0]),
                            ..before
                        });
                    }
                },
            }
            i = i + 1;
        }
    }
    Ok(found)
}

/// The second argument, and those after it.
pub fn split_args(args: &[String]) -> (r: (Option<&str>, &[String]))
    ensures
        args@.len() < 2 ==> r.0 is None && r.1@.len() == 0,
        args@.len() >= 2 ==> {
            &&& r.0 matches Some(sub)
            &&& sub@ == args@[1]@
            &&& r.1@ == args@.skip(2)
        },
{
    if args.len() < 2 {
        (None, vstd::slice::slice_subrange(args, 0, 0))
    } else {
        let rest: &[String] = vstd::slice::slice_subrange(args, 2, args.len());
        assert(rest@ =~= args@.skip(2));
        (Some(args[1].as_str()), rest)
    }
}

/// The arguments without the option `flag` and the value after it, and the value; of several
/// values the last counts.
pub open spec fn strip_flag(args: Seq<Seq<char>>, flag: Seq<char>) -> Result<
    (Seq<Seq<char>>, Option<Seq<char>>),
    Seq<char>,
>
    decreases args.len(),
{
    if args.len() == 0 {
        Ok((Seq::empty(), None))
    } else if args[0] == flag {
        if args.len() == 1 {
            Err(flag + " 缺少值"@)
        } else {
            match strip_flag(args.skip(2), flag) {
                Ok((rest, Some(value))) => Ok((rest, Some(value))),
                Ok((rest, None)) => Ok((rest, Some(args[1]))),
                Err(e) => Err(e),
            }
        }
    } else {
        match strip_flag(args.skip(1), flag) {
            Ok((rest, value)) => Ok((seq![args[0]] + rest, value)),
            Err(e) => Err(e),
        }
    }
}

/// What `strip_flag` gives, behind arguments that were looked at before.
spec fn after(
    kept: Seq<Seq<char>>,
    value: Option<Seq<char>>,
    r: Result<(Seq<Seq<char>>, Option<Seq<char>>), Seq<char>>,
) -> Result<(Seq<Seq<char>>, Option<Seq<char>>), Seq<char>> {
    match r {
        Ok((rest, Some(v))) => Ok((kept + rest, Some(v))),
        Ok((rest, None)) => Ok((kept + rest, value)),
        Err(e) => Err(e),
    }
}

/// The arguments without the option `flag` and the value after it, and the value.
pub fn take_flag(args: &[String], flag: &str) -> (r: Result<(Vec<String>, Option<String>), String>)
    ensures
        match r {
            Ok((rest, value)) => strip_flag(crate::text::texts(args@), flag@) == Ok::<
                (Seq<Seq<char>>, Option<Seq<char>>),
                Seq<char>,
            >((crate::text::texts(rest@), crate::text::option_text(value))),
            Err(e) => strip_flag(crate::text::texts(args@), flag@) == Err::<
                (Seq<Seq<char>>, Option<Seq<char>>),
                Seq<char>,
            >(e@),
        },
{
    let ghost all = crate::text::texts(args@);
    let mut rest: Vec<String> = Vec::new();
    let mut value: Option<String> = None;
    let mut i: usize = 0;
    proof {
        assert(all.skip(0) =~= all);
        let r = strip_flag(all, flag@);
        if let Ok((kept, v)) = r {
            assert(crate::text::texts(rest@) + kept =~= kept);
        }
    }
    while i < args.len()
        invariant
            all == crate::text::texts(args@),
            i <= args@.len(),
            strip_flag(all, flag@) == after(
                crate::text::texts(rest@),
                crate::text::option_text(value),
                strip_flag(all.skip(i as int), flag@),
            ),
        decreases args@.len() - i,
    {
        let ghost tail = all.skip(i as int);
        let ghost kept = crate::text::texts(rest@);
        assert(tail[0] == args@[i as int]@);
        assert(tail.skip(1) =~= all.skip(i + 1));
        if same_text(args[i].as_str(), flag) {
            if i + 1 == args.len() {
                return Err(concat(flag, " 缺少值"));
            }
            assert(tail[1] == args@[i + 1]@);
            assert(tail.skip(2) =~= all.skip(i + 2));
            value = Some(args[i + 1].clone());
            i = i + 2;
        } else {
            rest.push(args[i].clone());
            proof {
                assert(crate::text::texts(rest@) =~= kept.push(tail[0]));
                if let Ok((more, v)) = strip_flag(all.skip(i + 1), flag@) {
                    assert(kept.push(tail[0]) + more =~= kept + (seq![tail[0]] + more));
                }
            }
            i = i + 1;
        }
    }
    proof {
        assert(crate::text::texts(rest@) + Seq::<Seq<char>>::empty() =~= crate::text::texts(rest@));
    }
    Ok((rest, value))
}

/// The commands on files.
#[derive(Debug)]
pub enum FileCommand {
    Upload,
    Ls,
    Download,
    Pull,
}

/// The command that the arguments name.
pub open spec fn named_command(args: Seq<Seq<char>>) -> Result<FileCommand, Seq<char>> {
    if args.len() == 0 || args[0] != "file"@ {
        Err("未知命令,目前仅支持 file"@)
    } else if args.len() == 1 {
        Err("缺少子命令(file upload / ls / download / pull)"@)
    } else if args[1] == "upload"@ {
        Ok(FileCommand::Upload)
    } else if args[1] == "ls"@ {
        Ok(FileCommand::Ls)
    } else if args[1] == "download"@ {
        Ok(FileCommand::Download)
    } else if args[1] == "pull"@ {
        Ok(FileCommand::Pull)
    } else {
        Err("未知子命令 file "@ + args[1])
    }
}

/// The command that the arguments name, and the arguments of the command.
pub fn command(args: &[String]) -> (r: Result<(FileCommand, &[String]), String>)
    ensures
        match r {
            Ok((c, rest)) => named_command(crate::text::texts(args@)) == Ok::<
                FileCommand,
                Seq<char>,
            >(c) && rest@ == args@.skip(2),
            Err(e) => named_command(crate::text::texts(args@)) == Err::<FileCommand, Seq<char>>(e@),
        },
{
    if args.len() == 0 || !same_text(args[0].as_str(), "file") {
        return Err("未知命令,目前仅支持 file".to_owned());
    }
    let (sub, rest) = split_args(args);
    match sub {
        None => Err("缺少子命令(file upload / ls / download / pull)".to_owned()),
        Some(sub) => {
            if same_text(sub, "upload") {
                Ok((FileCommand::Upload, rest))
            } else if same_text(sub, "ls") {
                Ok((FileCommand::Ls, rest))
            } else if same_text(sub, "download") {
                Ok((FileCommand::Download, rest))
            } else if same_text(sub, "pull") {
                Ok((FileCommand::Pull, rest))
            } else {
                Err(concat("未知子命令 file ", sub))
            }
        },
    }
}

/// The address to which files are sent, and at which they are asked for.
pub fn files_url(server: &str) -> (r: String)
    ensures
        r@ == server@ + "/files"@,
{
    concat(server, "/files")
}

/// A request to upload files: where it goes, the files, and the part that names the namespace.
#[derive(Debug)]
pub struct UploadRequest {
    pub url: String,
    pub files: Vec<String>,
    pub json: String,
}

/// The part of an upload that names the namespace.
pub open spec fn namespace_json(ns: Seq<char>) -> JsonView {
    crate::json::strings_object_view("namespace"@, crate::namespace::ns_segments(ns))
}

/// The request to upload files that the arguments ask for; the part that names the namespace
/// reads as an object with its segments.
pub fn cmd_upload(server: &str, args: &[String]) -> (r: Result<UploadRequest, String>)
    ensures
        if args@.len() < 2 {
            r matches Err(e) && e@ == "file upload 需要 <NAMESPACE> <FILE>..."@
        } else {
            &&& r matches Ok(request)
            &&& request.url@ == server@ + "/files"@
            &&& crate::text::texts(request.files@) == crate::text::texts(args@).skip(1)
            &&& request.json@ == crate::json::json_text(namespace_json(args@[0]@))
            &&& crate::json::json_parse(vstd::utf8::encode_utf8(request.json@)) == Some(
                namespace_json(args@[0]@),
            )
        },
{
    if args.len() < 2 {
        return Err("file upload 需要 <NAMESPACE> <FILE>...".to_owned());
    }
    let ns: Vec<String> = parse_ns(args[0].as_str());
    let mut files: Vec<String> = Vec::new();
    for i in 1..args.len()
        invariant
            args@.len() >= 2,
            crate::text::texts(files@) =~= crate::text::texts(args@).subrange(1, i as int),
    {
        let ghost before = crate::text::texts(files@);
        files.push(args[i].clone());
        assert(crate::text::texts(files@) =~= before.push(args@[i as int]@));
    }
    proof {
        assert(crate::text::texts(files@) =~= crate::text::texts(args@).skip(1));
        reveal_strlit("namespace");
        reveal_strlit("$serde_json::private::RawValue");
        assert("namespace"@.len() < "$serde_json::private::RawValue"@.len());
    }
    let json: String = strings_text("namespace", &ns);
    Ok(UploadRequest { url: files_url(server), files, json })
}

/// The address of a directory, from the arguments that may name a namespace.
pub open spec fn listing_url(server: Seq<char>, args: Seq<Seq<char>>) -> Result<
    Seq<char>,
    Seq<char>,
> {
    let ns = if args.len() == 0 {
        Seq::empty()
    } else {
        crate::namespace::ns_segments(args[0])
    };
    crate::url::url_result(
        crate::url::extended_url(server, crate::url::file_path(ns, None)),
    )
}

/// The address of a directory, from the arguments that may name a namespace.
fn directory_url(server: &str, args: &Vec<String>) -> (r: Result<String, String>)
    requires
        crate::url::fits(server@, crate::text::texts(args@)),
    ensures
        match r {
            Ok(u) => listing_url(server@, crate::text::texts(args@)) == Ok::<
                Seq<char>,
                Seq<char>,
            >(u@),
            Err(e) => listing_url(server@, crate::text::texts(args@)) == Err::<
                Seq<char>,
                Seq<char>,
            >(e@),
        },
{
    let ghost all = crate::text::texts(args@);
    let ns: Vec<String> = if args.len() == 0 {
        Vec::new()
    } else {
        proof {
            reveal_with_fuel(crate::url::total_len, 2);
            crate::url::lemma_total_len_take(all, 1);
            assert(all.take(1).drop_last() =~= Seq::empty());
            crate::url::lemma_ns_total_len(all[0]);
        }
        parse_ns(args[0].as_str())
    };
    proof {
        assert(args@.len() == 0 ==> crate::text::texts(ns@) =~= Seq::empty());
        assert(crate::text::texts(ns@) + Seq::<Seq<char>>::empty() =~= crate::text::texts(ns@));
    }
    file_url(server, &ns, None)
}

/// A copy of the arguments.
fn owned(args: &[String]) -> (r: Vec<String>)
    ensures
        crate::text::texts(r@) == crate::text::texts(args@),
{
    let mut r: Vec<String> = Vec::new();
    for i in 0..args.len()
        invariant
            crate::text::texts(r@) =~= crate::text::texts(args@).take(i as int),
    {
        let ghost before = crate::text::texts(r@);
        r.push(args[i].clone());
        assert(crate::text::texts(r@) =~= before.push(args@[i as int]@));
    }
    assert(crate::text::texts(r@) =~= crate::text::texts(args@));
    r
}

/// The address whose answer lists a directory.
pub open spec fn ls_url(server: Seq<char>, args: Seq<Seq<char>>) -> Result<Seq<char>, Seq<char>> {
    if args.len() > 1 {
        Err("file ls 最多接受一个 NAMESPACE 参数"@)
    } else {
        listing_url(server, args)
    }
}

/// The address whose answer lists the directory that the arguments ask for.
pub fn cmd_ls(server: &str, args: &[String]) -> (r: Result<String, String>)
    requires
        crate::url::fits(server@, crate::text::texts(args@)),
    ensures
        match r {
            Ok(u) => ls_url(server@, crate::text::texts(args@)) == Ok::<Seq<char>, Seq<char>>(u@),
            Err(e) => ls_url(server@, crate::text::texts(args@)) == Err::<Seq<char>, Seq<char>>(e@),
        },
{
    if args.len() > 1 {
        return Err("file ls 最多接受一个 NAMESPACE 参数".to_owned());
    }
    directory_url(server, &owned(args))
}

/// A request to download a file: where it goes, the name of the file, and where it is saved.
#[derive(Debug)]
pub struct DownloadRequest {
    pub url: String,
    pub filename: String,
    pub out: Option<String>,
}

/// A request to download a file, as a specification writes it.
#[verifier::ext_equal]
pub struct DownloadView {
    pub url: Seq<char>,
    pub filename: Seq<char>,
    pub out: Option<Seq<char>>,
}

impl View for DownloadRequest {
    type V = DownloadView;

    open spec fn view(&self) -> DownloadView {
        DownloadView {
            url: self.url@,
            filename: self.filename@,
            out: crate::text::option_text(self.out),
        }
    }
}

/// The request to download a file that the arguments ask for.
pub open spec fn download_request(server: Seq<char>, args: Seq<Seq<char>>) -> Result<
    DownloadView,
    Seq<char>,
> {
    match strip_flag(args, "-o"@) {
        Err(e) => Err(e),
        Ok((pos, out)) => if pos.len() < 2 {
            Err("file download 需要 <NAMESPACE> <FILENAME> [-o <OUT>]"@)
        } else {
            match crate::url::url_result(
                crate::url::extended_url(
                    server,
                    crate::url::file_path(
                        crate::namespace::ns_segments(pos[0]),
                        Some(pos[1]),
                    ),
                ),
            ) {
                Err(e) => Err(e),
                Ok(url) => Ok(DownloadView { url, filename: pos[1], out }),
            }
        },
    }
}

/// What is left of the arguments has no more characters than they.
proof fn lemma_strip_flag_total_len(args: Seq<Seq<char>>, flag: Seq<char>)
    ensures
        strip_flag(args, flag) matches Ok((rest, _)) ==> crate::url::total_len(rest)
            <= crate::url::total_len(args),
    decreases args.len(),
{
    reveal_with_fuel(crate::url::total_len, 2);
    if args.len() > 0 {
        if args[0] == flag {
            if args.len() > 1 {
                lemma_strip_flag_total_len(args.skip(2), flag);
                assert(args =~= args.take(2) + args.skip(2));
                crate::url::lemma_total_len_add(args.take(2), args.skip(2));
            }
        } else {
            lemma_strip_flag_total_len(args.skip(1), flag);
            assert(args =~= seq![args[0]] + args.skip(1));
            assert(seq![args[0]].drop_last() =~= Seq::empty());
            crate::url::lemma_total_len_add(seq![args[0]], args.skip(1));
            if let Ok((rest, _)) = strip_flag(args.skip(1), flag) {
                crate::url::lemma_total_len_add(seq![args[0]], rest);
            }
        }
    }
}

/// The request to download a file that the arguments ask for.
pub fn cmd_download(server: &str, args: &[String]) -> (r: Result<DownloadRequest, String>)
    requires
        crate::url::fits(server@, crate::text::texts(args@)),
    ensures
        match r {
            Ok(request) => download_request(server@, crate::text::texts(args@)) == Ok::<
                DownloadView,
                Seq<char>,
            >(request@),
            Err(e) => download_request(server@, crate::text::texts(args@)) == Err::<
                DownloadView,
                Seq<char>,
            >(e@),
        },
{
    let (pos, out): (Vec<String>, Option<String>) = match take_flag(args, "-o") {
        Ok(taken) => taken,
        Err(e) => return Err(e),
    };
    if pos.len() < 2 {
        return Err("file download 需要 <NAMESPACE> <FILENAME> [-o <OUT>]".to_owned());
    }
    let ns: Vec<String> = parse_ns(pos[0].as_str());
    proof {
        let all = crate::text::texts(pos@);
        lemma_strip_flag_total_len(crate::text::texts(args@), "-o"@);
        reveal_with_fuel(crate::url::total_len, 3);
        crate::url::lemma_total_len_take(all, 2);
        assert(all.take(2).drop_last().drop_last() =~= Seq::empty());
        assert(all.take(2).drop_last().last() == all[0]);
        assert(all.take(2).last() == all[1]);
        crate::url::lemma_ns_total_len(all[0]);
        assert(seq![all[1]].drop_last() =~= Seq::empty());
        crate::url::lemma_total_len_add(crate::text::texts(ns@), seq![all[1]]);
    }
    match file_url(server, &ns, Some(pos[1].as_str())) {
        Ok(url) => Ok(DownloadRequest { url, filename: pos[1].clone(), out }),
        Err(e) => Err(e),
    }
}

/// A request to pull a directory: the address whose answer lists it, and where its files go.
#[derive(Debug)]
pub struct PullRequest {
    pub url: String,
    pub dir: String,
}

/// A request to pull a directory, as a specification writes it.
#[verifier::ext_equal]
pub struct PullView {
    pub url: Seq<char>,
    pub dir: Seq<char>,
}

impl View for PullRequest {
    type V = PullView;

    open spec fn view(&self) -> PullView {
        PullView { url: self.url@, dir: self.dir@ }
    }
}

/// The request to pull a directory that the arguments ask for; without the option `-o` its files
/// go to the current directory.
pub open spec fn pull_request(server: Seq<char>, args: Seq<Seq<char>>) -> Result<
    PullView,
    Seq<char>,
> {
    match strip_flag(args, "-o"@) {
        Err(e) => Err(e),
        Ok((pos, dir)) => if pos.len() > 1 {
            Err("file pull 最多接受一个 NAMESPACE 参数"@)
        } else {
            match listing_url(server, pos) {
                Err(e) => Err(e),
                Ok(url) => Ok(
                    PullView {
                        url,
                        dir: match dir {
                            Some(dir) => dir,
                            None => "."@,
                        },
                    },
                ),
            }
        },
    }
}

/// The request to pull a directory that the arguments ask for.
pub fn cmd_pull(server: &str, args: &[String]) -> (r: Result<PullRequest, String>)
    requires
        crate::url::fits(server@, crate::text::texts(args@)),
    ensures
        match r {
            Ok(request) => pull_request(server@, crate::text::texts(args@)) == Ok::<
                PullView,
                Seq<char>,
            >(request@),
            Err(e) => pull_request(server@, crate::text::texts(args@)) == Err::<
                PullView,
                Seq<char>,
            >(e@),
        },
{
    let (pos, dir): (Vec<String>, Option<String>) = match take_flag(args, "-o") {
        Ok(taken) => taken,
        Err(e) => return Err(e),
    };
    if pos.len() > 1 {
        return Err("file pull 最多接受一个 NAMESPACE 参数".to_owned());
    }
    proof {
        lemma_strip_flag_total_len(crate::text::texts(args@), "-o"@);
    }
    let dir: String = match dir {
        Some(dir) => dir,
        None => ".".to_owned(),
    };
    match directory_url(server, &pos) {
        Ok(url) => Ok(PullRequest { url, dir }),
        Err(e) => Err(e),
    }
}

/// Arguments among which the option does not stand are all kept.
proof fn lemma_strip_nothing(args: Seq<Seq<char>>, flag: Seq<char>)
    requires
        !args.contains(flag),
    ensures
        strip_flag(args, flag) == Ok::<(Seq<Seq<char>>, Option<Seq<char>>), Seq<char>>(
            (args, None),
        ),
    decreases args.len(),
{
    if args.len() > 0 {
        assert(args[0] != flag);
        assert forall|x: Seq<char>| args.skip(1).contains(x) implies args.contains(x) by {
            let k = choose|k: int| 0 <= k < args.len() - 1 && args.skip(1)[k] == x;
            assert(args[k + 1] == x);
        }
        lemma_strip_nothing(args.skip(1), flag);
        assert(seq![args[0]] + args.skip(1) =~= args);
    } else {
        assert(args =~= Seq::empty());
    }
}

/// An option and its value may stand anywhere among the arguments: what is left is the others, in
/// their order, and the value.
pub proof fn law_option_may_stand_anywhere(
    before: Seq<Seq<char>>,
    flag: Seq<char>,
    value: Seq<char>,
    after: Seq<Seq<char>>,
)
    requires
        !before.contains(flag),
        !after.contains(flag),
    ensures
        strip_flag(before + seq![flag, value] + after, flag) == Ok::<
            (Seq<Seq<char>>, Option<Seq<char>>),
            Seq<char>,
        >((before + after, Some(value))),
        strip_flag(before + after, flag) == Ok::<
            (Seq<Seq<char>>, Option<Seq<char>>),
            Seq<char>,
        >((before + after, None)),
        strip_flag(before + seq![flag], flag) == Err::<
            (Seq<Seq<char>>, Option<Seq<char>>),
            Seq<char>,
        >(flag + " 缺少值"@),
    decreases before.len(),
{
    let all = before + seq![flag, value] + after;
    if before.len() == 0 {
        assert(all.skip(2) =~= after);
        assert(before + after =~= after);
        lemma_strip_nothing(after, flag);
    } else {
        let rest = before.skip(1);
        assert(before[0] != flag);
        assert forall|x: Seq<char>| rest.contains(x) implies before.contains(x) by {
            let k = choose|k: int| 0 <= k < rest.len() && rest[k] == x;
            assert(before[k + 1] == x);
        }
        law_option_may_stand_anywhere(rest, flag, value, after);
        assert(all.skip(1) =~= rest + seq![flag, value] + after);
        assert((before + after).skip(1) =~= rest + after);
        assert((before + seq![flag]).skip(1) =~= rest + seq![flag]);
        assert(seq![before[0]] + (rest + after) =~= before + after);
    }
}

/// Arguments that are no options for the connection are passed on in their order.
pub proof fn law_other_arguments_pass(argv: Seq<Seq<char>>, found: InvocationView)
    requires
        forall|i: int| 0 <= i < argv.len() ==> #[trigger] argv[i] != "--server"@,
        forall|i: int| 0 <= i < argv.len() ==> #[trigger] argv[i] != "--insecure"@,
        forall|i: int|
            0 <= i < argv.len() ==> !crate::text::begins_with(#[trigger] argv[i], "--server="@),
    ensures
        scan_options(argv, found) == Ok::<InvocationView, Seq<char>>(
            (InvocationView { args: found.args + argv, ..found }),
        ),
    decreases argv.len(),
{
    if argv.len() > 0 {
        let next = InvocationView { args: found.args.push(argv[0]), ..found };
        law_other_arguments_pass(argv.skip(1), next);
        assert(next.args + argv.skip(1) =~= found.args + argv);
    } else {
        assert(found.args + argv =~= found.args);
    }
}

/// An upload to a namespace and a download from it name the same place: the segments that the
/// upload sends are those that stand between `file` and the name in the address of the download.
pub proof fn law_upload_and_download_name_the_same_place(ns: Seq<char>, filename: Seq<char>)
    ensures
        ({
            let segments = crate::namespace::ns_segments(ns);
            &&& crate::json::member_view(namespace_json(ns), "namespace"@) == Some(
                JsonView::Array(segments.map_values(|s: Seq<char>| JsonView::Text(s))),
            )
            &&& crate::url::file_path(segments, Some(filename)) == seq!["file"@] + segments
                + seq![filename]
        }),
{
}

/// The options for the connection, each by itself: `--server` takes the argument after it, or what
/// follows `--server=`, and lacks it where it comes last; `--insecure` takes none. No option changes
/// what another set but for the same one, nor the other arguments.
pub proof fn law_connection_options(found: InvocationView, url: Seq<char>)
    ensures
        scan_options(Seq::empty(), found) == Ok::<InvocationView, Seq<char>>(found),
        scan_options(seq!["--server"@, url], found) == Ok::<InvocationView, Seq<char>>(
            (InvocationView { server: url, insecure: found.insecure, args: found.args }),
        ),
        scan_options(seq!["--server="@ + url], found) == Ok::<InvocationView, Seq<char>>(
            (InvocationView { server: url, insecure: found.insecure, args: found.args }),
        ),
        scan_options(seq!["--insecure"@], found) == Ok::<InvocationView, Seq<char>>(
            (InvocationView { server: found.server, insecure: true, args: found.args }),
        ),
        scan_options(seq!["--server"@], found) == Err::<InvocationView, Seq<char>>(
            "--server 缺少 URL 参数"@,
        ),
{
    reveal_with_fuel(scan_options, 2);
    reveal_strlit("--server");
    reveal_strlit("--server=");
    reveal_strlit("--insecure");
    let joint = "--server="@ + url;
    assert(joint.take("--server="@.len() as int) =~= "--server="@);
    assert(joint.skip("--server="@.len() as int) =~= url);
    assert(joint != "--server"@) by {
        assert(joint.len() > "--server"@.len());
    }
    assert(seq!["--server"@, url].skip(2) =~= Seq::empty());
    assert(seq![joint].skip(1) =~= Seq::empty());
    assert(seq!["--insecure"@].skip(1) =~= Seq::empty());
    assert("--insecure"@ != "--server"@) by {
        assert("--insecure"@.len() != "--server"@.len());
    }
    assert(!crate::text::begins_with("--insecure"@, "--server="@)) by {
        assert("--insecure"@[2] != "--server="@[2]);
        if crate::text::begins_with("--insecure"@, "--server="@) {
            assert("--insecure"@.take("--server="@.len() as int)[2] == "--server="@[2]);
        }
    }
}

/// Arguments are looked at in their order: what those in front come to is where those behind start,
/// so that of several servers the last counts, and a fault is one wherever it stands.
pub proof fn law_options_are_taken_in_order(
    a: Seq<Seq<char>>,
    b: Seq<Seq<char>>,
    found: InvocationView,
)
    ensures
        scan_options(a, found) matches Ok(mid) ==> scan_options(a + b, found) == scan_options(b, mid),
    decreases a.len(),
{
    let all = a + b;
    if a.len() == 0 {
        assert(all =~= b);
    } else if a[0] == "--server"@ {
        if a.len() > 1 {
            law_options_are_taken_in_order(
                a.skip(2),
                b,
                InvocationView { server: a[1], ..found },
            );
            assert(all.skip(2) =~= a.skip(2) + b);
        }
    } else {
        let next = if crate::text::begins_with(a[0], "--server="@) {
            InvocationView { server: a[0].skip("--server="@.len() as int), ..found }
        } else if a[0] == "--insecure"@ {
            InvocationView { insecure: true, ..found }
        } else {
            InvocationView { args: found.args.push(a[0]), ..found }
        };
        law_options_are_taken_in_order(a.skip(1), b, next);
        assert(all.skip(1) =~= a.skip(1) + b);
    }
}

/// Of two lists of arguments what is left follows each other, and the value of the later one counts
/// where it has one.
pub proof fn law_later_option_counts(a: Seq<Seq<char>>, b: Seq<Seq<char>>, flag: Seq<char>)
    ensures
        strip_flag(a, flag) matches Ok((kept, value)) ==> strip_flag(a + b, flag) == match strip_flag(
            b,
            flag,
        ) {
            Ok((more, Some(later))) => Ok::<(Seq<Seq<char>>, Option<Seq<char>>), Seq<char>>(
                (kept + more, Some(later)),
            ),
            Ok((more, None)) => Ok((kept + more, value)),
            Err(e) => Err(e),
        },
    decreases a.len(),
{
    let all = a + b;
    if a.len() == 0 {
        assert(all =~= b);
        if let Ok((more, _)) = strip_flag(b, flag) {
            assert(Seq::<Seq<char>>::empty() + more =~= more);
        }
    } else if a[0] == flag {
        if a.len() > 1 {
            law_later_option_counts(a.skip(2), b, flag);
            assert(all.skip(2) =~= a.skip(2) + b);
        }
    } else {
        law_later_option_counts(a.skip(1), b, flag);
        assert(all.skip(1) =~= a.skip(1) + b);
        if let (Ok((kept, _)), Ok((more, _))) = (
            strip_flag(a.skip(1), flag),
            strip_flag(b, flag),
        ) {
            assert(seq![a[0]] + (kept + more) =~= seq![a[0]] + kept + more);
        }
    }
}

/// The commands by their words: `file` and one of four, and what is said of any other.
pub proof fn law_commands_by_their_words(args: Seq<Seq<char>>)
    ensures
        named_command(args) is Ok <==> args.len() >= 2 && args[0] == "file"@ && (args[1]
            == "upload"@ || args[1] == "ls"@ || args[1] == "download"@ || args[1] == "pull"@),
        named_command(args) matches Ok(c) ==> match c {
            FileCommand::Upload => args[1] == "upload"@,
            FileCommand::Ls => args[1] == "ls"@,
            FileCommand::Download => args[1] == "download"@,
            FileCommand::Pull => args[1] == "pull"@,
        },
        named_command(args) matches Err(e) ==> e == if args.len() == 0 || args[0] != "file"@ {
            "未知命令,目前仅支持 file"@
        } else if args.len() == 1 {
            "缺少子命令(file upload / ls / download / pull)"@
        } else {
            "未知子命令 file "@ + args[1]
        },
{
}

/// The address that a listing is asked for at is that of the segment `file` and the segments of the
/// namespace that the one argument names, or of the root where there is none; two arguments are too
/// many. A pull asks for the same listing, with the option `-o` taken out, and puts the files where
/// that says, or into the current directory.
pub proof fn law_listing_and_pull_ask_for_one_namespace(
    server: Seq<char>,
    args: Seq<Seq<char>>,
    pos: Seq<Seq<char>>,
    out: Option<Seq<char>>,
)
    ensures
        args.len() > 1 ==> ls_url(server, args) == Err::<Seq<char>, Seq<char>>(
            "file ls 最多接受一个 NAMESPACE 参数"@,
        ),
        args.len() <= 1 ==> ({
            let segments = seq!["file"@] + (if args.len() == 1 {
                crate::namespace::ns_segments(args[0])
            } else {
                Seq::empty()
            });
            ls_url(server, args) == crate::url::url_result(
                crate::url::extended_url(server, segments),
            )
        }),
        strip_flag(args, "-o"@) == Ok::<(Seq<Seq<char>>, Option<Seq<char>>), Seq<char>>((pos, out))
            ==> if pos.len() > 1 {
            pull_request(server, args) == Err::<PullView, Seq<char>>(
                "file pull 最多接受一个 NAMESPACE 参数"@,
            )
        } else {
            pull_request(server, args) == match ls_url(server, pos) {
                Ok(url) => Ok::<PullView, Seq<char>>(
                    (PullView {
                        url,
                        dir: match out {
                            Some(dir) => dir,
                            None => seq!['.'],
                        },
                    }),
                ),
                Err(e) => Err(e),
            }
        },
        strip_flag(args, "-o"@) matches Err(e) ==> pull_request(server, args) == Err::<
            PullView,
            Seq<char>,
        >(e),
{
    reveal_strlit(".");
    assert("."@ =~= seq!['.']);
    assert(seq!["file"@] + Seq::<Seq<char>>::empty() =~= seq!["file"@]);
}

/// A download asks for the segment `file`, those of the namespace that the first argument names, and
/// the second argument, which is the name of the file; it is saved where the option `-o` says.
pub proof fn law_download_asks_for_the_named_file(
    server: Seq<char>,
    args: Seq<Seq<char>>,
    pos: Seq<Seq<char>>,
    out: Option<Seq<char>>,
)
    ensures
        strip_flag(args, "-o"@) == Ok::<(Seq<Seq<char>>, Option<Seq<char>>), Seq<char>>((pos, out))
            ==> if pos.len() < 2 {
            download_request(server, args) == Err::<DownloadView, Seq<char>>(
                "file download 需要 <NAMESPACE> <FILENAME> [-o <OUT>]"@,
            )
        } else {
            let segments = seq!["file"@] + crate::namespace::ns_segments(pos[0]) + seq![pos[1]];
            download_request(server, args) == match crate::url::url_result(
                crate::url::extended_url(server, segments),
            ) {
                Ok(url) => Ok::<DownloadView, Seq<char>>(
                    (DownloadView { url, filename: pos[1], out }),
                ),
                Err(e) => Err(e),
            }
        },
        strip_flag(args, "-o"@) matches Err(e) ==> download_request(server, args) == Err::<
            DownloadView,
            Seq<char>,
        >(e),
{
}

/// What an upload says of the namespace is an object with the one member `namespace`, an array of
/// its segments.
pub proof fn law_upload_names_the_segments(ns: Seq<char>)
    ensures
        namespace_json(ns) == JsonView::Object(
            map![
                "namespace"@ => JsonView::Array(
                    crate::namespace::ns_segments(ns).map_values(
                        |s: Seq<char>| JsonView::Text(s),
                    ),
                ),
            ],
        ),
{
}

/// Requests and options are seen whole: each part has its place in the view.
pub proof fn law_requests_are_seen_whole(i: Invocation, d: DownloadRequest, p: PullRequest)
    ensures
        i@.server == i.server@ && i@.insecure == i.insecure,
        i@.args.len() == i.args@.len() && forall|k: int|
            0 <= k < i.args@.len() ==> #[trigger] i@.args[k] == i.args@[k]@,
        d@.url == d.url@ && d@.filename == d.filename@,
        d.out matches Some(out) ==> d@.out == Some(out@),
        d.out is None ==> d@.out is None,
        p@.url == p.url@ && p@.dir == p.dir@,
{
}

} // verus!
