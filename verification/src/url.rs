//! The addresses of files on the server.

use crate::text::{chars_of, concat};
use vstd::prelude::*;

verus! {

/// How many characters an address, and the segments that are added to it, may have together with
/// the separators. `Url` counts bytes in 32 bits and panics beyond them; this leaves room for what
/// encoding and escaping add.
pub const MAX_ADDRESS: usize = 16_777_216;

/// The number of characters of the texts together, with a separator after each.
pub open spec fn total_len(texts: Seq<Seq<char>>) -> nat
    decreases texts.len(),
{
    if texts.len() == 0 {
        0
    } else {
        total_len(texts.drop_last()) + texts.last().len() + 1
    }
}

/// Whether an address and the texts that are added to it are not too long.
pub open spec fn fits(server: Seq<char>, texts: Seq<Seq<char>>) -> bool {
    server.len() + total_len(texts) <= MAX_ADDRESS
}

/// Whether an address and the texts that are added to it are not too long.
pub fn fits_address(server: &str, texts: &Vec<String>) -> (r: bool)
    ensures
        r == fits(server@, crate::text::texts(texts@)),
{
    let ghost all = crate::text::texts(texts@);
    let mut total: usize = chars_of(server).len();
    if total > MAX_ADDRESS {
        return false;
    }
    assert(all.take(0) =~= Seq::empty());
    for i in 0..texts.len()
        invariant
            all == crate::text::texts(texts@),
            total == server@.len() + total_len(all.take(i as int)),
            total <= MAX_ADDRESS,
    {
        let n: usize = chars_of(texts[i].as_str()).len();
        assert(all.take(i + 1).drop_last() =~= all.take(i as int));
        if n >= MAX_ADDRESS - total {
            proof {
                lemma_total_len_take(all, i + 1);
            }
            return false;
        }
        total = total + n + 1;
    }
    assert(all.take(all.len() as int) =~= all);
    true
}

/// The first of the texts have together no more characters than all.
pub(crate) proof fn lemma_total_len_take(texts: Seq<Seq<char>>, n: int)
    requires
        0 <= n <= texts.len(),
    ensures
        total_len(texts.take(n)) <= total_len(texts),
    decreases texts.len(),
{
    if n == texts.len() {
        assert(texts.take(n) =~= texts);
    } else {
        lemma_total_len_take(texts.drop_last(), n);
        assert(texts.drop_last().take(n) =~= texts.take(n));
    }
}

/// The characters of two lists of texts add up.
pub(crate) proof fn lemma_total_len_add(a: Seq<Seq<char>>, b: Seq<Seq<char>>)
    ensures
        total_len(a + b) == total_len(a) + total_len(b),
    decreases b.len(),
{
    if b.len() == 0 {
        assert(a + b =~= a);
    } else {
        lemma_total_len_add(a, b.drop_last());
        assert((a + b).drop_last() =~= a + b.drop_last());
    }
}

/// The segments of a namespace take no more room than the path that names them.
pub(crate) proof fn lemma_ns_total_len(s: Seq<char>)
    ensures
        total_len(crate::namespace::ns_segments(s)) <= s.len() + 1,
{
    lemma_split_total_len(s, '/');
    lemma_non_empty_total_len(crate::namespace::split(s, '/'));
}

proof fn lemma_split_total_len(s: Seq<char>, sep: char)
    ensures
        crate::namespace::split(s, sep).len() > 0,
        total_len(crate::namespace::split(s, sep)) == s.len() + 1,
    decreases s.len(),
{
    if s.len() > 0 {
        lemma_split_total_len(s.drop_last(), sep);
        let front = crate::namespace::split(s.drop_last(), sep);
        let all = crate::namespace::split(s, sep);
        if s.last() == sep {
            assert(all.drop_last() =~= front);
        } else {
            assert(all.drop_last() =~= front.drop_last());
        }
    } else {
        reveal_with_fuel(total_len, 2);
        assert(crate::namespace::split(s, sep).drop_last() =~= Seq::empty());
    }
}

proof fn lemma_non_empty_total_len(pieces: Seq<Seq<char>>)
    ensures
        total_len(crate::namespace::non_empty(pieces)) <= total_len(pieces),
    decreases pieces.len(),
{
    if pieces.len() > 0 {
        let front = pieces.drop_last();
        lemma_non_empty_total_len(front);
        if pieces.last().len() > 0 {
            assert(crate::namespace::non_empty(pieces).drop_last()
                =~= crate::namespace::non_empty(front));
        }
    }
}

/// Why segments cannot be added to an address.
#[derive(Debug)]
pub enum UrlFault {
    /// The address is none, for this reason.
    Invalid(String),
    /// The address has no path to which segments could be added.
    NoPath,
}

/// Why segments cannot be added to an address, as a specification writes it.
pub enum UrlFaultView {
    Invalid(Seq<char>),
    NoPath,
}

impl View for UrlFault {
    type V = UrlFaultView;

    open spec fn view(&self) -> UrlFaultView {
        match *self {
            UrlFault::Invalid(e) => UrlFaultView::Invalid(e@),
            UrlFault::NoPath => UrlFaultView::NoPath,
        }
    }
}

/// The address that comes of adding segments to the path of the address `server`.
pub uninterp spec fn extended_url(server: Seq<char>, segments: Seq<Seq<char>>) -> Result<
    Seq<char>,
    UrlFaultView,
>;

/// `Url::parse`, and `PathSegmentsMut::extend` on the address that it gives: the new address, or
/// which of the two failed, depends on the texts alone.
#[verifier::external_body]
pub(crate) fn extend_url(server: &str, segments: &Vec<String>) -> (r: Result<String, UrlFault>)
    requires
        server@.len() + total_len(crate::text::texts(segments@)) <= MAX_ADDRESS + 5,
    ensures
        match r {
            Ok(u) => extended_url(server@, crate::text::texts(segments@)) == Ok::<
                Seq<char>,
                UrlFaultView,
            >(u@),
            Err(e) => extended_url(server@, crate::text::texts(segments@)) == Err::<
                Seq<char>,
                UrlFaultView,
            >(e@),
        },
{
    let mut url = match reqwest::Url::parse(server) {
        Ok(url) => url,
        Err(e) => return Err(UrlFault::Invalid(e.to_string())),
    };
    match url.path_segments_mut() {
        Ok(mut path) => { path.extend(segments); },
        Err(()) => return Err(UrlFault::NoPath),
    }
    Ok(url.to_string())
}

/// The segments of the address of a file, or of a directory where `filename` is missing: they
/// follow the namespace.
pub open spec fn file_path(ns: Seq<Seq<char>>, filename: Option<Seq<char>>) -> Seq<Seq<char>> {
    match filename {
        Some(name) => seq!["file"@] + ns + seq![name],
        None => seq!["file"@] + ns,
    }
}

/// The segments of the address of a file or directory.
pub fn file_segments(ns: &Vec<String>, filename: Option<&str>) -> (r: Vec<String>)
    ensures
        crate::text::texts(r@) == file_path(
            crate::text::texts(ns@),
            match filename {
                Some(name) => Some(name@),
                None => None,
            },
        ),
{
    let mut r: Vec<String> = Vec::new();
    r.push("file".to_owned());
    let ghost all = crate::text::texts(ns@);
    assert(crate::text::texts(r@) =~= seq!["file"@] + all.take(0));
    for i in 0..ns.len()
        invariant
            all == crate::text::texts(ns@),
            crate::text::texts(r@) =~= seq!["file"@] + all.take(i as int),
    {
        let ghost before = crate::text::texts(r@);
        r.push(ns[i].clone());
        assert(crate::text::texts(r@) =~= before.push(all[i as int]));
    }
    assert(all.take(all.len() as int) =~= all);
    if let Some(name) = filename {
        let ghost before = crate::text::texts(r@);
        r.push(name.to_owned());
        assert(crate::text::texts(r@) =~= before.push(name@));
    }
    assert(crate::text::texts(r@) =~= file_path(
        crate::text::texts(ns@),
        match filename {
            Some(name) => Some(name@),
            None => None,
        },
    ));
    r
}

/// What is said where an address cannot be made.
pub open spec fn url_message(e: UrlFaultView) -> Seq<char> {
    match e {
        UrlFaultView::Invalid(e) => "服务器地址无效: "@ + e,
        UrlFaultView::NoPath => "服务器地址不能带查询参数(query)"@,
    }
}

/// The address, or what is said where it cannot be made.
pub open spec fn url_result(made: Result<Seq<char>, UrlFaultView>) -> Result<Seq<char>, Seq<char>> {
    match made {
        Ok(u) => Ok(u),
        Err(e) => Err(url_message(e)),
    }
}

/// The address, or what is said where it cannot be made.
pub fn url_or_message(made: Result<String, UrlFault>) -> (r: Result<String, String>)
    ensures
        match made {
            Ok(u) => r == Ok::<String, String>(u),
            Err(e) => crate::text::result_view(r) == Err::<String, Seq<char>>(url_message(e@)),
        },
{
    match made {
        Ok(u) => Ok(u),
        Err(UrlFault::Invalid(e)) => Err(concat("服务器地址无效: ", e.as_str())),
        Err(UrlFault::NoPath) => Err("服务器地址不能带查询参数(query)".to_owned()),
    }
}

/// The address of a file on the server, or of a directory where `filename` is missing.
pub fn file_url(server: &str, ns: &Vec<String>, filename: Option<&str>) -> (r: Result<String, String>)
    requires
        fits(
            server@,
            crate::text::texts(ns@) + match filename {
                Some(name) => seq![name@],
                None => Seq::empty(),
            },
        ),
    ensures
        ({
            let path = file_path(
                crate::text::texts(ns@),
                match filename {
                    Some(name) => Some(name@),
                    None => None,
                },
            );
            match r {
                Ok(u) => url_result(extended_url(server@, path)) == Ok::<Seq<char>, Seq<char>>(u@),
                Err(e) => url_result(extended_url(server@, path)) == Err::<Seq<char>, Seq<char>>(
                    e@,
                ),
            }
        }),
{
    let segments: Vec<String> = file_segments(ns, filename);
    proof {
        let names = crate::text::texts(ns@);
        let last = match filename {
            Some(name) => seq![name@],
            None => Seq::<Seq<char>>::empty(),
        };
        reveal_with_fuel(total_len, 2);
        reveal_strlit("file");
        assert(seq!["file"@].drop_last() =~= Seq::empty());
        assert(crate::text::texts(segments@) =~= seq!["file"@] + (names + last));
        lemma_total_len_add(seq!["file"@], names + last);
    }
    url_or_message(extend_url(server, &segments))
}

/// The address of a file has the segment `file`, then those of the namespace in order, then the
/// name; that of a directory ends with the namespace.
pub proof fn law_addresses_follow_the_namespace(ns: Seq<Seq<char>>, name: Seq<char>)
    ensures
        ({
            let (dir, file) = (file_path(ns, None), file_path(ns, Some(name)));
            &&& dir.len() == ns.len() + 1
            &&& dir[0] == "file"@
            &&& forall|i: int| 0 <= i < ns.len() ==> dir[i + 1] == #[trigger] ns[i]
            &&& file == dir.push(name)
        }),
{
    assert(file_path(ns, Some(name)) =~= file_path(ns, None).push(name));
}

/// What is said where an address cannot be made: why it is none, or that it has no path.
pub proof fn law_address_faults_are_told_apart(u: Seq<char>, e: Seq<char>)
    ensures
        url_result(Ok::<Seq<char>, UrlFaultView>(u)) == Ok::<Seq<char>, Seq<char>>(u),
        url_result(Err::<Seq<char>, UrlFaultView>(UrlFaultView::Invalid(e))) == Err::<
            Seq<char>,
            Seq<char>,
        >("服务器地址无效: "@ + e),
        url_result(Err::<Seq<char>, UrlFaultView>(UrlFaultView::NoPath)) == Err::<
            Seq<char>,
            Seq<char>,
        >("服务器地址不能带查询参数(query)"@),
{
}

/// Addresses and texts fit where their characters, and one more for each of the texts, are no more
/// than 16 million.
pub proof fn law_room_for_addresses(server: Seq<char>, a: Seq<Seq<char>>, t: Seq<char>)
    ensures
        total_len(Seq::empty()) == 0,
        total_len(a.push(t)) == total_len(a) + t.len() + 1,
        fits(server, a) <==> server.len() + total_len(a) <= 16 * 1024 * 1024,
{
    assert(a.push(t).drop_last() =~= a);
}

/// A fault is seen as it is.
pub proof fn law_faults_are_seen_whole(fault: UrlFault)
    ensures
        fault matches UrlFault::Invalid(e) ==> fault@ == UrlFaultView::Invalid(e@),
        fault is NoPath ==> fault@ == UrlFaultView::NoPath,
{
}

} // verus!
