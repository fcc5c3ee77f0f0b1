//! Archives of files, and where their entries go.

use crate::text::{concat, show};
use std::io::Cursor;
use vstd::prelude::*;
use zip::ZipArchive;

verus! {

/// A zip archive that is read from `R`.
#[verifier::external_type_specification]
#[verifier::external_body]
#[verifier::reject_recursive_types(R)]
pub struct ExZipArchive<R>(zip::ZipArchive<R>);

/// Bytes in memory, read from the front.
#[verifier::external_type_specification]
#[verifier::external_body]
#[verifier::reject_recursive_types(T)]
pub struct ExCursor<T>(std::io::Cursor<T>);

/// What an archive holds under an entry: its name, and its bytes, or why these cannot be read.
pub struct EntryView {
    pub name: Seq<char>,
    pub bytes: Result<Seq<u8>, Seq<char>>,
}

/// The entries of an archive in order, each of them or why it cannot be opened.
pub uninterp spec fn archive_entries(archive: ZipArchive<Cursor<Vec<u8>>>) -> Seq<
    Result<EntryView, Seq<char>>,
>;

/// The entries of the archive that the bytes hold, or why they hold none.
pub uninterp spec fn zip_entries(bytes: Seq<u8>) -> Result<
    Seq<Result<EntryView, Seq<char>>>,
    Seq<char>,
>;

/// `ZipArchive::new` on bytes in memory: whether they are an archive, and its entries, depend on
/// the bytes alone.
#[verifier::external_body]
pub(crate) fn open_archive(bytes: Vec<u8>) -> (r: Result<ZipArchive<Cursor<Vec<u8>>>, String>)
    ensures
        match r {
            Ok(archive) => zip_entries(bytes@) == Ok::<
                Seq<Result<EntryView, Seq<char>>>,
                Seq<char>,
            >(archive_entries(archive)),
            Err(e) => zip_entries(bytes@) == Err::<
                Seq<Result<EntryView, Seq<char>>>,
                Seq<char>,
            >(e@),
        },
{
    match ZipArchive::new(Cursor::new(bytes)) {
        Ok(archive) => Ok(archive),
        Err(e) => Err(e.to_string()),
    }
}

/// `ZipArchive::len`: the number of entries.
#[verifier::external_body]
pub(crate) fn archive_len(archive: &ZipArchive<Cursor<Vec<u8>>>) -> (r: usize)
    ensures
        r == archive_entries(*archive).len(),
{
    archive.len()
}

/// What an archive says of an entry: its name, whether it is a directory, and the path below the
/// current directory that the name stands for, where it stands for one.
#[derive(Debug)]
pub struct ZipEntry {
    pub name: String,
    pub is_dir: bool,
    pub enclosed: Option<String>,
}

/// Whether a name is that of a directory.
pub open spec fn names_dir(name: Seq<char>) -> bool {
    name.len() > 0 && (name.last() == '/' || name.last() == '\\')
}

/// How many directories below the start the first `n` pieces of a path lead, `None` where one of
/// them leads above it.
pub open spec fn depth_after(pieces: Seq<Seq<char>>, n: int) -> Option<nat>
    decreases n,
{
    if n <= 0 {
        Some(0)
    } else {
        match depth_after(pieces, n - 1) {
            None => None,
            Some(depth) => {
                let piece = pieces[n - 1];
                if piece.len() == 0 || piece == "."@ {
                    Some(depth)
                } else if piece != ".."@ {
                    Some(depth + 1)
                } else if depth > 0 {
                    Some((depth - 1) as nat)
                } else {
                    None
                }
            },
        }
    }
}

/// Whether a name is a path that never leaves the directory where it starts: it does not begin
/// with a slash, no piece of it leads above the start, and it has no zero character.
pub open spec fn stays_below(name: Seq<char>) -> bool {
    let pieces = crate::namespace::split(name, '/');
    &&& !name.contains('\0')
    &&& !(name.len() > 0 && name[0] == '/')
    &&& depth_after(pieces, pieces.len() as int) is Some
}

/// A name with a slash for each backslash, as a machine reads it that separates by both.
pub open spec fn slashed(name: Seq<char>) -> Seq<char> {
    name.map_values(
        |c: char|
            if c == '\\' {
                '/'
            } else {
                c
            },
    )
}

/// Whether a name begins with a letter and a colon, which some machines read as a drive.
pub open spec fn drive(name: Seq<char>) -> bool {
    name.len() >= 2 && name[1] == ':' && ('A' <= name[0] <= 'Z' || 'a' <= name[0] <= 'z')
}

/// Whether a name may be found to be enclosed, or found not to be. Machines differ on backslashes
/// and drives alone: a name without them is enclosed exactly where it stays below; any name that
/// is enclosed stays below in one of the two readings of the backslash; and any that is not leads
/// out in one of them, or has a drive.
pub open spec fn may_enclose(name: Seq<char>, enclosed: bool) -> bool {
    &&& !name.contains('\\') && !drive(name) ==> enclosed == stays_below(name)
    &&& enclosed ==> stays_below(name) || stays_below(slashed(name))
    &&& !enclosed ==> !stays_below(name) || !stays_below(slashed(name)) || drive(name)
}

/// `ZipArchive::by_index`, and `name`, `is_dir` and `enclosed_name` of the entry: the name is that
/// of the entry at that index, a directory is told by the last character of its name, and the
/// enclosed path, where there is one, is the name. Whether there is one goes by the components of
/// the path; what holds of it on every machine is `may_enclose`.
#[verifier::external_body]
pub(crate) fn archive_entry(archive: &mut ZipArchive<Cursor<Vec<u8>>>, index: usize) -> (r: Result<
    ZipEntry,
    String,
>)
    requires
        index < archive_entries(*old(archive)).len(),
    ensures
        archive_entries(*final(archive)) == archive_entries(*old(archive)),
        match r {
            Ok(entry) => {
                &&& archive_entries(*old(archive))[index as int] matches Ok(e)
                &&& e.name == entry.name@
                &&& entry.is_dir == names_dir(entry.name@)
                &&& entry.enclosed matches Some(path) ==> path@ == entry.name@
                &&& may_enclose(entry.name@, entry.enclosed is Some)
            },
            Err(e) => archive_entries(*old(archive))[index as int] == Err::<EntryView, Seq<char>>(
                e@,
            ),
        },
{
    let entry = match archive.by_index(index) {
        Ok(entry) => entry,
        Err(e) => return Err(e.to_string()),
    };
    let enclosed = match entry.enclosed_name() {
        Some(path) => Some(path.display().to_string()),
        None => None,
    };
    Ok(ZipEntry { name: entry.name().to_string(), is_dir: entry.is_dir(), enclosed })
}

/// The bytes of an entry: all of them where `failure` is missing, else those that came before it.
#[derive(Debug)]
pub struct EntryData {
    pub bytes: Vec<u8>,
    pub failure: Option<String>,
}

/// The bytes of an entry, or why it cannot be opened or read.
pub open spec fn content(entry: Result<EntryView, Seq<char>>) -> Result<Seq<u8>, Seq<char>> {
    match entry {
        Ok(e) => e.bytes,
        Err(e) => Err(e),
    }
}

/// Whether `data` is what reading gives of an entry with that content. Of the bytes that came
/// before a failure nothing is said, since their number depends on how they are read.
pub open spec fn data_fits(content: Result<Seq<u8>, Seq<char>>, data: EntryData) -> bool {
    match data.failure {
        None => content == Ok::<Seq<u8>, Seq<char>>(data.bytes@),
        Some(e) => content == Err::<Seq<u8>, Seq<char>>(e@),
    }
}

/// `ZipArchive::by_index`, and `std::io::copy` of the entry into memory: the content of the entry
/// at that index, which depends on the bytes of the archive alone. How many bytes were copied
/// before a failure is left unsaid.
#[verifier::external_body]
pub(crate) fn copy_entry(archive: &mut ZipArchive<Cursor<Vec<u8>>>, index: usize) -> (r: EntryData)
    requires
        index < archive_entries(*old(archive)).len(),
    ensures
        archive_entries(*final(archive)) == archive_entries(*old(archive)),
        data_fits(content(archive_entries(*old(archive))[index as int]), r),
{
    let mut out = Cursor::new(Vec::new());
    let copied = match archive.by_index(index) {
        Ok(mut entry) => std::io::copy(&mut entry, &mut out).map_err(|e| e.to_string()),
        Err(e) => Err(e.to_string()),
    };
    EntryData { bytes: out.into_inner(), failure: copied.err() }
}

/// The content of the entry at `index`; nothing where the archive has no such entry.
pub fn read_entry(archive: &mut ZipArchive<Cursor<Vec<u8>>>, index: usize) -> (r: Option<EntryData>)
    ensures
        archive_entries(*final(archive)) == archive_entries(*old(archive)),
        match r {
            Some(data) => index < archive_entries(*old(archive)).len() && data_fits(
                content(archive_entries(*old(archive))[index as int]),
                data,
            ),
            None => index >= archive_entries(*old(archive)).len(),
        },
{
    if index < archive_len(archive) {
        Some(copy_entry(archive, index))
    } else {
        None
    }
}

/// What is done with an entry of an archive.
#[derive(Debug)]
pub enum PullStep {
    /// The name leads out of the directory: nothing is written.
    Skip(String),
    /// A directory is made.
    MakeDir(String),
    /// The entry at this index is written to this file.
    WriteFile(usize, String),
}

/// What is done with an entry of an archive, as a specification writes it.
pub enum StepView {
    Skip(Seq<char>),
    MakeDir(Seq<char>),
    WriteFile(int, Seq<char>),
}

impl View for PullStep {
    type V = StepView;

    open spec fn view(&self) -> StepView {
        match *self {
            PullStep::Skip(name) => StepView::Skip(name@),
            PullStep::MakeDir(path) => StepView::MakeDir(path@),
            PullStep::WriteFile(index, path) => StepView::WriteFile(index as int, path@),
        }
    }
}

/// What is done with the entry at `index`.
pub open spec fn entry_step(
    index: int,
    name: Seq<char>,
    is_dir: bool,
    enclosed: Option<Seq<char>>,
) -> StepView {
    match enclosed {
        None => StepView::Skip(name),
        Some(path) => if is_dir {
            StepView::MakeDir(path)
        } else {
            StepView::WriteFile(index, path)
        },
    }
}

/// What is done with the entry at `index`.
pub fn place_entry(index: usize, entry: ZipEntry) -> (r: PullStep)
    ensures
        r@ == entry_step(
            index as int,
            entry.name@,
            entry.is_dir,
            crate::text::option_text(entry.enclosed),
        ),
{
    match entry.enclosed {
        None => PullStep::Skip(entry.name),
        Some(path) => if entry.is_dir {
            PullStep::MakeDir(path)
        } else {
            PullStep::WriteFile(index, path)
        },
    }
}

/// Whether `step` is what may be done with the entry of that name at `index`: it is skipped where
/// the name may be found not to be enclosed, and it becomes a file or a directory of that name, by
/// its last character, where the name may be found to be enclosed.
pub open spec fn step_fits(index: int, name: Seq<char>, step: StepView) -> bool {
    ||| step == StepView::Skip(name) && may_enclose(name, false)
    ||| step == entry_step(index, name, names_dir(name), Some(name)) && may_enclose(name, true)
}

/// Whether the entry can be opened, and `step` is what may be done with it.
pub open spec fn entry_fits(
    index: int,
    entry: Result<EntryView, Seq<char>>,
    step: StepView,
) -> bool {
    match entry {
        Ok(e) => step_fits(index, e.name, step),
        Err(_) => false,
    }
}

/// Whether the steps are what may be done with the first of the entries, each of which can be
/// read.
pub open spec fn steps_fit(
    entries: Seq<Result<EntryView, Seq<char>>>,
    steps: Seq<PullStep>,
) -> bool {
    steps.len() <= entries.len() && forall|i: int|
        0 <= i < steps.len() ==> entry_fits(i, entries[i], (#[trigger] steps[i])@)
}

/// An archive that was read: what is done with its entries in order, up to the first that cannot
/// be opened, and what is said of that one.
#[derive(Debug)]
pub struct Unpacked {
    pub archive: ZipArchive<Cursor<Vec<u8>>>,
    pub steps: Vec<PullStep>,
    pub failure: Option<String>,
}

/// Whether an archive with these entries was read whole, or up to the first entry that cannot be
/// opened.
pub open spec fn unpacked_fits(entries: Seq<Result<EntryView, Seq<char>>>, u: Unpacked) -> bool {
    &&& archive_entries(u.archive) == entries
    &&& steps_fit(entries, u.steps@)
    &&& u.failure is None ==> u.steps@.len() == entries.len()
    &&& u.failure matches Some(m) ==> {
        &&& u.steps@.len() < entries.len()
        &&& entries[u.steps@.len() as int] is Err
        &&& m@ == "读取 zip 条目失败: "@ + entries[u.steps@.len() as int]->Err_0
    }
}

/// What is done with the entries of the archive that the bytes hold, or why they hold none.
pub fn unpack(bytes: Vec<u8>) -> (r: Result<Unpacked, String>)
    ensures
        match zip_entries(bytes@) {
            Err(e) => r matches Err(m) && m@ == e,
            Ok(entries) => r matches Ok(u) && unpacked_fits(entries, u),
        },
{
    let mut archive: ZipArchive<Cursor<Vec<u8>>> = match open_archive(bytes) {
        Ok(archive) => archive,
        Err(e) => return Err(e),
    };
    let ghost entries = archive_entries(archive);
    let n: usize = archive_len(&archive);
    let mut steps: Vec<PullStep> = Vec::new();
    for i in 0..n
        invariant
            n == entries.len(),
            archive_entries(archive) == entries,
            zip_entries(bytes@) == Ok::<Seq<Result<EntryView, Seq<char>>>, Seq<char>>(entries),
            steps@.len() == i,
            steps_fit(entries, steps@),
    {
        match archive_entry(&mut archive, i) {
            Ok(entry) => {
                let ghost name = entry.name@;
                let ghost enclosed = crate::text::option_text(entry.enclosed);
                let step: PullStep = place_entry(i, entry);
                assert(enclosed is Some ==> enclosed == Some(name));
                assert(entry_fits(i as int, entries[i as int], step@));
                steps.push(step);
            },
            Err(e) => {
                return Ok(
                    Unpacked {
                        archive,
                        steps,
                        failure: Some(concat("读取 zip 条目失败: ", e.as_str())),
                    },
                );
            },
        }
    }
    Ok(Unpacked { archive, steps, failure: None })
}

/// The number of the first `n` steps that write a file.
pub open spec fn files_written(steps: Seq<PullStep>, n: int) -> nat
    decreases n,
{
    if n <= 0 {
        0
    } else {
        files_written(steps, n - 1) + if steps[n - 1] is WriteFile {
            1nat
        } else {
            0
        }
    }
}

/// The line that says how many files the steps wrote, and where.
pub fn pull_summary(steps: &Vec<PullStep>, dir: &str) -> (r: String)
    ensures
        r@ == "已拉取 "@ + crate::text::decimal(files_written(steps@, steps@.len() as int))
            + " 个文件到 "@ + dir@,
{
    let mut count: usize = 0;
    for i in 0..steps.len()
        invariant
            count <= i,
            count == files_written(steps@, i as int),
    {
        if let PullStep::WriteFile(_, _) = &steps[i] {
            count = count + 1;
        }
    }
    let mut line: String = concat("已拉取 ", show(count as u64).as_str());
    line.append(" 个文件到 ");
    line.append(dir);
    line
}

/// Whether every machine finds a name to be enclosed.
pub open spec fn safe_everywhere(name: Seq<char>) -> bool {
    stays_below(name) && stays_below(slashed(name)) && !drive(name)
}

/// Whether every machine finds a name not to be enclosed.
pub open spec fn unsafe_everywhere(name: Seq<char>) -> bool {
    !stays_below(name) && !stays_below(slashed(name))
}

/// Nothing is written outside the directory into which an archive is unpacked: whatever is written
/// goes to the name of its entry, which stays below the directory, with the backslash as a
/// separator or as any other character; without a backslash there is only one reading. A name that
/// leads out in both readings is skipped.
pub proof fn law_nothing_is_written_outside(
    entries: Seq<Result<EntryView, Seq<char>>>,
    steps: Seq<PullStep>,
    i: int,
)
    requires
        steps_fit(entries, steps),
        0 <= i < steps.len(),
    ensures
        entries[i] is Ok,
        ({
            let name = entries[i]->Ok_0.name;
            &&& unsafe_everywhere(name) ==> steps[i]@ == StepView::Skip(name)
            &&& match steps[i]@ {
                StepView::Skip(skipped) => skipped == name && !safe_everywhere(name),
                StepView::MakeDir(path) => path == name && (stays_below(path) || stays_below(
                    slashed(path),
                )) && (!path.contains('\\') ==> stays_below(path)),
                StepView::WriteFile(index, path) => index == i && path == name && (stays_below(path)
                    || stays_below(slashed(path))) && (!path.contains('\\') ==> stays_below(path)),
            }
        }),
{
    assert(entry_fits(i, entries[i], steps[i]@));
    lemma_slashed_same(entries[i]->Ok_0.name);
}

/// A name without backslashes has one reading.
proof fn lemma_slashed_same(name: Seq<char>)
    ensures
        !name.contains('\\') ==> slashed(name) == name,
{
    if !name.contains('\\') {
        assert forall|i: int| 0 <= i < name.len() implies slashed(name)[i] == name[i] by {
            assert(name.contains(name[i]));
        }
        assert(slashed(name) =~= name);
    }
}

/// Whether every machine does the same with an entry.
pub open spec fn settled(entry: Result<EntryView, Seq<char>>) -> bool {
    match entry {
        Ok(e) => safe_everywhere(e.name) || unsafe_everywhere(e.name),
        Err(_) => false,
    }
}

/// Whether an entry is a file that every machine writes.
pub open spec fn safe_file(entry: Result<EntryView, Seq<char>>) -> bool {
    match entry {
        Ok(e) => safe_everywhere(e.name) && !names_dir(e.name),
        Err(_) => false,
    }
}

/// The number of files that every machine writes among the first `n` entries.
pub open spec fn safe_files(entries: Seq<Result<EntryView, Seq<char>>>, n: int) -> nat
    decreases n,
{
    if n <= 0 {
        0
    } else {
        safe_files(entries, n - 1) + if safe_file(entries[n - 1]) {
            1nat
        } else {
            0
        }
    }
}

/// Every safe file is written, to its own name and from its own entry, and counted, whatever the
/// other names are. Where every machine does the same with each entry, as it does with every name
/// that has neither a backslash nor a drive, no other file is counted.
pub proof fn law_every_safe_file_is_written(
    entries: Seq<Result<EntryView, Seq<char>>>,
    steps: Seq<PullStep>,
    n: int,
)
    requires
        steps_fit(entries, steps),
        0 <= n <= steps.len(),
    ensures
        forall|i: int|
            0 <= i < n && safe_file(#[trigger] entries[i]) ==> steps[i]@ == StepView::WriteFile(
                i,
                entries[i]->Ok_0.name,
            ),
        safe_files(entries, n) <= files_written(steps, n),
        (forall|i: int| 0 <= i < n ==> settled(#[trigger] entries[i])) ==> safe_files(entries, n)
            == files_written(steps, n),
        forall|i: int|
            0 <= i < n && !(#[trigger] entries[i])->Ok_0.name.contains('\\') && !drive(
                entries[i]->Ok_0.name,
            ) ==> settled(entries[i]),
    decreases n,
{
    if n > 0 {
        law_every_safe_file_is_written(entries, steps, n - 1);
        let (entry, step) = (entries[n - 1], steps[n - 1]);
        assert(entry_fits(n - 1, entry, step@));
        lemma_slashed_same(entry->Ok_0.name);
        assert(step is WriteFile <==> step@ is WriteFile);
    }
}

/// The files that are counted are the steps that write one.
pub proof fn law_each_written_file_counts_once(steps: Seq<PullStep>, n: int)
    requires
        0 <= n <= steps.len(),
    ensures
        files_written(steps, n) == steps.take(n).filter(|step: PullStep| step is WriteFile).len(),
    decreases n,
{
    reveal(Seq::filter);
    if n > 0 {
        law_each_written_file_counts_once(steps, n - 1);
        assert(steps.take(n).drop_last() =~= steps.take(n - 1));
    }
}

/// What is done with an entry goes by its own name: one that ends with a slash or a backslash is a
/// directory, any other a file, which is written from the entry at its own index; what is skipped
/// is named.
pub proof fn law_names_tell_files_from_directories(
    entries: Seq<Result<EntryView, Seq<char>>>,
    steps: Seq<PullStep>,
    i: int,
)
    requires
        steps_fit(entries, steps),
        0 <= i < steps.len(),
    ensures
        ({
            let name = entries[i]->Ok_0.name;
            let is_dir = name.len() > 0 && (name[name.len() - 1] == '/' || name[name.len() - 1]
                == '\\');
            match steps[i] {
                PullStep::Skip(skipped) => skipped@ == name,
                PullStep::MakeDir(path) => path@ == name && is_dir,
                PullStep::WriteFile(index, path) => path@ == name && !is_dir && index == i,
            }
        }),
{
    assert(entry_fits(i, entries[i], steps[i]@));
}

/// An archive is unpacked entry by entry: whole, or up to the first that cannot be opened, which is
/// then named with the reason. What it holds stays as it was.
pub proof fn law_unpacking_stops_at_the_first_fault(
    entries: Seq<Result<EntryView, Seq<char>>>,
    u: Unpacked,
)
    requires
        unpacked_fits(entries, u),
    ensures
        archive_entries(u.archive) == entries,
        u.steps@.len() <= entries.len(),
        forall|i: int| 0 <= i < u.steps@.len() ==> #[trigger] entries[i] is Ok,
        u.failure is None <==> u.steps@.len() == entries.len(),
        u.failure is None <==> (forall|i: int|
            0 <= i < entries.len() ==> #[trigger] entries[i] is Ok),
        u.failure matches Some(line) ==> {
            let k = u.steps@.len() as int;
            k < entries.len() && entries[k] is Err && line@ == "读取 zip 条目失败: "@
                + entries[k]->Err_0
        },
{
    assert forall|i: int| 0 <= i < u.steps@.len() implies #[trigger] entries[i] is Ok by {
        assert(entry_fits(i, entries[i], u.steps@[i]@));
    }
}

/// What is done with an entry that may be placed: nothing where it has no place, else what it is,
/// at that place.
pub proof fn law_entries_go_where_they_are_placed(
    index: int,
    name: Seq<char>,
    is_dir: bool,
    path: Seq<char>,
)
    ensures
        entry_step(index, name, is_dir, None) == StepView::Skip(name),
        entry_step(index, name, true, Some(path)) == StepView::MakeDir(path),
        entry_step(index, name, false, Some(path)) == StepView::WriteFile(index, path),
{
}

/// An entry gives its own bytes, all of them, or says why it does not.
pub proof fn law_read_bytes_are_those_of_the_entry(
    entry: Result<EntryView, Seq<char>>,
    data: EntryData,
)
    requires
        data_fits(content(entry), data),
    ensures
        data.failure is None ==> (entry matches Ok(e) && e.bytes == Ok::<Seq<u8>, Seq<char>>(
            data.bytes@,
        )),
        data.failure matches Some(why) ==> match entry {
            Ok(e) => e.bytes == Err::<Seq<u8>, Seq<char>>(why@),
            Err(e) => e == why@,
        },
{
}

/// A step is seen as it is.
pub proof fn law_steps_are_seen_whole(step: PullStep)
    ensures
        step matches PullStep::Skip(name) ==> step@ == StepView::Skip(name@),
        step matches PullStep::MakeDir(path) ==> step@ == StepView::MakeDir(path@),
        step matches PullStep::WriteFile(i, path) ==> step@ == StepView::WriteFile(i as int, path@),
{
}

} // verus!
