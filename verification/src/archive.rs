use vstd::prelude::*;
use vstd::string::StrSliceExecFns;

use std::io::Cursor;
use std::io::Read;
use zip::ZipArchive;

use crate::init_from_archive_state::{InitFromArchiveContent, InitFromArchiveState, archive_after};
use crate::paths::{count_char, last_index_of_char};

verus! {

/// `std::io::Cursor`: a reader over bytes in memory.
#[verifier::external_type_specification]
#[verifier::external_body]
#[verifier::reject_recursive_types(T)]
pub struct ExCursor<T>(Cursor<T>);

/// `zip::ZipArchive`: a ZIP archive being read.
#[verifier::external_type_specification]
#[verifier::external_body]
#[verifier::reject_recursive_types(R)]
pub struct ExZipArchive<R>(ZipArchive<R>);

/// An entry of a ZIP archive: its name and its uncompressed content, each
/// absent when it cannot be decoded.
pub struct ZipEntryView {
    pub name: Option<Seq<char>>,
    pub content: Option<Seq<u8>>,
}

/// The bytes form a ZIP archive that `zip::ZipArchive::new` accepts.
pub uninterp spec fn zip_opens(bytes: Seq<u8>) -> bool;

/// The entries that the archive held in the bytes has, in the order of its
/// central directory.
pub uninterp spec fn archive_entries(bytes: Seq<u8>) -> Seq<ZipEntryView>;

/// The entries of an open archive, in the order of its central directory.
pub uninterp spec fn zip_entries(archive: ZipArchive<Cursor<Vec<u8>>>) -> Seq<ZipEntryView>;

/// `zip::ZipArchive::new` over the bytes: an archive exactly when the bytes
/// hold one, whose entries are those the bytes describe.
#[verifier::external_body]
fn zip_open(content: Vec<u8>) -> (r: Option<ZipArchive<Cursor<Vec<u8>>>>)
    ensures
        r is Some <==> zip_opens(content@),
        r matches Some(a) ==> zip_entries(a) == archive_entries(content@),
{
    ZipArchive::new(Cursor::new(content)).ok()
}

/// `zip::ZipArchive::len`: the number of entries.
#[verifier::external_body]
fn zip_len(archive: &ZipArchive<Cursor<Vec<u8>>>) -> (r: usize)
    ensures
        r == zip_entries(*archive).len(),
{
    archive.len()
}

/// `zip::ZipArchive::name_for_index`: the decoded name of entry `i`.
#[verifier::external_body]
fn zip_name_at(archive: &ZipArchive<Cursor<Vec<u8>>>, i: usize) -> (r: Option<String>)
    requires
        i < zip_entries(*archive).len(),
    ensures
        match r {
            Some(n) => zip_entries(*archive)[i as int].name == Some(n@),
            None => zip_entries(*archive)[i as int].name is None,
        },
{
    match archive.name_for_index(i) {
        Some(Ok(name)) => Some(name.to_string()),
        _ => None,
    }
}

/// `zip::ZipArchive::by_index`, then `Read::read_to_end` of the entry: its
/// uncompressed content. Reading leaves the entries as they are.
#[verifier::external_body]
fn zip_read_at(archive: &mut ZipArchive<Cursor<Vec<u8>>>, i: usize) -> (r: Option<Vec<u8>>)
    requires
        i < zip_entries(*old(archive)).len(),
    ensures
        zip_entries(*final(archive)) == zip_entries(*old(archive)),
        match r {
            Some(c) => zip_entries(*old(archive))[i as int].content == Some(c@),
            None => zip_entries(*old(archive))[i as int].content is None,
        },
{
    let mut file = archive.by_index(i).ok()?;
    let mut buf = Vec::new();
    file.read_to_end(&mut buf).ok()?;
    Some(buf)
}

/// The two parts of an archive entry name "{table}/{file}": present when the
/// name holds exactly one '/'.
pub open spec fn split_entry_name(name: Seq<char>) -> Option<(Seq<char>, Seq<char>)> {
    if count_char(name, '/') == 1 {
        let i = last_index_of_char(name, '/');
        Some((name.subrange(0, i), name.subrange(i + 1, name.len() as int)))
    } else {
        None
    }
}

proof fn lemma_last_index(s: Seq<char>, c: char)
    ensures
        -1 <= last_index_of_char(s, c) < s.len(),
        last_index_of_char(s, c) >= 0 ==> s[last_index_of_char(s, c)] == c,
        last_index_of_char(s, c) < 0 ==> count_char(s, c) == 0,
    decreases s.len(),
{
    if s.len() > 0 {
        lemma_last_index(s.drop_last(), c);
    }
}

/// Splits an archive entry name "{table}/{file}" at its one '/'.
pub fn split_entry_name_exec(name: &str) -> (r: Option<(String, String)>)
    ensures
        match r {
            Some((t, f)) => split_entry_name(name@) == Some((t@, f@)),
            None => split_entry_name(name@) is None,
        },
{
    let n = name.unicode_len();
    let mut amount: usize = 0;
    let mut last: usize = 0;
    let mut i: usize = 0;
    while i < n
        invariant
            n == name@.len(),
            i <= n,
            amount == count_char(name@.take(i as int), '/'),
            amount > 0 ==> last == last_index_of_char(name@.take(i as int), '/'),
            amount <= i,
        decreases n - i,
    {
        assert(name@.take(i + 1).drop_last() =~= name@.take(i as int));
        if name.get_char(i) == '/' {
            amount = amount + 1;
            last = i;
        } else {
            proof {
                lemma_last_index(name@.take(i as int), '/');
            }
        }
        i = i + 1;
    }
    assert(name@.take(n as int) =~= name@);
    if amount == 1 {
        proof {
            lemma_last_index(name@, '/');
        }
        let table_name = name.substring_char(0, last).to_owned();
        let file_name = name.substring_char(last + 1, n).to_owned();
        Some((table_name, file_name))
    } else {
        None
    }
}

/// Why an archive could not be taken in.
#[derive(Debug)]
pub enum ArchiveError {
    /// The bytes do not hold a ZIP archive.
    NotAnArchive,
    /// The name of the entry at this position cannot be decoded.
    UnreadableName { index: usize },
    /// The entry name is not of the form "{table}/{file}".
    NotATableFile { name: String },
    /// The content of the entry cannot be read.
    UnreadableContent { name: String },
}

/// The first `n` entries are taken in without error.
pub open spec fn entries_readable(entries: Seq<ZipEntryView>, n: int) -> bool {
    forall|i: int|
        0 <= i < n ==> {
            &&& (#[trigger] entries[i]).name matches Some(name)
            &&& split_entry_name(name) is Some
            &&& entries[i].content is Some
        }
}

/// The grouped contents after the first `n` entries are taken in, in order.
pub open spec fn grouped_entries(entries: Seq<ZipEntryView>, n: int) -> Map<
    Seq<char>,
    Seq<(Seq<char>, Seq<u8>)>,
>
    decreases n,
{
    if n <= 0 {
        Map::empty()
    } else {
        let e = entries[n - 1];
        let parts = split_entry_name(e.name.unwrap()).unwrap();
        archive_after(grouped_entries(entries, n - 1), parts.0, parts.1, e.content.unwrap())
    }
}

/// `e` is the error that entry `k` (that cannot be taken in) gives.
pub open spec fn entry_error(entry: ZipEntryView, k: int, e: ArchiveError) -> bool {
    match entry.name {
        None => e == ArchiveError::UnreadableName { index: k as usize },
        Some(name) => if split_entry_name(name) is None {
            e matches ArchiveError::NotATableFile { name: n } && n@ == name
        } else {
            entry.content is None && (e matches ArchiveError::UnreadableContent { name: n } && n@
                == name)
        },
    }
}

/// An entry of an archive as read: its name and its content, each absent
/// when it could not be decoded.
pub struct ArchiveEntry {
    pub name: Option<String>,
    pub content: Option<Vec<u8>>,
}

/// What is known of an entry read from an archive.
pub open spec fn entry_view(e: ArchiveEntry) -> ZipEntryView {
    ZipEntryView {
        name: match e.name {
            Some(n) => Some(n@),
            None => None,
        },
        content: match e.content {
            Some(c) => Some(c@),
            None => None,
        },
    }
}

/// What is known of the entries read from an archive, in order.
pub open spec fn entries_view(entries: Seq<ArchiveEntry>) -> Seq<ZipEntryView> {
    entries.map_values(|e: ArchiveEntry| entry_view(e))
}

/// Reads every entry of an open archive: its name and its content.
fn read_zip_entries(archive: &mut ZipArchive<Cursor<Vec<u8>>>) -> (r: Vec<ArchiveEntry>)
    ensures
        zip_entries(*final(archive)) == zip_entries(*old(archive)),
        entries_view(r@) == zip_entries(*old(archive)),
{
    let ghost entries = zip_entries(*archive);
    let n = zip_len(archive);
    let mut result: Vec<ArchiveEntry> = Vec::new();
    let mut i: usize = 0;
    while i < n
        invariant
            zip_entries(*archive) == entries,
            n == entries.len(),
            i <= n,
            entries_view(result@) == entries.take(i as int),
        decreases n - i,
    {
        let name = zip_name_at(archive, i);
        let content = zip_read_at(archive, i);
        let ghost before = result@;
        result.push(ArchiveEntry { name, content });
        assert(entries_view(result@) =~= entries_view(before).push(entries[i as int]));
        assert(entries.take(i + 1) =~= entries.take(i as int).push(entries[i as int]));
        i = i + 1;
    }
    assert(entries.take(n as int) =~= entries);
    result
}

/// The outcome of taking in the entries `entries` of an archive: every
/// entry grouped by table, or the error of the first entry that cannot be
/// taken in.
pub open spec fn entries_taken_in(entries: Seq<ZipEntryView>, r: Result<InitFromArchiveState, ArchiveError>) -> bool {
    match r {
        Ok(state) => {
            &&& entries_readable(entries, entries.len() as int)
            &&& state.wf()
            &&& state.to_load_view() == grouped_entries(entries, entries.len() as int)
            &&& state.loaded@ == Seq::<String>::empty()
        },
        Err(e) => exists|k: int|
            0 <= k < entries.len() && entries_readable(entries, k) && #[trigger] entry_error(
                entries[k],
                k,
                e,
            ),
    }
}

/// Takes in the entries "{table}/{file}" of an archive, grouped by table
/// in the order of the archive; fails at the first entry whose name or
/// content could not be read or whose name is not of that form.
pub fn take_in_entries(entries: Vec<ArchiveEntry>) -> (r: Result<InitFromArchiveState, ArchiveError>)
    ensures
        entries_taken_in(entries_view(entries@), r),
{
    let ghost all = entries_view(entries@);
    let ghost raw = entries@;
    let n = entries.len();
    let mut entries = entries;
    let mut state = InitFromArchiveState::new();
    let mut failure: Option<ArchiveError> = None;
    let mut i: usize = 0;
    while i < n
        invariant_except_break
            failure is None,
            entries@ == raw.subrange(i as int, n as int),
        invariant
            n == all.len(),
            n == raw.len(),
            all == entries_view(raw),
            i <= n,
            state.wf(),
            entries_readable(all, i as int),
            state.to_load_view() == grouped_entries(all, i as int),
            state.loaded@ == Seq::<String>::empty(),
        ensures
            i <= n,
            state.wf(),
            entries_readable(all, i as int),
            state.to_load_view() == grouped_entries(all, i as int),
            state.loaded@ == Seq::<String>::empty(),
            failure is None ==> i == n,
            failure matches Some(e) ==> i < n && entry_error(all[i as int], i as int, e),
        decreases n - i,
    {
        let entry = entries.remove(0);
        assert(entry == raw[i as int]);
        assert(entries@ =~= raw.subrange(i + 1, n as int));
        assert(entry_view(entry) == all[i as int]);
        let name = match entry.name {
            Some(name) => name,
            None => {
                failure = Some(ArchiveError::UnreadableName { index: i });
                break;
            },
        };
        let parts = split_entry_name_exec(name.as_str());
        let (table_name, file_name) = match parts {
            Some(p) => p,
            None => {
                failure = Some(ArchiveError::NotATableFile { name });
                break;
            },
        };
        let content = match entry.content {
            Some(c) => c,
            None => {
                failure = Some(ArchiveError::UnreadableContent { name });
                break;
            },
        };
        let ghost f = file_name@;
        let ghost t = table_name@;
        let ghost c = content@;
        state.add_content(table_name, InitFromArchiveContent { file_name, content });
        assert(entries_readable(all, i + 1));
        assert(state.to_load_view() == archive_after(grouped_entries(all, i as int), t, f, c));
        i = i + 1;
    }
    match failure {
        Some(e) => Err(e),
        None => Ok(state),
    }
}

/// Takes in a ZIP archive of table files "{table}/{file}" (see
/// `read_archive_entries`); fails when the bytes hold no archive.
pub fn read_archive(content: Vec<u8>) -> (r: Result<InitFromArchiveState, ArchiveError>)
    ensures
        !zip_opens(content@) ==> r matches Err(ArchiveError::NotAnArchive),
        zip_opens(content@) ==> entries_taken_in(archive_entries(content@), r),
        zip_opens(content@) && entries_readable(
            archive_entries(content@),
            archive_entries(content@).len() as int,
        ) ==> r is Ok,
{
    match zip_open(content) {
        Some(mut archive) => {
            let entries = read_zip_entries(&mut archive);
            take_in_entries(entries)
        },
        None => Err(ArchiveError::NotAnArchive),
    }
}

} // verus!
