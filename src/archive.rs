use std::io::Read;
use vstd::prelude::*;

use crate::metadata::opt_view;
use crate::pages::contains_name;
use crate::text::{ends_with3, has_suffix3, str_eq};

verus! {

/// The two container formats of comic archives.
#[derive(Clone, Copy, Debug, PartialEq, Eq, Structural)]
pub enum ArchiveKind {
    Zip,
    Rar,
}

/// Failures of reading an archive.
#[derive(Clone, Copy, Debug, PartialEq, Eq, Structural)]
pub enum ArchiveError {
    /// The container cannot be opened or parsed.
    Unreadable,
    /// No entry has the requested name.
    EntryNotFound,
}

/// The container format that a file name's extension gives, if any.
pub open spec fn kind_of(name: Seq<char>) -> Option<ArchiveKind> {
    if ends_with3(name, 'c', 'b', 'r') {
        Some(ArchiveKind::Rar)
    } else if ends_with3(name, 'c', 'b', 'z') {
        Some(ArchiveKind::Zip)
    } else {
        None
    }
}

pub fn archive_kind(name: &str) -> (r: Option<ArchiveKind>)
    ensures
        r == kind_of(name@),
{
    if has_suffix3(name, 'c', 'b', 'r') {
        Some(ArchiveKind::Rar)
    } else if has_suffix3(name, 'c', 'b', 'z') {
        Some(ArchiveKind::Zip)
    } else {
        None
    }
}

/// The name of the embedded metadata entry.
pub open spec fn metadata_entry() -> Seq<char> {
    "ComicInfo.xml"@
}

/// Whether the entry names hold the metadata entry.
pub fn has_metadata_entry(entries: &Vec<String>) -> (r: bool)
    ensures
        r == contains_name(entries@, metadata_entry()),
{
    let mut i: usize = 0;
    while i < entries.len()
        invariant
            i <= entries@.len(),
            forall|j: int| 0 <= j < i ==> entries@[j]@ != metadata_entry(),
        decreases entries@.len() - i,
    {
        if str_eq(entries[i].as_str(), "ComicInfo.xml") {
            return true;
        }
        i = i + 1;
    }
    false
}

/// How many entries zip reads in an archive's bytes; none where they do not
/// parse as an archive.
pub uninterp spec fn zip_count_of(archive: Seq<u8>) -> Option<usize>;

/// The name of entry `index` that zip reads in an archive's bytes.
pub uninterp spec fn zip_name_of(archive: Seq<u8>, index: usize) -> Option<Seq<char>>;

/// The text of entry `index` that zip reads in an archive's bytes.
pub uninterp spec fn zip_text_of(archive: Seq<u8>, index: usize) -> Option<Seq<char>>;

/// The contents of the entry named `name` that zip reads in an archive's
/// bytes.
pub uninterp spec fn zip_data_of(archive: Seq<u8>, name: Seq<char>) -> Result<
    Seq<u8>,
    ArchiveError,
>;

/// Relies on zip::ZipArchive::new and ZipArchive::len: the number of entries
/// of the central directory, or none where the bytes do not parse.
#[verifier::external_body]
fn zip_count(archive: &Vec<u8>) -> (r: Option<usize>)
    ensures
        r == zip_count_of(archive@),
{
    match zip::ZipArchive::new(std::io::Cursor::new(archive.as_slice())) {
        Ok(a) => Some(a.len()),
        Err(_) => None,
    }
}

/// Relies on zip::ZipArchive::by_index_raw and ZipFile::name: the name of
/// entry `index`, or none where the archive or that entry cannot be read.
/// `by_index_raw` returns its failures as errors and does not decompress.
#[verifier::external_body]
fn zip_name_at(archive: &Vec<u8>, index: usize) -> (r: Option<String>)
    ensures
        opt_view(r) == zip_name_of(archive@, index),
{
    match zip::ZipArchive::new(std::io::Cursor::new(archive.as_slice())) {
        Ok(mut a) => match a.by_index_raw(index) {
            Ok(f) => Some(f.name().to_owned()),
            Err(_) => None,
        },
        Err(_) => None,
    }
}

/// Relies on zip::ZipArchive::by_index_decrypt, with an empty password that
/// zip discards for an unencrypted entry, and Read::read_to_string: the text
/// of entry `index`, or none where it cannot be read, is not UTF-8, or its
/// password does not match.
#[verifier::external_body]
fn zip_text_at(archive: &Vec<u8>, index: usize) -> (r: Option<String>)
    ensures
        opt_view(r) == zip_text_of(archive@, index),
{
    match zip::ZipArchive::new(std::io::Cursor::new(archive.as_slice())) {
        Ok(mut a) => match a.by_index_decrypt(index, b"") {
            Ok(Ok(mut f)) => {
                let mut s = String::new();
                match f.read_to_string(&mut s) {
                    Ok(_) => Some(s),
                    Err(_) => None,
                }
            },
            Ok(Err(_)) | Err(_) => None,
        },
        Err(_) => None,
    }
}

/// Relies on zip::ZipArchive::by_name_decrypt, with an empty password that
/// zip discards for an unencrypted entry, and Read::read_to_end: the bytes
/// of the entry named `name`; `EntryNotFound` where zip reports
/// `FileNotFound`, `Unreadable` on any other failure.
#[verifier::external_body]
fn zip_read_named(archive: &Vec<u8>, name: &str) -> (r: Result<Vec<u8>, ArchiveError>)
    ensures
        match r {
            Ok(v) => zip_data_of(archive@, name@) == Ok::<Seq<u8>, ArchiveError>(v@),
            Err(e) => zip_data_of(archive@, name@) == Err::<Seq<u8>, ArchiveError>(e),
        },
{
    match zip::ZipArchive::new(std::io::Cursor::new(archive.as_slice())) {
        Ok(mut a) => match a.by_name_decrypt(name, b"") {
            Ok(Ok(mut f)) => {
                let mut v = Vec::new();
                match f.read_to_end(&mut v) {
                    Ok(_) => Ok(v),
                    Err(_) => Err(ArchiveError::Unreadable),
                }
            },
            Err(zip::result::ZipError::FileNotFound) => Err(ArchiveError::EntryNotFound),
            Ok(Err(_)) | Err(_) => Err(ArchiveError::Unreadable),
        },
        Err(_) => Err(ArchiveError::Unreadable),
    }
}

/// The bytes of the entry named `name` of the zip archive `archive`.
pub fn read_zip_entry(archive: &Vec<u8>, name: &str) -> (r: Result<Vec<u8>, ArchiveError>)
    ensures
        match r {
            Ok(v) => zip_data_of(archive@, name@) == Ok::<Seq<u8>, ArchiveError>(v@),
            Err(e) => zip_data_of(archive@, name@) == Err::<Seq<u8>, ArchiveError>(e),
        },
{
    zip_read_named(archive, name)
}

/// What indexing reads from an archive: the text of its metadata entry, if
/// any, and its entry names in the archive's own order.
pub struct ArchiveListing {
    pub comic_info: Option<String>,
    pub entries: Vec<String>,
}

/// Every one of the first `n` entries has a name, and the metadata entry
/// has text.
pub open spec fn zip_readable(b: Seq<u8>, n: usize) -> bool {
    forall|i: usize|
        #![trigger zip_name_of(b, i)]
        i < n ==> zip_name_of(b, i) is Some && (zip_name_of(b, i) == Some(metadata_entry())
            ==> zip_text_of(b, i) is Some)
}

/// The text of the last metadata entry among the first `n`.
pub open spec fn zip_metadata(b: Seq<u8>, n: nat) -> Option<Seq<char>>
    decreases n,
{
    if n == 0 {
        None
    } else if zip_name_of(b, (n - 1) as usize) == Some(metadata_entry()) {
        zip_text_of(b, (n - 1) as usize)
    } else {
        zip_metadata(b, (n - 1) as nat)
    }
}

/// The entry names of a zip archive, in its directory order, with the text
/// of its metadata entry; an error where the archive or an entry that is
/// needed cannot be read.
pub fn list_zip(archive: &Vec<u8>) -> (r: Result<ArchiveListing, ArchiveError>)
    ensures
        r is Ok <==> (zip_count_of(archive@) matches Some(n) && zip_readable(archive@, n)),
        r is Err ==> r == Err::<ArchiveListing, ArchiveError>(ArchiveError::Unreadable),
        r is Ok ==> {
            let n = zip_count_of(archive@).unwrap();
            let l = r->Ok_0;
            &&& l.entries@.len() == n
            &&& forall|i: int| 0 <= i < n ==> Some(#[trigger] l.entries@[i]@) == zip_name_of(archive@, i as usize)
            &&& opt_view(l.comic_info) == zip_metadata(archive@, n as nat)
        },
{
    proof {
        reveal_strlit("ComicInfo.xml");
    }
    let n = match zip_count(archive) {
        Some(n) => n,
        None => {
            return Err(ArchiveError::Unreadable);
        },
    };
    let mut entries: Vec<String> = Vec::new();
    let mut comic_info: Option<String> = None;
    let mut i: usize = 0;
    while i < n
        invariant
            i <= n,
            zip_count_of(archive@) == Some(n),
            zip_readable(archive@, i),
            entries@.len() == i,
            forall|j: int| 0 <= j < i ==> Some(#[trigger] entries@[j]@) == zip_name_of(archive@, j as usize),
            opt_view(comic_info) == zip_metadata(archive@, i as nat),
        decreases n - i,
    {
        let name = match zip_name_at(archive, i) {
            Some(s) => s,
            None => {
                return Err(ArchiveError::Unreadable);
            },
        };
        if str_eq(name.as_str(), "ComicInfo.xml") {
            match zip_text_at(archive, i) {
                Some(t) => {
                    comic_info = Some(t);
                },
                None => {
                    return Err(ArchiveError::Unreadable);
                },
            }
        }
        entries.push(name);
        assert(zip_readable(archive@, (i + 1) as usize)) by {
            assert forall|k: usize|
                #![trigger zip_name_of(archive@, k)]
                k < i + 1 implies zip_name_of(archive@, k) is Some && (zip_name_of(archive@, k)
                == Some(metadata_entry()) ==> zip_text_of(archive@, k) is Some) by {
                if k < i {
                    assert(zip_name_of(archive@, k) is Some);
                }
            }
        }
        i = i + 1;
    }
    Ok(ArchiveListing { comic_info, entries })
}

} // verus!
