use vstd::prelude::*;

use crate::archive::{archive_kind, kind_of, ArchiveKind, ArchiveListing};
use crate::catalog::{distinct_names, path_absent, stale, upserted, StoreError, DB, MAX_ROWS};
use crate::metadata::{bare_info, info_from_steps, scan_texts, xml_steps_of, ComicInfo};
use crate::text::parse_u32;

verus! {

/// What an indexing pass does with one file.
#[derive(Clone, Copy, Debug, PartialEq, Eq, Structural)]
pub enum ScanDecision {
    /// Its row is as new as the file.
    UpToDate,
    /// Its extension names no archive format.
    Unsupported,
    /// It is read as an archive of this kind.
    Index(ArchiveKind),
}

/// Why one file could not be indexed.
#[derive(Clone, Copy, Debug, PartialEq, Eq, Structural)]
pub enum IndexError {
    /// Its metadata document's markup cannot be read.
    Metadata,
    /// The catalog refused the record.
    Store(StoreError),
}

/// The metadata document, if any, can be read.
pub open spec fn metadata_ok(doc: Option<String>) -> bool {
    !(doc matches Some(d) && scan_texts(xml_steps_of(d@)) is None)
}

/// `info` is the record of the file `filepath` with size `size`, modified
/// at `modified`, whose metadata document is `doc`.
pub open spec fn record_of(
    info: ComicInfo,
    filepath: Seq<char>,
    size: i32,
    modified: i64,
    doc: Option<String>,
) -> bool {
    &&& info.filepath@ == filepath
    &&& info.size == size
    &&& info.modified_at == modified
    &&& info.comic_info == doc
    &&& (doc is None ==> bare_info(info))
    &&& (doc matches Some(d) ==> info_from_steps(info, xml_steps_of(d@)))
}

impl DB {
    /// What a pass does with the file at `filepath`, named `file_name`, last
    /// modified at `modified`: nothing where its row is as new, nothing where
    /// it is no archive, else it is indexed.
    pub fn scan_decision(&self, filepath: &str, file_name: &str, modified: i64) -> (r:
        ScanDecision)
        requires
            self.wf(),
        ensures
            !stale(self.issue_rows(), filepath@, modified) ==> r == ScanDecision::UpToDate,
            stale(self.issue_rows(), filepath@, modified) ==> r == match kind_of(file_name@) {
                Some(k) => ScanDecision::Index(k),
                None => ScanDecision::Unsupported,
            },
    {
        if !self.should_update(filepath, modified) {
            return ScanDecision::UpToDate;
        }
        match archive_kind(file_name) {
            Some(k) => ScanDecision::Index(k),
            None => ScanDecision::Unsupported,
        }
    }

    /// Indexes the archive at `filepath` from what was read of it: its
    /// metadata is parsed and its record and entry names stored.
    pub fn index_archive(
        &mut self,
        filepath: String,
        size: i32,
        modified: i64,
        listing: ArchiveListing,
    ) -> (r: Result<i64, IndexError>)
        requires
            old(self).wf(),
        ensures
            final(self).wf(),
            r == Err::<i64, IndexError>(IndexError::Metadata) <==> (listing.comic_info matches Some(
                d,
            ) && scan_texts(xml_steps_of(d@)) is None),
            r is Err ==> *final(self) == *old(self),
            r is Ok ==> exists|info: ComicInfo|
                record_of(info, filepath@, size, modified, listing.comic_info) && upserted(
                    old(self).issue_rows(),
                    final(self).issue_rows(),
                    info,
                    listing.entries@,
                    r->Ok_0,
                ),
            r == Err::<i64, IndexError>(IndexError::Store(StoreError::DuplicateEntry)) <==> (
            metadata_ok(listing.comic_info) && !distinct_names(listing.entries@)),
            r == Err::<i64, IndexError>(IndexError::Store(StoreError::Full)) <==> (metadata_ok(
                listing.comic_info,
            ) && distinct_names(listing.entries@) && path_absent(old(self).issue_rows(), filepath@)
                && old(self).issue_rows().len() == MAX_ROWS),
            r is Err ==> r == Err::<i64, IndexError>(IndexError::Metadata) || r == Err::<
                i64,
                IndexError,
            >(IndexError::Store(StoreError::DuplicateEntry)) || r == Err::<i64, IndexError>(
                IndexError::Store(StoreError::Full),
            ),
            final(self).marks() == old(self).marks(),
            final(self).user_rows() == old(self).user_rows(),
    {
        let ghost fp = filepath@;
        let ghost doc = listing.comic_info;
        let ArchiveListing { comic_info, entries } = listing;
        let info = match ComicInfo::new(filepath, size, modified, comic_info) {
            Ok(info) => info,
            Err(_) => {
                return Err(IndexError::Metadata);
            },
        };
        match self.store_comic(&info, &entries) {
            Ok(id) => {
                assert(record_of(info, fp, size, modified, doc));
                Ok(id)
            },
            Err(e) => Err(IndexError::Store(e)),
        }
    }
}

/// Whether a book that another reader tracked is read: its last page read
/// is at most two before its last page. Counts that do not parse read as
/// the largest count and as page 0.
pub open spec fn book_read(page_count: Option<Seq<char>>, last_read: Option<Seq<char>>) -> bool {
    match (page_count, last_read) {
        (Some(p), Some(l)) => {
            let pages: int = match crate::text::u32_of(p) {
                Some(v) => v as int,
                None => u32::MAX as int,
            };
            let last: int = match crate::text::u32_of(l) {
                Some(v) => v as int,
                None => 0,
            };
            let limit: int = if pages >= 2 {
                pages - 2
            } else {
                0
            };
            limit <= last
        },
        _ => false,
    }
}

/// Whether a book with `page_count` pages, read up to page `last_read`, is
/// read; a book of fewer than two pages counts as read from its first page.
pub fn book_is_read(page_count: Option<&str>, last_read: Option<&str>) -> (r: bool)
    ensures
        r == book_read(
            match page_count {
                Some(p) => Some(p@),
                None => None,
            },
            match last_read {
                Some(l) => Some(l@),
                None => None,
            },
        ),
{
    match (page_count, last_read) {
        (Some(p), Some(l)) => {
            let pages = match parse_u32(p) {
                Some(v) => v,
                None => u32::MAX,
            };
            let last = match parse_u32(l) {
                Some(v) => v,
                None => 0,
            };
            let limit = if pages >= 2 {
                pages - 2
            } else {
                0
            };
            limit <= last
        },
        _ => false,
    }
}

} // verus!
