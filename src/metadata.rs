use chrono::Datelike;
use vstd::prelude::*;

use crate::text::{i32_of, parse_i32, parse_u32, str_eq, u32_of};

verus! {

/// A calendar date of the proleptic Gregorian calendar.
#[derive(Clone, Copy, Debug, PartialEq, Eq, Structural)]
pub struct Date {
    pub year: i32,
    pub month: u32,
    pub day: u32,
}

pub open spec fn is_leap_year(y: int) -> bool {
    y % 4 == 0 && (y % 100 != 0 || y % 400 == 0)
}

pub open spec fn days_in_month(y: int, m: int) -> int {
    if m == 2 {
        if is_leap_year(y) {
            29
        } else {
            28
        }
    } else if m == 4 || m == 6 || m == 9 || m == 11 {
        30
    } else {
        31
    }
}

/// The dates that chrono's `NaiveDate` can represent.
pub open spec fn valid_date(y: i32, m: u32, d: u32) -> bool {
    -262143 <= y <= 262142 && 1 <= m <= 12 && 1 <= d <= days_in_month(y as int, m as int)
}

/// Relies on chrono::NaiveDate::from_ymd_opt: a date exactly when the year is
/// within chrono's range and the month and day exist in that year.
#[verifier::external_body]
fn date_from_ymd(year: i32, month: u32, day: u32) -> (r: Option<Date>)
    ensures
        r == (if valid_date(year, month, day) {
            Some(Date { year, month, day })
        } else {
            None
        }),
{
    match chrono::NaiveDate::from_ymd_opt(year, month, day) {
        Some(d) => Some(Date { year: d.year(), month: d.month(), day: d.day() }),
        None => None,
    }
}

/// One event of an XML reader, as far as metadata parsing cares.
#[derive(Debug)]
pub enum XmlStep {
    /// Character data.
    Text(String),
    /// A closing tag, by its local name.
    Close(String),
    /// Any other event.
    Other,
    /// The markup could not be read.
    Failed,
}

/// The events that xml-rs reads from a document.
pub uninterp spec fn xml_steps_of(doc: Seq<char>) -> Seq<XmlStep>;

/// Relies on xml::reader::EventReader: the events it reads from `doc`, which
/// depend on the text alone.
#[verifier::external_body]
fn xml_steps(doc: &str) -> (r: Vec<XmlStep>)
    ensures
        r@ == xml_steps_of(doc@),
{
    xml::reader::EventReader::from_str(doc).into_iter().map(
        |e| match e {
            Ok(xml::reader::XmlEvent::Characters(s)) => XmlStep::Text(s),
            Ok(xml::reader::XmlEvent::EndElement { name }) => XmlStep::Close(name.local_name),
            Ok(_) => XmlStep::Other,
            Err(_) => XmlStep::Failed,
        },
    ).collect()
}

/// Reading events in order: for each tag name, the text of the last element
/// of that name that closed, and the text read since the last closing tag;
/// `None` once the markup fails. An element with no text of its own gets
/// the empty text.
pub open spec fn scan_texts(steps: Seq<XmlStep>) -> Option<(Map<Seq<char>, Seq<char>>, Seq<char>)>
    decreases steps.len(),
{
    if steps.len() == 0 {
        Some((Map::empty(), Seq::empty()))
    } else {
        match scan_texts(steps.drop_last()) {
            None => None,
            Some((m, cur)) => match steps.last() {
                XmlStep::Text(s) => Some((m, s@)),
                XmlStep::Close(n) => Some((m.insert(n@, cur), Seq::empty())),
                XmlStep::Other => Some((m, cur)),
                XmlStep::Failed => None,
            },
        }
    }
}

pub open spec fn tag(m: Map<Seq<char>, Seq<char>>, k: Seq<char>) -> Option<Seq<char>> {
    if m.contains_key(k) {
        Some(m[k])
    } else {
        None
    }
}

pub open spec fn tag_i32(m: Map<Seq<char>, Seq<char>>, k: Seq<char>) -> Option<i32> {
    match tag(m, k) {
        Some(s) => i32_of(s),
        None => None,
    }
}

pub open spec fn tag_u32(m: Map<Seq<char>, Seq<char>>, k: Seq<char>) -> Option<u32> {
    match tag(m, k) {
        Some(s) => u32_of(s),
        None => None,
    }
}

pub open spec fn opt_view(o: Option<String>) -> Option<Seq<char>> {
    match o {
        Some(s) => Some(s@),
        None => None,
    }
}

/// The release date a metadata document gives: a year is needed, month and
/// day default to 1, and an impossible date gives none.
pub open spec fn release_date(m: Map<Seq<char>, Seq<char>>) -> Option<Date> {
    match tag_i32(m, "Year"@) {
        Some(y) => {
            let mo = match tag_u32(m, "Month"@) {
                Some(v) => v,
                None => 1,
            };
            let d = match tag_u32(m, "Day"@) {
                Some(v) => v,
                None => 1,
            };
            if valid_date(y, mo, d) {
                Some(Date { year: y, month: mo, day: d })
            } else {
                None
            }
        },
        None => None,
    }
}

/// The catalog record of one archive file.
#[derive(Debug)]
pub struct ComicInfo {
    /// The catalog's identifier, once stored.
    pub id: Option<i64>,
    /// The embedded metadata document, as text.
    pub comic_info: Option<String>,
    pub filepath: String,
    pub size: i32,
    /// Last modification, in nanoseconds since the Unix epoch.
    pub modified_at: i64,
    pub comicvine_id: Option<i64>,
    pub comicvine_url: Option<String>,
    pub series: Option<String>,
    pub issue_number: Option<i32>,
    pub volume: Option<i32>,
    pub title: Option<String>,
    pub summary: Option<String>,
    pub released_at: Option<Date>,
    pub writer: Option<String>,
    pub penciller: Option<String>,
    pub inker: Option<String>,
    pub colorist: Option<String>,
    pub cover_artist: Option<String>,
    pub publisher: Option<String>,
    pub page_count: Option<i32>,
}

/// The metadata fields of `info` are those that the texts `m` give.
pub open spec fn fields_match(info: ComicInfo, m: Map<Seq<char>, Seq<char>>) -> bool {
    &&& opt_view(info.title) == tag(m, "Title"@)
    &&& opt_view(info.series) == tag(m, "Series"@)
    &&& info.issue_number == tag_i32(m, "Number"@)
    &&& opt_view(info.comicvine_url) == tag(m, "Web"@)
    &&& info.volume == tag_i32(m, "Volume"@)
    &&& opt_view(info.summary) == tag(m, "Summary"@)
    &&& opt_view(info.writer) == tag(m, "Writer"@)
    &&& opt_view(info.penciller) == tag(m, "Penciller"@)
    &&& opt_view(info.inker) == tag(m, "Inker"@)
    &&& opt_view(info.colorist) == tag(m, "Colorist"@)
    &&& opt_view(info.cover_artist) == tag(m, "CoverArtist"@)
    &&& opt_view(info.publisher) == tag(m, "Publisher"@)
    &&& info.page_count == tag_i32(m, "PageCount"@)
}

/// `a` and `b` agree on everything that metadata parsing does not write.
pub open spec fn same_file_fields(a: ComicInfo, b: ComicInfo) -> bool {
    &&& a.id == b.id
    &&& a.comic_info == b.comic_info
    &&& a.filepath == b.filepath
    &&& a.size == b.size
    &&& a.modified_at == b.modified_at
    &&& a.comicvine_id == b.comicvine_id
    &&& a.released_at == b.released_at
}

/// The record of a file with no metadata.
pub open spec fn bare_info(info: ComicInfo) -> bool {
    &&& info.comicvine_id is None
    &&& info.comicvine_url is None
    &&& info.series is None
    &&& info.issue_number is None
    &&& info.volume is None
    &&& info.title is None
    &&& info.summary is None
    &&& info.released_at is None
    &&& info.writer is None
    &&& info.penciller is None
    &&& info.inker is None
    &&& info.colorist is None
    &&& info.cover_artist is None
    &&& info.publisher is None
    &&& info.page_count is None
}

/// The metadata of `info` is what the event sequence `steps` gives.
pub open spec fn info_from_steps(info: ComicInfo, steps: Seq<XmlStep>) -> bool {
    &&& scan_texts(steps) is Some
    &&& fields_match(info, scan_texts(steps).unwrap().0)
    &&& info.released_at == release_date(scan_texts(steps).unwrap().0)
    &&& info.comicvine_id is None
}

proof fn lemma_scan_fails_after(steps: Seq<XmlStep>, k: int)
    requires
        0 <= k <= steps.len(),
        scan_texts(steps.subrange(0, k)) is None,
    ensures
        scan_texts(steps) is None,
    decreases steps.len() - k,
{
    if k == steps.len() {
        assert(steps.subrange(0, k) =~= steps);
    } else {
        assert(steps.drop_last().subrange(0, k) =~= steps.subrange(0, k));
        lemma_scan_fails_after(steps.drop_last(), k);
    }
}

/// The day parts read so far.
struct DateParts {
    year: Option<i32>,
    month: Option<u32>,
    day: Option<u32>,
}

spec fn parts_match(p: DateParts, m: Map<Seq<char>, Seq<char>>) -> bool {
    &&& p.year == tag_i32(m, "Year"@)
    &&& p.month == tag_u32(m, "Month"@)
    &&& p.day == tag_u32(m, "Day"@)
}

#[verifier::rlimit(60)]
fn close_tag(
    info: &mut ComicInfo,
    parts: &mut DateParts,
    name: &str,
    cur: &String,
    Ghost(m): Ghost<Map<Seq<char>, Seq<char>>>,
)
    requires
        fields_match(*old(info), m),
        parts_match(*old(parts), m),
    ensures
        fields_match(*final(info), m.insert(name@, cur@)),
        parts_match(*final(parts), m.insert(name@, cur@)),
        same_file_fields(*old(info), *final(info)),
{
    proof {
        reveal_strlit("Title");
        assert("Title"@.len() == 5 && "Title"@[0] == 'T' && "Title"@[1] == 'i');
        reveal_strlit("Series");
        assert("Series"@.len() == 6 && "Series"@[0] == 'S' && "Series"@[1] == 'e');
        reveal_strlit("Number");
        assert("Number"@.len() == 6 && "Number"@[0] == 'N' && "Number"@[1] == 'u');
        reveal_strlit("Web");
        assert("Web"@.len() == 3 && "Web"@[0] == 'W' && "Web"@[1] == 'e');
        reveal_strlit("Volume");
        assert("Volume"@.len() == 6 && "Volume"@[0] == 'V' && "Volume"@[1] == 'o');
        reveal_strlit("Summary");
        assert("Summary"@.len() == 7 && "Summary"@[0] == 'S' && "Summary"@[1] == 'u');
        reveal_strlit("Year");
        assert("Year"@.len() == 4 && "Year"@[0] == 'Y' && "Year"@[1] == 'e');
        reveal_strlit("Month");
        assert("Month"@.len() == 5 && "Month"@[0] == 'M' && "Month"@[1] == 'o');
        reveal_strlit("Day");
        assert("Day"@.len() == 3 && "Day"@[0] == 'D' && "Day"@[1] == 'a');
        reveal_strlit("Writer");
        assert("Writer"@.len() == 6 && "Writer"@[0] == 'W' && "Writer"@[1] == 'r');
        reveal_strlit("Penciller");
        assert("Penciller"@.len() == 9 && "Penciller"@[0] == 'P' && "Penciller"@[1] == 'e');
        reveal_strlit("Inker");
        assert("Inker"@.len() == 5 && "Inker"@[0] == 'I' && "Inker"@[1] == 'n');
        reveal_strlit("Colorist");
        assert("Colorist"@.len() == 8 && "Colorist"@[0] == 'C' && "Colorist"@[1] == 'o');
        reveal_strlit("CoverArtist");
        assert("CoverArtist"@.len() == 11 && "CoverArtist"@[0] == 'C' && "CoverArtist"@[1] == 'o');
        reveal_strlit("Publisher");
        assert("Publisher"@.len() == 9 && "Publisher"@[0] == 'P' && "Publisher"@[1] == 'u');
        reveal_strlit("PageCount");
        assert("PageCount"@.len() == 9 && "PageCount"@[0] == 'P' && "PageCount"@[1] == 'a');
    }
    let c = cur.as_str();
    if str_eq(name, "Title") {
        info.title = Some(cur.clone());
    } else if str_eq(name, "Series") {
        info.series = Some(cur.clone());
    } else if str_eq(name, "Number") {
        info.issue_number = parse_i32(c);
    } else if str_eq(name, "Web") {
        info.comicvine_url = Some(cur.clone());
    } else if str_eq(name, "Volume") {
        info.volume = parse_i32(c);
    } else if str_eq(name, "Summary") {
        info.summary = Some(cur.clone());
    } else if str_eq(name, "Year") {
        parts.year = parse_i32(c);
    } else if str_eq(name, "Month") {
        parts.month = parse_u32(c);
    } else if str_eq(name, "Day") {
        parts.day = parse_u32(c);
    } else if str_eq(name, "Writer") {
        info.writer = Some(cur.clone());
    } else if str_eq(name, "Penciller") {
        info.penciller = Some(cur.clone());
    } else if str_eq(name, "Inker") {
        info.inker = Some(cur.clone());
    } else if str_eq(name, "Colorist") {
        info.colorist = Some(cur.clone());
    } else if str_eq(name, "CoverArtist") {
        info.cover_artist = Some(cur.clone());
    } else if str_eq(name, "Publisher") {
        info.publisher = Some(cur.clone());
    } else if str_eq(name, "PageCount") {
        info.page_count = parse_i32(c);
    }
}

impl ComicInfo {
    /// The record of a file before any metadata is read.
    pub fn bare(filepath: String, size: i32, modified_at: i64, comic_info: Option<String>) -> (r:
        ComicInfo)
        ensures
            r.id is None,
            r.comic_info == comic_info,
            r.filepath == filepath,
            r.size == size,
            r.modified_at == modified_at,
            bare_info(r),
    {
        ComicInfo {
            id: None,
            comic_info,
            filepath,
            size,
            modified_at,
            comicvine_id: None,
            comicvine_url: None,
            series: None,
            issue_number: None,
            volume: None,
            title: None,
            summary: None,
            released_at: None,
            writer: None,
            penciller: None,
            inker: None,
            colorist: None,
            cover_artist: None,
            publisher: None,
            page_count: None,
        }
    }

    /// Fills the metadata fields of a bare record from the events of its
    /// metadata document; `false`, with the record unusable, where the markup
    /// failed.
    pub fn apply_steps(&mut self, steps: &Vec<XmlStep>) -> (ok: bool)
        requires
            bare_info(*old(self)),
        ensures
            ok == (scan_texts(steps@) is Some),
            ok ==> info_from_steps(*final(self), steps@),
            final(self).id == old(self).id,
            final(self).comic_info == old(self).comic_info,
            final(self).filepath == old(self).filepath,
            final(self).size == old(self).size,
            final(self).modified_at == old(self).modified_at,
    {
        let mut parts = DateParts { year: None, month: None, day: None };
        let mut cur = String::new();
        let ghost mut m: Map<Seq<char>, Seq<char>> = Map::empty();
        let mut i: usize = 0;
        assert(steps@.subrange(0, 0) =~= Seq::<XmlStep>::empty());
        while i < steps.len()
            invariant
                i <= steps@.len(),
                scan_texts(steps@.subrange(0, i as int)) == Some((m, cur@)),
                fields_match(*self, m),
                parts_match(parts, m),
                self.id == old(self).id,
                self.comic_info == old(self).comic_info,
                self.filepath == old(self).filepath,
                self.size == old(self).size,
                self.modified_at == old(self).modified_at,
                self.comicvine_id is None,
            decreases steps@.len() - i,
        {
            let ghost pre = steps@.subrange(0, i as int);
            assert(steps@.subrange(0, i + 1).drop_last() =~= pre);
            match &steps[i] {
                XmlStep::Text(s) => {
                    cur = s.clone();
                },
                XmlStep::Close(n) => {
                    close_tag(self, &mut parts, n.as_str(), &cur, Ghost(m));
                    proof {
                        m = m.insert(n@, cur@);
                    }
                    cur = String::new();
                },
                XmlStep::Other => {},
                XmlStep::Failed => {
                    proof {
                        lemma_scan_fails_after(steps@, i as int + 1);
                    }
                    return false;
                },
            }
            i = i + 1;
        }
        assert(steps@.subrange(0, i as int) =~= steps@);
        self.released_at = match parts.year {
            Some(y) => {
                let mo = match parts.month {
                    Some(v) => v,
                    None => 1,
                };
                let d = match parts.day {
                    Some(v) => v,
                    None => 1,
                };
                date_from_ymd(y, mo, d)
            },
            None => None,
        };
        true
    }

    /// The record of the archive at `filepath`, its metadata read from the
    /// document `comic_info` where there is one; an error where the markup
    /// cannot be read.
    pub fn new(filepath: String, size: i32, modified_at: i64, comic_info: Option<String>) -> (r:
        Result<ComicInfo, MetadataError>)
        ensures
            comic_info is None ==> r is Ok && bare_info(r->Ok_0),
            comic_info is Some ==> (r is Ok <==> scan_texts(
                xml_steps_of(comic_info.unwrap()@),
            ) is Some),
            comic_info is Some && r is Ok ==> info_from_steps(
                r->Ok_0,
                xml_steps_of(comic_info.unwrap()@),
            ),
            r is Ok ==> {
                let info = r->Ok_0;
                &&& info.id is None
                &&& info.comic_info == comic_info
                &&& info.filepath == filepath
                &&& info.size == size
                &&& info.modified_at == modified_at
            },
    {
        let steps = match &comic_info {
            Some(doc) => Some(xml_steps(doc.as_str())),
            None => None,
        };
        let mut info = ComicInfo::bare(filepath, size, modified_at, comic_info);
        match steps {
            Some(steps) => {
                if info.apply_steps(&steps) {
                    Ok(info)
                } else {
                    Err(MetadataError)
                }
            },
            None => Ok(info),
        }
    }
}

/// The last component of a path, as std's `Path::file_name` reads it.
pub uninterp spec fn file_name_of(path: Seq<char>) -> Seq<char>;

/// Relies on std::path::Path::file_name: the path's last component, empty
/// where it has none; it depends on the text alone.
#[verifier::external_body]
fn path_file_name(path: &str) -> (r: String)
    ensures
        r@ == file_name_of(path@),
{
    std::path::Path::new(path).file_name().map(|s| s.to_string_lossy().into_owned()).unwrap_or_default()
}

impl ComicInfo {
    /// The file name of the archive, without its directories.
    pub fn get_filename(&self) -> (r: String)
        ensures
            r@ == file_name_of(self.filepath@),
    {
        path_file_name(self.filepath.as_str())
    }
}

/// The metadata document's markup cannot be read.
#[derive(Debug, Clone, Copy, PartialEq, Eq, Structural)]
pub struct MetadataError;

} // verus!
