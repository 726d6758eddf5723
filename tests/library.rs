use std::io::Write;

use rust_opds::archive::{archive_kind, has_metadata_entry, list_zip, read_zip_entry, ArchiveError, ArchiveKind, ArchiveListing};
use rust_opds::catalog::{StoreError, DB};
use rust_opds::metadata::{ComicInfo, Date, MetadataError, XmlStep};
use rust_opds::opds::{LinkType, Rel};
use rust_opds::pages::{is_image_name, sorted_pages};
use rust_opds::query::{group_latest, order_by_release};
use rust_opds::request::{parse_auth_header, route, route_decoded, split_credentials, split_path, Route};
use rust_opds::scan::{book_is_read, IndexError, ScanDecision};
use rust_opds::text::{parse_i32, parse_i64, parse_u32, str_eq, str_lt};

fn names(v: &[&str]) -> Vec<String> {
    v.iter().map(|s| s.to_string()).collect()
}

fn record(path: &str, modified: i64) -> ComicInfo {
    ComicInfo::bare(path.to_string(), 100, modified, None)
}

fn zip_bytes(entries: &[(&str, &[u8])]) -> Vec<u8> {
    let mut w = zip::ZipWriter::new(std::io::Cursor::new(Vec::new()));
    for (name, data) in entries {
        w.start_file(*name, zip::write::FileOptions::default()).unwrap();
        w.write_all(data).unwrap();
    }
    w.finish().unwrap().into_inner()
}

const FOO_DOC: &str = "<?xml version=\"1.0\"?><ComicInfo><Series>Foo</Series><Year>2020</Year></ComicInfo>";

#[test]
fn index_five_page_archive_end_to_end() {
    let bytes = zip_bytes(&[
        ("page1.jpg", b"1"),
        ("page2.jpg", b"2"),
        ("page3.jpg", b"3"),
        ("page4.jpg", b"4"),
        ("page5.jpg", b"5"),
        ("ComicInfo.xml", FOO_DOC.as_bytes()),
    ]);
    let listing = list_zip(&bytes).unwrap();
    assert_eq!(listing.entries.len(), 6);
    assert_eq!(listing.comic_info.as_deref(), Some(FOO_DOC));
    let mut db = DB::new();
    let mtime = 1_600_000_000_000_000_000;
    let id = db.index_archive("/c/foo.cbz".to_string(), bytes.len() as i32, mtime, listing).unwrap();
    let info = db.get(id).unwrap();
    assert_eq!(info.series.as_deref(), Some("Foo"));
    assert_eq!(info.released_at, Some(Date { year: 2020, month: 1, day: 1 }));
    assert_eq!(db.get_unread_series(42), vec![("Foo".to_string(), mtime)]);
    let (_, entry, marked) = db.get_page(id, 0, 42, 5).unwrap();
    assert!(!marked);
    assert_eq!(entry, "page1.jpg");
    assert_eq!(read_zip_entry(&bytes, &entry).unwrap(), b"1".to_vec());
}

#[test]
fn user_created_then_checked() {
    let mut db = DB::new();
    let id = db.check_or_provision_user("alice", "pw1").unwrap();
    assert!(id != 0);
    assert_eq!(db.check_or_provision_user("alice", "wrong").unwrap(), 0);
    assert_eq!(db.check_or_provision_user("alice", "pw1").unwrap(), id);
    assert_eq!(db.get_user("alice"), Ok(id));
    assert_eq!(db.get_user("bob"), Err(StoreError::NotFound));
    assert_eq!(db.users()[0].ciphertext.len(), 32);
    assert_eq!(db.users()[0].salt.len(), 32);
}

#[test]
fn user_with_given_salt() {
    let mut db = DB::new();
    let salt = vec![7u8; 16];
    assert_eq!(db.provision_user_with_salt("carol", "secret", salt.clone()), Ok(1));
    assert_eq!(db.provision_user_with_salt("dave", "secret", salt.clone()), Ok(2));
    let a = db.users()[0].ciphertext.clone();
    let b = db.users()[1].ciphertext.clone();
    assert_eq!(a, b);
    assert_ne!(a, b"secret".to_vec());
    assert_eq!(db.provision_user_with_salt("carol", "secret", vec![1u8; 8]), Ok(1));
    assert_eq!(db.provision_user_with_salt("carol", "other", vec![1u8; 8]), Ok(0));
}

#[test]
fn page_sequence_is_sorted_images_only() {
    let mut db = DB::new();
    let id = db.store_comic(&record("/c/x.cbz", 1), &names(&["b.png", "a.jpg", "ComicInfo.xml"])).unwrap();
    assert_eq!(db.get_page(id, 0, 1, 10).unwrap().1, "a.jpg");
    assert_eq!(db.get_page(id, 1, 1, 10).unwrap().1, "b.png");
    assert_eq!(db.get_page(id, 2, 1, 10), Err(StoreError::NoSuchPage));
    assert_eq!(db.get_page(id, -1, 1, 10), Err(StoreError::NoSuchPage));
    assert_eq!(db.get_page(id + 1, 0, 1, 10), Err(StoreError::NoSuchPage));
    let ps = sorted_pages(&names(&["b.png", "a.jpg", "ComicInfo.xml", "c.gif", "notes.txt"]));
    assert_eq!(ps, names(&["a.jpg", "b.png", "c.gif"]));
}

#[test]
fn upsert_keeps_one_row_with_latest_fields() {
    let mut db = DB::new();
    let first = db.store_comic(&record("/c/a.cbz", 1), &names(&["1.jpg"])).unwrap();
    let mut second = record("/c/a.cbz", 2);
    second.title = Some("New".to_string());
    let again = db.store_comic(&second, &names(&["1.jpg", "2.jpg"])).unwrap();
    assert_eq!(first, again);
    assert_eq!(db.get_all().len(), 1);
    let got = db.get(first).unwrap();
    assert_eq!(got.title.as_deref(), Some("New"));
    assert_eq!(got.modified_at, 2);
    let other = db.store_comic(&record("/c/b.cbz", 1), &names(&[])).unwrap();
    assert_eq!(other, 2);
    assert_eq!(db.get(3).err(), Some(StoreError::NotFound));
    assert_eq!(db.get(0).err(), Some(StoreError::NotFound));
}

#[test]
fn duplicate_entries_are_refused() {
    let mut db = DB::new();
    assert_eq!(db.store_comic(&record("/c/a.cbz", 1), &names(&["1.jpg", "1.jpg"])), Err(StoreError::DuplicateEntry));
    assert_eq!(db.get_all().len(), 0);
}

#[test]
fn reindex_with_fewer_pages_drops_stale_ones() {
    let mut db = DB::new();
    let id = db.store_comic(&record("/c/a.cbz", 1), &names(&["1.jpg", "2.jpg", "3.jpg", "4.jpg"])).unwrap();
    assert!(db.get_page(id, 3, 1, 1).is_ok());
    db.store_comic(&record("/c/a.cbz", 2), &names(&["1.jpg", "2.jpg"])).unwrap();
    assert_eq!(db.get_page(id, 2, 1, 1), Err(StoreError::NoSuchPage));
    assert_eq!(db.get_page(id, 3, 1, 1), Err(StoreError::NoSuchPage));
    assert_eq!(db.get_page(id, 1, 1, 1).unwrap().1, "2.jpg");
    assert_eq!(db.stored_pages("/c/a.cbz"), names(&["1.jpg", "2.jpg"]));
    assert_eq!(db.stored_pages("/c/b.cbz"), names(&[]));
}

#[test]
fn needs_reindex_after_upsert() {
    let mut db = DB::new();
    assert!(db.should_update("/c/a.cbz", 5));
    db.store_comic(&record("/c/a.cbz", 5), &names(&[])).unwrap();
    assert!(!db.should_update("/c/a.cbz", 5));
    assert!(!db.should_update("/c/a.cbz", 4));
    assert!(db.should_update("/c/a.cbz", 6));
    assert_eq!(db.scan_decision("/c/a.cbz", "a.cbz", 5), ScanDecision::UpToDate);
    assert_eq!(db.scan_decision("/c/a.cbz", "a.cbz", 6), ScanDecision::Index(ArchiveKind::Zip));
    assert_eq!(db.scan_decision("/c/b.cbr", "b.cbr", 1), ScanDecision::Index(ArchiveKind::Rar));
    assert_eq!(db.scan_decision("/c/n.txt", "n.txt", 1), ScanDecision::Unsupported);
}

#[test]
fn mark_read_hides_from_unread_of_that_user_only() {
    let mut db = DB::new();
    let a = db.store_comic(&record("/c/a.cbz", 1), &names(&[])).unwrap();
    let b = db.store_comic(&record("/c/b.cbz", 2), &names(&[])).unwrap();
    db.mark_read(a, 7, 100);
    let unread7: Vec<Option<i64>> = db.get_unread(7).iter().map(|i| i.id).collect();
    assert_eq!(unread7, vec![Some(b)]);
    assert_eq!(db.get_unread(8).len(), 2);
    assert!(db.has_read(7, a));
    assert!(!db.has_read(8, a));
    db.mark_read(a, 7, 200);
    assert_eq!(db.read_marks().len(), 1);
    assert_eq!(db.read_marks()[0].read_at, 200);
}

#[test]
fn last_pages_mark_the_issue_read() {
    let mut db = DB::new();
    let pages = names(&["1.jpg", "2.jpg", "3.jpg", "4.jpg", "5.jpg", "6.jpg"]);
    let id = db.store_comic(&record("/c/a.cbz", 1), &pages).unwrap();
    db.get_page(id, 2, 3, 50).unwrap();
    assert!(!db.has_read(3, id));
    db.get_page(id, 3, 3, 50).unwrap();
    assert!(!db.has_read(3, id));
    assert!(db.get_page(id, 4, 3, 60).unwrap().2);
    assert!(db.has_read(3, id));
    db.get_page(id, 5, 4, 70).unwrap();
    assert!(db.has_read(4, id));
    assert_eq!(db.read_marks()[0].read_at, 60);
}

#[test]
fn grouping_by_publisher_and_series() {
    let mut db = DB::new();
    let mut a = record("/c/a.cbz", 10);
    a.publisher = Some("Marvel".to_string());
    a.series = Some("X".to_string());
    let mut b = record("/c/b.cbz", 30);
    b.publisher = Some("Marvel".to_string());
    b.series = Some("Y".to_string());
    let mut c = record("/c/c.cbz", 20);
    c.publisher = Some("DC".to_string());
    let d = record("/c/d.cbz", 5);
    for r in [&a, &b, &c, &d] {
        db.store_comic(r, &names(&[])).unwrap();
    }
    assert_eq!(
        db.get_publishers(),
        vec![("DC".to_string(), 20), ("Marvel".to_string(), 30), ("None".to_string(), 5)]
    );
    assert_eq!(db.get_series_for_publisher("Marvel"), vec![("X".to_string(), 10), ("Y".to_string(), 30)]);
    assert_eq!(db.get_series_for_publisher("None"), vec![]);
    let ids: Vec<Option<i64>> = db.get_for_publisher_series("DC", "None").iter().map(|i| i.id).collect();
    assert_eq!(ids, vec![Some(3)]);
    let ids: Vec<Option<i64>> = db.get_for_publisher_series("None", "None").iter().map(|i| i.id).collect();
    assert_eq!(ids, vec![Some(4)]);
    let ids: Vec<Option<i64>> = db.get_unread_for_series(1, "Y").iter().map(|i| i.id).collect();
    assert_eq!(ids, vec![Some(2)]);
    assert_eq!(
        db.get_unread_series(1),
        vec![("None".to_string(), 20), ("X".to_string(), 10), ("Y".to_string(), 30)]
    );
}

#[test]
fn recent_orders_by_release_date() {
    let mut db = DB::new();
    let mut a = record("/c/a.cbz", 1);
    a.released_at = Some(Date { year: 2019, month: 5, day: 1 });
    let b = record("/c/b.cbz", 1);
    let mut c = record("/c/c.cbz", 1);
    c.released_at = Some(Date { year: 2021, month: 1, day: 1 });
    c.series = Some("S".to_string());
    for r in [&a, &b, &c] {
        db.store_comic(r, &names(&[])).unwrap();
    }
    let ids: Vec<Option<i64>> = db.get_recent().iter().map(|i| i.id).collect();
    assert_eq!(ids, vec![Some(3), Some(1), Some(2)]);
    let ids: Vec<Option<i64>> = db.get_unread(9).iter().map(|i| i.id).collect();
    assert_eq!(ids, vec![Some(2), Some(1), Some(3)]);
    assert_eq!(
        db.get_recent_unread_series(9, Date { year: 2020, month: 6, day: 1 }),
        vec![("S".to_string(), 1)]
    );
    assert_eq!(db.get_recent_unread_series(9, Date { year: 2021, month: 1, day: 1 }), vec![]);
    let sorted = order_by_release(vec![record("/x", 1)], false);
    assert_eq!(sorted.len(), 1);
}

#[test]
fn group_latest_keeps_the_latest_time() {
    let items = vec![("b".to_string(), 3), ("a".to_string(), 5), ("b".to_string(), 9), ("a".to_string(), 1)];
    assert_eq!(group_latest(&items), vec![("a".to_string(), 5), ("b".to_string(), 9)]);
    assert_eq!(group_latest(&vec![]), vec![]);
}

#[test]
fn metadata_fields_are_parsed() {
    let doc = "<ComicInfo><Title>T</Title><Series>S</Series><Number>7</Number><Volume>2</Volume>\
        <Summary>Sum</Summary><Year>2001</Year><Month>2</Month><Day>28</Day><Writer>W</Writer>\
        <Penciller>P</Penciller><Inker>I</Inker><Colorist>C</Colorist><CoverArtist>CA</CoverArtist>\
        <Publisher>Pub</Publisher><PageCount>24</PageCount><Web>http://x</Web><Notes>n</Notes></ComicInfo>";
    let info = ComicInfo::new("/c/a.cbz".to_string(), 1, 2, Some(doc.to_string())).unwrap();
    assert_eq!(info.title.as_deref(), Some("T"));
    assert_eq!(info.series.as_deref(), Some("S"));
    assert_eq!(info.issue_number, Some(7));
    assert_eq!(info.volume, Some(2));
    assert_eq!(info.summary.as_deref(), Some("Sum"));
    assert_eq!(info.released_at, Some(Date { year: 2001, month: 2, day: 28 }));
    assert_eq!(info.writer.as_deref(), Some("W"));
    assert_eq!(info.penciller.as_deref(), Some("P"));
    assert_eq!(info.inker.as_deref(), Some("I"));
    assert_eq!(info.colorist.as_deref(), Some("C"));
    assert_eq!(info.cover_artist.as_deref(), Some("CA"));
    assert_eq!(info.publisher.as_deref(), Some("Pub"));
    assert_eq!(info.page_count, Some(24));
    assert_eq!(info.comicvine_url.as_deref(), Some("http://x"));
    assert_eq!(info.comic_info.as_deref(), Some(doc));
}

#[test]
fn metadata_bad_numbers_and_dates() {
    let doc = "<ComicInfo><Number>x7</Number><Year>2001</Year><Month>2</Month><Day>30</Day></ComicInfo>";
    let info = ComicInfo::new("/c/a.cbz".to_string(), 1, 2, Some(doc.to_string())).unwrap();
    assert_eq!(info.issue_number, None);
    assert_eq!(info.released_at, None);
    let doc = "<ComicInfo><Year>2000</Year><Month>2</Month><Day>29</Day></ComicInfo>";
    let info = ComicInfo::new("/c/a.cbz".to_string(), 1, 2, Some(doc.to_string())).unwrap();
    assert_eq!(info.released_at, Some(Date { year: 2000, month: 2, day: 29 }));
    let doc = "<ComicInfo><Month>3</Month></ComicInfo>";
    let info = ComicInfo::new("/c/a.cbz".to_string(), 1, 2, Some(doc.to_string())).unwrap();
    assert_eq!(info.released_at, None);
}

#[test]
fn malformed_metadata_is_an_error() {
    let r = ComicInfo::new("/c/a.cbz".to_string(), 1, 2, Some("<ComicInfo><Title>x</Series>".to_string()));
    assert_eq!(r.err(), Some(MetadataError));
    let mut db = DB::new();
    let listing = ArchiveListing { comic_info: Some("<a><b></a>".to_string()), entries: names(&["1.jpg"]) };
    assert_eq!(db.index_archive("/c/a.cbz".to_string(), 1, 1, listing), Err(IndexError::Metadata));
    assert_eq!(db.get_all().len(), 0);
    let listing = ArchiveListing { comic_info: None, entries: names(&["1.jpg", "1.jpg"]) };
    assert_eq!(
        db.index_archive("/c/a.cbz".to_string(), 1, 1, listing),
        Err(IndexError::Store(StoreError::DuplicateEntry))
    );
    let none = ComicInfo::new("/c/a.cbz".to_string(), 1, 2, None).unwrap();
    assert_eq!(none.title, None);
}

#[test]
fn metadata_from_steps_last_write_wins() {
    let mut info = ComicInfo::bare("/c/a.cbz".to_string(), 1, 2, None);
    let steps = vec![
        XmlStep::Text("One".to_string()),
        XmlStep::Close("Title".to_string()),
        XmlStep::Other,
        XmlStep::Text("Two".to_string()),
        XmlStep::Close("Title".to_string()),
        XmlStep::Text("1999".to_string()),
        XmlStep::Close("Year".to_string()),
    ];
    assert!(info.apply_steps(&steps));
    assert_eq!(info.title.as_deref(), Some("Two"));
    assert_eq!(info.released_at, Some(Date { year: 1999, month: 1, day: 1 }));
    let mut info = ComicInfo::bare("/c/a.cbz".to_string(), 1, 2, None);
    assert!(!info.apply_steps(&vec![XmlStep::Text("x".to_string()), XmlStep::Failed]));
}

#[test]
fn zip_listing_and_errors() {
    let bytes = zip_bytes(&[("b.png", b"B"), ("a.jpg", b"A")]);
    let listing = list_zip(&bytes).unwrap();
    assert_eq!(listing.entries, names(&["b.png", "a.jpg"]));
    assert_eq!(listing.comic_info, None);
    assert!(!has_metadata_entry(&listing.entries));
    assert!(has_metadata_entry(&names(&["x", "ComicInfo.xml"])));
    assert_eq!(read_zip_entry(&bytes, "a.jpg").unwrap(), b"A".to_vec());
    assert_eq!(read_zip_entry(&bytes, "zz.jpg"), Err(ArchiveError::EntryNotFound));
    assert_eq!(list_zip(&b"not a zip".to_vec()).err(), Some(ArchiveError::Unreadable));
    assert_eq!(read_zip_entry(&b"junk".to_vec(), "a.jpg"), Err(ArchiveError::Unreadable));
    assert_eq!(archive_kind("x.cbz"), Some(ArchiveKind::Zip));
    assert_eq!(archive_kind("x.cbr"), Some(ArchiveKind::Rar));
    assert_eq!(archive_kind("x.zip"), None);
}

#[test]
fn number_parsing_follows_str_parse() {
    assert_eq!(parse_i32("42"), Some(42));
    assert_eq!(parse_i32("+42"), Some(42));
    assert_eq!(parse_i32("-42"), Some(-42));
    assert_eq!(parse_i32("-2147483648"), Some(i32::MIN));
    assert_eq!(parse_i32("2147483648"), None);
    assert_eq!(parse_i32(""), None);
    assert_eq!(parse_i32("-"), None);
    assert_eq!(parse_i32(" 1"), None);
    assert_eq!(parse_u32("4294967295"), Some(u32::MAX));
    assert_eq!(parse_u32("4294967296"), None);
    assert_eq!(parse_u32("-0"), None);
    assert_eq!(parse_u32("+7"), Some(7));
    assert_eq!(parse_u32("99999999999999999999"), None);
}

#[test]
fn text_order_and_suffixes() {
    assert!(str_lt("a.jpg", "b.png"));
    assert!(!str_lt("b", "a"));
    assert!(str_lt("ab", "abc"));
    assert!(!str_lt("abc", "abc"));
    assert!(str_lt("Z", "a"));
    assert!(str_eq("abc", "abc"));
    assert!(!str_eq("abc", "abd"));
    assert!(is_image_name("x.jpg"));
    assert!(is_image_name("x.gif"));
    assert!(is_image_name("xpng"));
    assert!(!is_image_name("x.jpeg"));
    assert!(!is_image_name("pg"));
}

#[test]
fn imported_books_read_state() {
    assert!(book_is_read(Some("20"), Some("18")));
    assert!(!book_is_read(Some("20"), Some("17")));
    assert!(!book_is_read(Some("20"), None));
    assert!(!book_is_read(None, Some("20")));
    assert!(!book_is_read(Some("x"), Some("19")));
    assert!(book_is_read(Some("x"), Some("4294967293")));
    assert!(book_is_read(Some("1"), Some("5")));
    assert!(book_is_read(Some("0"), Some("0")));
}

#[test]
fn file_name_of_record() {
    assert_eq!(record("/c/dir/a b.cbz", 1).get_filename(), "a b.cbz");
    assert_eq!(record("x.cbr", 1).get_filename(), "x.cbr");
}

#[test]
fn feed_link_texts() {
    assert_eq!(Rel::RelSelf.as_str(), "self");
    assert_eq!(Rel::Stream.as_str(), "http://vaemendis.net/opds-pse/stream");
    assert_eq!(LinkType::Jpeg.as_str(), "image/jpeg");
    assert_eq!(LinkType::Navigation.as_str(), "application/atom+xml; profile=opds-catalog; kind=navigation");
}

#[test]
fn request_paths_route() {
    assert_eq!(split_path("/a//b"), names(&["", "a", "", "b"]));
    assert_eq!(split_path(""), names(&[""]));
    assert_eq!(route_decoded(""), Route::Navigation);
    assert_eq!(route_decoded("/"), Route::Navigation);
    assert_eq!(route_decoded("/all"), Route::All);
    assert_eq!(route_decoded("/recent"), Route::Recent);
    assert_eq!(route_decoded("/publishers"), Route::Publishers);
    assert_eq!(route_decoded("/publishers/DC"), Route::PublisherSeries("DC".to_string()));
    assert_eq!(route_decoded("/publishers/DC/None"), Route::PublisherIssues("DC".to_string(), "None".to_string()));
    assert_eq!(route_decoded("/unread"), Route::UnreadSeries);
    assert_eq!(route_decoded("/unread/Foo"), Route::UnreadIssues("Foo".to_string()));
    assert_eq!(route_decoded("/unread_all"), Route::UnreadAll);
    assert_eq!(route_decoded("/comic/12"), Route::Download(12));
    assert_eq!(route_decoded("/comic/x"), Route::NotFound);
    assert_eq!(route_decoded("/comic"), Route::NotFound);
    assert_eq!(route_decoded("/stream/3/-1"), Route::Stream(3, -1));
    assert_eq!(route_decoded("/stream/3"), Route::NotFound);
    assert_eq!(route_decoded("/other"), Route::NotFound);
    assert_eq!(route("/unread/Spider%20Man"), Route::UnreadIssues("Spider Man".to_string()));
    assert_eq!(parse_i64("-9223372036854775808"), Some(i64::MIN));
    assert_eq!(parse_i64("9223372036854775808"), None);
}

#[test]
fn basic_auth_header() {
    assert_eq!(parse_auth_header("Basic YWxpY2U6cHc6MQ=="), Some(("alice".to_string(), "pw:1".to_string())));
    assert_eq!(parse_auth_header("Basic YWxpY2U="), None);
    assert_eq!(parse_auth_header("Bearer YWxpY2U6cHc="), None);
    assert_eq!(parse_auth_header("Basic !!!"), None);
    assert_eq!(split_credentials("a:b"), Some(("a".to_string(), "b".to_string())));
    assert_eq!(split_credentials(":"), Some(("".to_string(), "".to_string())));
    assert_eq!(split_credentials("ab"), None);
}

fn zip_with_aes_marker(name: &str, data: &[u8]) -> Vec<u8> {
    let mut w = zip::ZipWriter::new(std::io::Cursor::new(Vec::new()));
    let options = zip::write::FileOptions::default().compression_method(zip::CompressionMethod::Stored);
    w.start_file_with_extra_data(name, options).unwrap();
    w.write_all(&[0x66, 0x66, 0x07, 0x00, 0x02, 0x00, 0x41, 0x45, 0x03, 0x00, 0x00]).unwrap();
    w.end_extra_data().unwrap();
    w.write_all(data).unwrap();
    let mut bytes = w.finish().unwrap().into_inner();
    let pattern = [0x66u8, 0x66, 0x07, 0x00, 0x02, 0x00, 0x41, 0x45];
    let mut i = 0;
    while i + pattern.len() <= bytes.len() {
        if bytes[i..i + pattern.len()] == pattern {
            bytes[i] = 0x01;
            bytes[i + 1] = 0x99;
        }
        i += 1;
    }
    bytes
}

#[test]
fn aes_marked_entry_without_encryption_is_unreadable() {
    let bytes = zip_with_aes_marker("ComicInfo.xml", b"<ComicInfo/>");
    assert_eq!(list_zip(&bytes).err(), Some(ArchiveError::Unreadable));
    assert_eq!(read_zip_entry(&bytes, "ComicInfo.xml"), Err(ArchiveError::Unreadable));
    let bytes = zip_with_aes_marker("a.jpg", b"A");
    assert_eq!(list_zip(&bytes).unwrap().entries, names(&["a.jpg"]));
}

#[test]
fn empty_element_has_empty_text() {
    let doc = "<ComicInfo><Series>Foo</Series><Title></Title></ComicInfo>";
    let info = ComicInfo::new("/c/a.cbz".to_string(), 1, 2, Some(doc.to_string())).unwrap();
    assert_eq!(info.series.as_deref(), Some("Foo"));
    assert_eq!(info.title.as_deref(), Some(""));
    let mut info = ComicInfo::bare("/c/a.cbz".to_string(), 1, 2, None);
    let steps = vec![
        XmlStep::Text("Foo".to_string()),
        XmlStep::Close("Series".to_string()),
        XmlStep::Close("Title".to_string()),
    ];
    assert!(info.apply_steps(&steps));
    assert_eq!(info.title.as_deref(), Some(""));
}
