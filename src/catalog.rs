use vstd::prelude::*;

use crate::metadata::{opt_view, ComicInfo};
use crate::pages::{
    image_names, lemma_page_order_counts, lemma_page_order_empty, page_rank, page_total,
    sorted_pages,
};

verus! {

/// How many rows a table can hold; identifiers start at 1.
pub const MAX_ROWS: usize = 0xffff_ffff;

/// A stored issue: its record (whose `id` is its row identifier), the entry
/// names of its archive, and the metadata document indexed for search.
pub struct IssueRecord {
    pub info: ComicInfo,
    pub pages: Vec<String>,
    pub document: Option<String>,
}

/// The mark that a user has read an issue, with when.
#[derive(Clone, Copy, Debug, PartialEq, Eq, Structural)]
pub struct ReadMark {
    pub user_id: i64,
    pub issue_id: i64,
    pub read_at: i64,
}

/// A user: name, salt, and the digest of the password with that salt.
pub struct UserRecord {
    pub username: String,
    pub salt: Vec<u8>,
    pub ciphertext: Vec<u8>,
}

/// Failures of the catalog store.
#[derive(Clone, Copy, Debug, PartialEq, Eq, Structural)]
pub enum StoreError {
    /// No row has that identifier.
    NotFound,
    /// An entry name occurs twice in one archive.
    DuplicateEntry,
    /// Every row identifier is taken.
    Full,
    /// No random salt could be had.
    NoRandomness,
    /// The issue has no page at that position.
    NoSuchPage,
    /// A salt too short or too long for the password hash.
    BadSalt,
}

/// The catalog: issues with their pages and search documents, read marks,
/// and users. Row identifiers are positions plus one.
pub struct DB {
    issues: Vec<IssueRecord>,
    reads: Vec<ReadMark>,
    users: Vec<UserRecord>,
}

/// No two strings of `s` hold the same characters.
pub open spec fn distinct_names(s: Seq<String>) -> bool {
    forall|a: int, b: int| 0 <= a < b < s.len() ==> s[a]@ != s[b]@
}

/// The catalog fields of `a` and `b` agree: all but the identifier and the
/// metadata document.
pub open spec fn same_catalog_fields(a: ComicInfo, b: ComicInfo) -> bool {
    &&& a.filepath@ == b.filepath@
    &&& a.size == b.size
    &&& a.modified_at == b.modified_at
    &&& a.comicvine_id == b.comicvine_id
    &&& opt_view(a.comicvine_url) == opt_view(b.comicvine_url)
    &&& opt_view(a.series) == opt_view(b.series)
    &&& a.issue_number == b.issue_number
    &&& a.volume == b.volume
    &&& opt_view(a.title) == opt_view(b.title)
    &&& opt_view(a.summary) == opt_view(b.summary)
    &&& a.released_at == b.released_at
    &&& opt_view(a.writer) == opt_view(b.writer)
    &&& opt_view(a.penciller) == opt_view(b.penciller)
    &&& opt_view(a.inker) == opt_view(b.inker)
    &&& opt_view(a.colorist) == opt_view(b.colorist)
    &&& opt_view(a.cover_artist) == opt_view(b.cover_artist)
    &&& opt_view(a.publisher) == opt_view(b.publisher)
    &&& a.page_count == b.page_count
}

/// When `u` last marked issue `i` read, if ever.
pub open spec fn mark_time(s: Seq<ReadMark>, u: i64, i: i64) -> Option<i64>
    decreases s.len(),
{
    if s.len() == 0 {
        None
    } else if s.last().user_id == u && s.last().issue_id == i {
        Some(s.last().read_at)
    } else {
        mark_time(s.drop_last(), u, i)
    }
}

/// The row of `rows` whose file is `fp`, if any.
pub open spec fn has_path(rows: Seq<IssueRecord>, fp: Seq<char>, k: int) -> bool {
    0 <= k < rows.len() && rows[k].info.filepath@ == fp
}

pub open spec fn path_absent(rows: Seq<IssueRecord>, fp: Seq<char>) -> bool {
    forall|k: int| 0 <= k < rows.len() ==> rows[k].info.filepath@ != fp
}

/// `new` is `old` after the record `info` with entries `entries` was
/// written under identifier `id`: the row of that file is overwritten, or a
/// row is added where there was none.
pub open spec fn upserted(
    old: Seq<IssueRecord>,
    new: Seq<IssueRecord>,
    info: ComicInfo,
    entries: Seq<String>,
    id: i64,
) -> bool {
    let k = id - 1;
    &&& 0 <= k <= old.len()
    &&& (forall|i: int| has_path(old, info.filepath@, i) ==> k == i)
    &&& (path_absent(old, info.filepath@) ==> k == old.len())
    &&& new.len() == (if k < old.len() {
        old.len()
    } else {
        old.len() + 1
    })
    &&& forall|i: int| 0 <= i < old.len() && i != k ==> new[i] == old[i]
    &&& same_catalog_fields(new[k].info, info)
    &&& new[k].info.id == Some(id)
    &&& new[k].info.comic_info is None
    &&& new[k].pages@ == entries
    &&& new[k].document == (if info.comic_info is Some {
        info.comic_info
    } else if k < old.len() {
        old[k].document
    } else {
        None
    })
}

/// Whether a file seen with modification time `t` must be indexed again:
/// it has no row, or its row is older.
pub open spec fn stale(rows: Seq<IssueRecord>, fp: Seq<char>, t: i64) -> bool {
    forall|k: int| has_path(rows, fp, k) ==> rows[k].info.modified_at < t
}

/// The outcome of asking for page `page_id` of issue `issue_id`: the file and
/// the entry of the page with `page_id` image names before it, and whether
/// it is one of the last two pages; or no such page.
pub open spec fn page_outcome(
    rows: Seq<IssueRecord>,
    issue_id: i64,
    page_id: i32,
    r: Result<(String, String, bool), StoreError>,
) -> bool {
    let k = issue_id - 1;
    let names = rows[k].pages@;
    &&& r is Ok <==> (1 <= issue_id <= rows.len() && 0 <= page_id < page_total(names))
    &&& r is Err ==> r == Err::<(String, String, bool), StoreError>(StoreError::NoSuchPage)
    &&& r is Ok ==> {
        let (fp, entry, marked) = r->Ok_0;
        &&& fp@ == rows[k].info.filepath@
        &&& marked == (page_id + 3 > page_total(names))
        &&& image_names(names).contains(entry@)
        &&& page_rank(names, entry@) == page_id
    }
}

/// Whether serving page `page_id` marks the issue read: one of its last two
/// pages was served.
pub open spec fn completes_issue(
    rows: Seq<IssueRecord>,
    issue_id: i64,
    page_id: i32,
    r: Result<(String, String, bool), StoreError>,
) -> bool {
    r is Ok && page_id + 3 > page_total(rows[issue_id - 1].pages@)
}

/// The Argon2i digest, with argon2rs's default parameters, of a password
/// and a salt.
pub uninterp spec fn argon2i_digest(password: Seq<char>, salt: Seq<u8>) -> Seq<u8>;

/// Relies on argon2rs::Argon2::hash with the default Argon2i parameters: a
/// 32-byte digest that depends on the password and the salt alone. It
/// asserts a salt of at least 8 bytes and lengths that fit in 32 bits.
#[verifier::external_body]
fn argon2i_hash(password: &str, salt: &Vec<u8>) -> (r: Vec<u8>)
    requires
        8 <= salt@.len() <= 0xffff_ffff,
        password@.len() <= 0x3fff_ffff,
    ensures
        r@ == argon2i_digest(password@, salt@),
        r@.len() == 32,
{
    let mut out = [0u8; 32];
    argon2rs::Argon2::default(argon2rs::Variant::Argon2i).hash(
        &mut out,
        password.as_bytes(),
        salt.as_slice(),
        &[],
        &[],
    );
    out.to_vec()
}

/// Relies on rand's OsRng::try_fill_bytes: 32 bytes from the operating
/// system's generator, or none where it fails.
#[verifier::external_body]
fn fresh_salt() -> (r: Option<Vec<u8>>)
    ensures
        r matches Some(v) ==> v@.len() == 32,
{
    let mut salt = [0u8; 32];
    match rand::RngCore::try_fill_bytes(&mut rand::rngs::OsRng, &mut salt) {
        Ok(()) => Some(salt.to_vec()),
        Err(_) => None,
    }
}

fn bytes_eq(a: &Vec<u8>, b: &Vec<u8>) -> (r: bool)
    ensures
        r == (a@ == b@),
{
    if a.len() != b.len() {
        return false;
    }
    let mut i: usize = 0;
    while i < a.len()
        invariant
            i <= a@.len(),
            a@.len() == b@.len(),
            forall|j: int| 0 <= j < i ==> a@[j] == b@[j],
        decreases a@.len() - i,
    {
        if a[i] != b[i] {
            return false;
        }
        i = i + 1;
    }
    assert(a@ =~= b@);
    true
}

/// The outcome of authenticating `username` with `password` against the
/// users `old`, where a new user would get `salt`: the user's identifier
/// when the digest matches, 0 when it does not; a new user, with the digest
/// of the password, where there was none.
pub open spec fn auth_outcome(
    old: Seq<UserRecord>,
    new: Seq<UserRecord>,
    username: Seq<char>,
    password: Seq<char>,
    salt: Seq<u8>,
    r: Result<i64, StoreError>,
) -> bool {
    &&& forall|k: int|
        0 <= k < old.len() && old[k].username@ == username ==> {
            &&& r == Ok::<i64, StoreError>(
                if argon2i_digest(password, old[k].salt@) == old[k].ciphertext@ {
                    (k + 1) as i64
                } else {
                    0
                },
            )
            &&& new == old
        }
    &&& (forall|k: int| 0 <= k < old.len() ==> old[k].username@ != username) ==> {
        if old.len() < MAX_ROWS {
            &&& r == Ok::<i64, StoreError>((old.len() + 1) as i64)
            &&& new.len() == old.len() + 1
            &&& forall|k: int| 0 <= k < old.len() ==> new[k] == old[k]
            &&& new[old.len() as int].username@ == username
            &&& new[old.len() as int].salt@ == salt
            &&& new[old.len() as int].ciphertext@ == argon2i_digest(password, salt)
        } else {
            &&& r == Err::<i64, StoreError>(StoreError::Full)
            &&& new == old
        }
    }
}

fn clone_opt(o: &Option<String>) -> (r: Option<String>)
    ensures
        r == *o,
{
    match o {
        Some(s) => Some(s.clone()),
        None => None,
    }
}

fn clone_names(v: &Vec<String>) -> (r: Vec<String>)
    ensures
        r@ == v@,
{
    let mut r: Vec<String> = Vec::new();
    let mut i: usize = 0;
    while i < v.len()
        invariant
            i <= v.len(),
            r@ == v@.subrange(0, i as int),
        decreases v.len() - i,
    {
        r.push(v[i].clone());
        assert(r@ =~= v@.subrange(0, i + 1));
        i = i + 1;
    }
    assert(v@.subrange(0, v.len() as int) =~= v@);
    r
}

impl ComicInfo {
    /// A copy of this record under identifier `id`, without its document.
    pub fn catalog_copy(&self, id: Option<i64>) -> (r: ComicInfo)
        ensures
            same_catalog_fields(r, *self),
            r.id == id,
            r.comic_info is None,
            r.filepath == self.filepath,
            r.comicvine_url == self.comicvine_url,
            r.series == self.series,
            r.title == self.title,
            r.summary == self.summary,
            r.writer == self.writer,
            r.penciller == self.penciller,
            r.inker == self.inker,
            r.colorist == self.colorist,
            r.cover_artist == self.cover_artist,
            r.publisher == self.publisher,
    {
        ComicInfo {
            id,
            comic_info: None,
            filepath: self.filepath.clone(),
            size: self.size,
            modified_at: self.modified_at,
            comicvine_id: self.comicvine_id,
            comicvine_url: clone_opt(&self.comicvine_url),
            series: clone_opt(&self.series),
            issue_number: self.issue_number,
            volume: self.volume,
            title: clone_opt(&self.title),
            summary: clone_opt(&self.summary),
            released_at: self.released_at,
            writer: clone_opt(&self.writer),
            penciller: clone_opt(&self.penciller),
            inker: clone_opt(&self.inker),
            colorist: clone_opt(&self.colorist),
            cover_artist: clone_opt(&self.cover_artist),
            publisher: clone_opt(&self.publisher),
            page_count: self.page_count,
        }
    }
}

/// Whether the entry names of `v` are pairwise different.
fn all_distinct(v: &Vec<String>) -> (r: bool)
    ensures
        r == distinct_names(v@),
{
    let mut b: usize = 0;
    while b < v.len()
        invariant
            b <= v.len(),
            forall|x: int, y: int| 0 <= x < y < b ==> v@[x]@ != v@[y]@,
        decreases v.len() - b,
    {
        let mut a: usize = 0;
        while a < b
            invariant
                a <= b < v.len(),
                forall|x: int, y: int| 0 <= x < y < b ==> v@[x]@ != v@[y]@,
                forall|x: int| 0 <= x < a ==> v@[x]@ != v@[b as int]@,
            decreases b - a,
        {
            if crate::text::str_eq(v[a].as_str(), v[b].as_str()) {
                return false;
            }
            a = a + 1;
        }
        b = b + 1;
    }
    true
}

proof fn lemma_mark_time_absent(s: Seq<ReadMark>, u: i64, i: i64)
    requires
        forall|j: int| 0 <= j < s.len() ==> !(s[j].user_id == u && s[j].issue_id == i),
    ensures
        mark_time(s, u, i) is None,
    decreases s.len(),
{
    if s.len() > 0 {
        lemma_mark_time_absent(s.drop_last(), u, i);
    }
}

proof fn lemma_mark_time_found(s: Seq<ReadMark>, k: int, u: i64, i: i64)
    requires
        0 <= k < s.len(),
        s[k].user_id == u && s[k].issue_id == i,
    ensures
        mark_time(s, u, i) is Some,
    decreases s.len(),
{
    if k < s.len() - 1 {
        if !(s.last().user_id == u && s.last().issue_id == i) {
            lemma_mark_time_found(s.drop_last(), k, u, i);
        }
    }
}

proof fn lemma_mark_time_push(s: Seq<ReadMark>, x: ReadMark, u: i64, i: i64)
    ensures
        mark_time(s.push(x), u, i) == (if x.user_id == u && x.issue_id == i {
            Some(x.read_at)
        } else {
            mark_time(s, u, i)
        }),
{
    assert(s.push(x).drop_last() =~= s);
}

proof fn lemma_mark_time_set(s: Seq<ReadMark>, k: int, x: ReadMark, u: i64, i: i64)
    requires
        0 <= k < s.len(),
        s[k].user_id == x.user_id && s[k].issue_id == x.issue_id,
        forall|j: int|
            0 <= j < s.len() && j != k ==> !(s[j].user_id == x.user_id && s[j].issue_id
                == x.issue_id),
    ensures
        mark_time(s.update(k, x), u, i) == (if x.user_id == u && x.issue_id == i {
            Some(x.read_at)
        } else {
            mark_time(s, u, i)
        }),
    decreases s.len(),
{
    let t = s.update(k, x);
    if k == s.len() - 1 {
        assert(t.drop_last() =~= s.drop_last());
        if !(x.user_id == u && x.issue_id == i) {
        }
    } else {
        assert(t.drop_last() =~= s.drop_last().update(k, x));
        lemma_mark_time_set(s.drop_last(), k, x, u, i);
    }
}

impl DB {
    pub closed spec fn issue_rows(&self) -> Seq<IssueRecord> {
        self.issues@
    }

    pub closed spec fn marks(&self) -> Seq<ReadMark> {
        self.reads@
    }

    pub closed spec fn user_rows(&self) -> Seq<UserRecord> {
        self.users@
    }

    /// When user `u` marked issue `i` read, if ever.
    pub open spec fn read_time(&self, u: i64, i: i64) -> Option<i64> {
        mark_time(self.marks(), u, i)
    }

    pub open spec fn is_read(&self, u: i64, i: i64) -> bool {
        self.read_time(u, i) is Some
    }

    /// The store's invariant: identifiers fit and match positions, file
    /// paths, entry names of an issue, read-mark keys and user names are
    /// unique, and salts suit the password hash.
    pub open spec fn wf(&self) -> bool {
        let rows = self.issue_rows();
        let marks = self.marks();
        let users = self.user_rows();
        &&& rows.len() <= MAX_ROWS
        &&& users.len() <= MAX_ROWS
        &&& forall|k: int| 0 <= k < rows.len() ==> #[trigger] rows[k].info.id == Some((k + 1) as i64)
        &&& forall|k: int| 0 <= k < rows.len() ==> (#[trigger] rows[k]).info.comic_info is None
        &&& forall|k: int| 0 <= k < rows.len() ==> distinct_names(#[trigger] rows[k].pages@)
        &&& forall|a: int, b: int|
            0 <= a < b < rows.len() ==> rows[a].info.filepath@ != rows[b].info.filepath@
        &&& forall|a: int, b: int|
            #![trigger marks[a], marks[b]]
            0 <= a < b < marks.len() ==> !(marks[a].user_id == marks[b].user_id
                && marks[a].issue_id == marks[b].issue_id)
        &&& forall|a: int, b: int|
            0 <= a < b < users.len() ==> users[a].username@ != users[b].username@
        &&& forall|k: int|
            0 <= k < users.len() ==> 8 <= (#[trigger] users[k]).salt@.len() <= 0xffff_ffff
    }

    proof fn lemma_path_unique(&self, k: int)
        requires
            self.wf(),
            0 <= k < self.issue_rows().len(),
        ensures
            forall|j: int|
                has_path(self.issue_rows(), self.issue_rows()[k].info.filepath@, j) ==> j == k,
    {
        let rows = self.issue_rows();
        assert forall|j: int| has_path(rows, rows[k].info.filepath@, j) implies j == k by {
            if j < k {
                assert(rows[j].info.filepath@ != rows[k].info.filepath@);
            } else if j > k {
                assert(rows[k].info.filepath@ != rows[j].info.filepath@);
            }
        }
    }

    /// The position of the row of file `fp`, or the number of rows.
    fn find_path(&self, fp: &str) -> (k: usize)
        requires
            self.wf(),
        ensures
            k <= self.issue_rows().len(),
            k < self.issue_rows().len() ==> self.issue_rows()[k as int].info.filepath@ == fp@,
            k < self.issue_rows().len() ==> forall|j: int|
                has_path(self.issue_rows(), fp@, j) ==> j == k,
            k == self.issue_rows().len() ==> path_absent(self.issue_rows(), fp@),
    {
        let n = self.issues.len();
        let mut k: usize = 0;
        while k < n
            invariant
                k <= n,
                n == self.issues@.len(),
                self.wf(),
                forall|j: int| 0 <= j < k ==> self.issues@[j].info.filepath@ != fp@,
            decreases n - k,
        {
            if crate::text::str_eq(self.issues[k].info.filepath.as_str(), fp) {
                proof {
                    self.lemma_path_unique(k as int);
                }
                return k;
            }
            k = k + 1;
        }
        k
    }

    /// The position of the mark of user `u` on issue `i`, or the number of
    /// marks.
    fn find_mark(&self, u: i64, i: i64) -> (k: usize)
        ensures
            k <= self.marks().len(),
            k < self.marks().len() ==> self.marks()[k as int].user_id == u
                && self.marks()[k as int].issue_id == i,
            forall|j: int|
                0 <= j < k ==> !(self.marks()[j].user_id == u && self.marks()[j].issue_id == i),
    {
        let n = self.reads.len();
        let mut k: usize = 0;
        while k < n
            invariant
                k <= n,
                n == self.reads@.len(),
                forall|j: int|
                    0 <= j < k ==> !(self.reads@[j].user_id == u && self.reads@[j].issue_id == i),
            decreases n - k,
        {
            if self.reads[k].user_id == u && self.reads[k].issue_id == i {
                return k;
            }
            k = k + 1;
        }
        k
    }

    /// The stored issues, in identifier order.
    pub fn issues(&self) -> (r: &Vec<IssueRecord>)
        ensures
            r@ == self.issue_rows(),
    {
        &self.issues
    }

    /// The read marks.
    pub fn read_marks(&self) -> (r: &Vec<ReadMark>)
        ensures
            r@ == self.marks(),
    {
        &self.reads
    }

    /// The users, in identifier order.
    pub fn users(&self) -> (r: &Vec<UserRecord>)
        ensures
            r@ == self.user_rows(),
    {
        &self.users
    }

    /// Whether user `user_id` has marked issue `issue_id` read.
    pub fn has_read(&self, user_id: i64, issue_id: i64) -> (r: bool)
        requires
            self.wf(),
        ensures
            r == self.is_read(user_id, issue_id),
    {
        let k = self.find_mark(user_id, issue_id);
        proof {
            let s = self.marks();
            if k < s.len() {
                assert forall|j: int| 0 <= j < s.len() && j != k implies !(s[j].user_id == user_id
                    && s[j].issue_id == issue_id) by {
                    if j > k {
                        assert(!(s[k as int].user_id == s[j].user_id && s[k as int].issue_id
                            == s[j].issue_id));
                    }
                }
                lemma_mark_time_found(s, k as int, user_id, issue_id);
            } else {
                lemma_mark_time_absent(s, user_id, issue_id);
            }
        }
        k < self.reads.len()
    }

    /// An empty catalog.
    pub fn new() -> (r: DB)
        ensures
            r.wf(),
            r.issue_rows().len() == 0,
            r.marks().len() == 0,
            r.user_rows().len() == 0,
    {
        DB { issues: Vec::new(), reads: Vec::new(), users: Vec::new() }
    }

    /// Writes the record of a file and the entry names of its archive: the
    /// row of that file is overwritten, or a row is added; the file's pages
    /// become `entries`, and its metadata document, where `info` has one, is
    /// indexed. Returns the row identifier.
    pub fn store_comic(&mut self, info: &ComicInfo, entries: &Vec<String>) -> (r: Result<
        i64,
        StoreError,
    >)
        requires
            old(self).wf(),
        ensures
            final(self).wf(),
            r is Err ==> *final(self) == *old(self),
            r is Err ==> r == Err::<i64, StoreError>(StoreError::DuplicateEntry) || r == Err::<
                i64,
                StoreError,
            >(StoreError::Full),
            r == Err::<i64, StoreError>(StoreError::DuplicateEntry) <==> !distinct_names(entries@),
            r == Err::<i64, StoreError>(StoreError::Full) <==> (distinct_names(entries@)
                && path_absent(old(self).issue_rows(), info.filepath@) && old(
                self,
            ).issue_rows().len() == MAX_ROWS),
            r is Ok ==> upserted(
                old(self).issue_rows(),
                final(self).issue_rows(),
                *info,
                entries@,
                r->Ok_0,
            ),
            final(self).marks() == old(self).marks(),
            final(self).user_rows() == old(self).user_rows(),
    {
        if !all_distinct(entries) {
            return Err(StoreError::DuplicateEntry);
        }
        let n = self.issues.len();
        let k = self.find_path(info.filepath.as_str());
        if k == n && n == MAX_ROWS {
            return Err(StoreError::Full);
        }
        let id = (k + 1) as i64;
        let pages = clone_names(entries);
        if k < n {
            let document = match &info.comic_info {
                Some(d) => Some(d.clone()),
                None => clone_opt(&self.issues[k].document),
            };
            let rec = IssueRecord { info: info.catalog_copy(Some(id)), pages, document };
            let ghost old_rows = self.issues@;
            self.issues[k] = rec;
            proof {
                let rows = self.issues@;
                assert(rows == old_rows.update(k as int, rec));
                assert forall|j: int| 0 <= j < rows.len() implies #[trigger] rows[j].info.id == Some(
                    (j + 1) as i64,
                ) && rows[j].info.comic_info is None by {
                    if j != k {
                        assert(rows[j] == old_rows[j]);
                    }
                }
                assert forall|a: int, b: int| 0 <= a < b < rows.len() implies rows[a].info.filepath@
                    != rows[b].info.filepath@ by {
                    assert(old_rows[a].info.filepath@ != old_rows[b].info.filepath@);
                }
                assert forall|j: int| 0 <= j < rows.len() implies distinct_names(
                    #[trigger] rows[j].pages@,
                ) by {
                    if j != k {
                        assert(rows[j] == old_rows[j]);
                    }
                }
            }
        } else {
            let rec = IssueRecord {
                info: info.catalog_copy(Some(id)),
                pages,
                document: clone_opt(&info.comic_info),
            };
            let ghost old_rows = self.issues@;
            self.issues.push(rec);
            proof {
                let rows = self.issues@;
                assert(rows == old_rows.push(rec));
                assert forall|j: int| 0 <= j < rows.len() implies #[trigger] rows[j].info.id == Some(
                    (j + 1) as i64,
                ) && rows[j].info.comic_info is None by {
                    if j != k {
                        assert(rows[j] == old_rows[j]);
                    }
                }
                assert forall|a: int, b: int| 0 <= a < b < rows.len() implies rows[a].info.filepath@
                    != rows[b].info.filepath@ by {
                    if b < old_rows.len() {
                        assert(old_rows[a].info.filepath@ != old_rows[b].info.filepath@);
                    } else {
                        assert(old_rows[a].info.filepath@ != info.filepath@);
                    }
                }
                assert forall|j: int| 0 <= j < rows.len() implies distinct_names(
                    #[trigger] rows[j].pages@,
                ) by {
                    if j < old_rows.len() {
                        assert(rows[j] == old_rows[j]);
                    }
                }
            }
        }
        proof {
            let marks = self.marks();
            assert(marks == old(self).marks());
            assert forall|a: int, b: int| 0 <= a < b < marks.len() implies !(marks[a].user_id
                == marks[b].user_id && marks[a].issue_id == marks[b].issue_id) by {
                assert(old(self).marks()[a] == marks[a]);
                assert(old(self).marks()[b] == marks[b]);
            }
        }
        Ok(id)
    }

    /// The entry names stored for the file `filepath`; none where it has no
    /// row.
    pub fn stored_pages(&self, filepath: &str) -> (r: Vec<String>)
        requires
            self.wf(),
        ensures
            forall|k: int| has_path(self.issue_rows(), filepath@, k) ==> r@ == self.issue_rows()[k].pages@,
            path_absent(self.issue_rows(), filepath@) ==> r@.len() == 0,
    {
        let k = self.find_path(filepath);
        if k < self.issues.len() {
            clone_names(&self.issues[k].pages)
        } else {
            Vec::new()
        }
    }

    /// Whether the file `filepath`, last modified at `modified`, must be
    /// indexed again.
    pub fn should_update(&self, filepath: &str, modified: i64) -> (r: bool)
        requires
            self.wf(),
        ensures
            r == stale(self.issue_rows(), filepath@, modified),
    {
        let k = self.find_path(filepath);
        if k < self.issues.len() {
            let r = self.issues[k].info.modified_at < modified;
            proof {
                let rows = self.issue_rows();
                if r {
                    assert forall|j: int| has_path(rows, filepath@, j) implies rows[j].info.modified_at
                        < modified by {
                        assert(j == k);
                    }
                } else {
                    assert(has_path(rows, filepath@, k as int));
                }
            }
            r
        } else {
            true
        }
    }

    /// The record with identifier `id`.
    pub fn get(&self, id: i64) -> (r: Result<ComicInfo, StoreError>)
        requires
            self.wf(),
        ensures
            r is Ok <==> 1 <= id <= self.issue_rows().len(),
            r is Ok ==> r->Ok_0 == self.issue_rows()[id - 1].info,
            r is Err ==> r == Err::<ComicInfo, StoreError>(StoreError::NotFound),
    {
        if id < 1 || id as u64 > self.issues.len() as u64 {
            return Err(StoreError::NotFound);
        }
        let k = (id - 1) as usize;
        let row = &self.issues[k].info;
        Ok(row.catalog_copy(row.id))
    }

    /// The file and entry of page `page_id` of issue `issue_id`, pages being
    /// the image entries in code-point order; serving one of the last two
    /// pages marks the issue read by `user_id` at `now`, which the third
    /// part of the result tells.
    pub fn get_page(&mut self, issue_id: i64, page_id: i32, user_id: i64, now: i64) -> (r: Result<
        (String, String, bool),
        StoreError,
    >)
        requires
            old(self).wf(),
        ensures
            final(self).wf(),
            page_outcome(old(self).issue_rows(), issue_id, page_id, r),
            completes_issue(old(self).issue_rows(), issue_id, page_id, r) ==> forall|u: i64, i: i64|
                #[trigger] final(self).read_time(u, i) == (if u == user_id && i == issue_id {
                    Some(now)
                } else {
                    old(self).read_time(u, i)
                }),
            !completes_issue(old(self).issue_rows(), issue_id, page_id, r) ==> final(self).marks()
                == old(self).marks(),
            final(self).issue_rows() == old(self).issue_rows(),
            final(self).user_rows() == old(self).user_rows(),
    {
        if issue_id < 1 || issue_id as u64 > self.issues.len() as u64 || page_id < 0 {
            proof {
                if 1 <= issue_id <= self.issues@.len() {
                    let k = issue_id - 1;
                    assert(distinct_names(self.issues@[k].pages@));
                }
            }
            return Err(StoreError::NoSuchPage);
        }
        let k = (issue_id - 1) as usize;
        assert(distinct_names(self.issues@[k as int].pages@));
        let ps = sorted_pages(&self.issues[k].pages);
        let ghost names = self.issues@[k as int].pages@;
        let n = ps.len();
        let p = page_id as usize;
        if n == 0 {
            proof {
                lemma_page_order_empty(ps@, names);
            }
            return Err(StoreError::NoSuchPage);
        }
        proof {
            lemma_page_order_counts(ps@, names, 0);
        }
        if p >= n {
            return Err(StoreError::NoSuchPage);
        }
        proof {
            lemma_page_order_counts(ps@, names, p as int);
        }
        let fp = self.issues[k].info.filepath.clone();
        let entry = ps[p].clone();
        let marked = p + 3 > n;
        if marked {
            self.mark_read(issue_id, user_id, now);
        }
        Ok((fp, entry, marked))
    }

    /// The position of user `username`, or the number of users.
    fn find_user(&self, username: &str) -> (k: usize)
        requires
            self.wf(),
        ensures
            k <= self.user_rows().len(),
            k < self.user_rows().len() ==> self.user_rows()[k as int].username@ == username@,
            forall|j: int| 0 <= j < k ==> self.user_rows()[j].username@ != username@,
            k < self.user_rows().len() ==> forall|j: int|
                0 <= j < self.user_rows().len() && self.user_rows()[j].username@ == username@
                    ==> j == k,
    {
        let n = self.users.len();
        let mut k: usize = 0;
        while k < n
            invariant
                k <= n,
                n == self.users@.len(),
                self.wf(),
                forall|j: int| 0 <= j < k ==> self.users@[j].username@ != username@,
            decreases n - k,
        {
            if crate::text::str_eq(self.users[k].username.as_str(), username) {
                proof {
                    let users = self.users@;
                    assert forall|j: int|
                        0 <= j < users.len() && users[j].username@ == username@ implies j == k by {
                        if j > k {
                            assert(users[k as int].username@ != users[j].username@);
                        }
                    }
                }
                return k;
            }
            k = k + 1;
        }
        k
    }

    /// The identifier of user `username`.
    pub fn get_user(&self, username: &str) -> (r: Result<i64, StoreError>)
        requires
            self.wf(),
        ensures
            r is Err <==> (forall|k: int|
                0 <= k < self.user_rows().len() ==> self.user_rows()[k].username@ != username@),
            r is Err ==> r == Err::<i64, StoreError>(StoreError::NotFound),
            r is Ok ==> {
                let k = r->Ok_0 - 1;
                0 <= k < self.user_rows().len() && self.user_rows()[k].username@ == username@
            },
    {
        let k = self.find_user(username);
        if k < self.users.len() {
            Ok((k + 1) as i64)
        } else {
            Err(StoreError::NotFound)
        }
    }

    /// Authenticates `username` with `password`, creating the user with
    /// salt `salt` where there is none: its identifier, or 0 where the
    /// password does not match.
    pub fn provision_user_with_salt(&mut self, username: &str, password: &str, salt: Vec<u8>) -> (r:
        Result<i64, StoreError>)
        requires
            old(self).wf(),
            8 <= salt@.len() <= 0xffff_ffff,
            password@.len() <= 0x3fff_ffff,
        ensures
            final(self).wf(),
            auth_outcome(
                old(self).user_rows(),
                final(self).user_rows(),
                username@,
                password@,
                salt@,
                r,
            ),
            final(self).issue_rows() == old(self).issue_rows(),
            final(self).marks() == old(self).marks(),
    {
        let k = self.find_user(username);
        let n = self.users.len();
        if k < n {
            let digest = argon2i_hash(password, &self.users[k].salt);
            if bytes_eq(&digest, &self.users[k].ciphertext) {
                return Ok((k + 1) as i64);
            } else {
                return Ok(0);
            }
        }
        if n == MAX_ROWS {
            return Err(StoreError::Full);
        }
        let ciphertext = argon2i_hash(password, &salt);
        let rec = UserRecord { username: username.to_owned(), salt, ciphertext };
        let ghost old_users = self.users@;
        self.users.push(rec);
        proof {
            let users = self.users@;
            assert forall|a: int, b: int| 0 <= a < b < users.len() implies users[a].username@
                != users[b].username@ by {
                if b == old_users.len() {
                    assert(users[a] == old_users[a]);
                }
            }
            assert forall|j: int| 0 <= j < users.len() implies 8 <= (
            #[trigger] users[j]).salt@.len() <= 0xffff_ffff by {
                if j < old_users.len() {
                    assert(users[j] == old_users[j]);
                }
            }
            let marks = self.marks();
            assert(marks == old(self).marks());
            assert forall|a: int, b: int| 0 <= a < b < marks.len() implies !(marks[a].user_id
                == marks[b].user_id && marks[a].issue_id == marks[b].issue_id) by {
                assert(old(self).marks()[a] == marks[a]);
                assert(old(self).marks()[b] == marks[b]);
            }
        }
        Ok((n + 1) as i64)
    }

    /// Authenticates `username` with `password`: the user's identifier, or
    /// 0 where the password does not match; an unknown user is created with
    /// a fresh random salt.
    pub fn check_or_provision_user(&mut self, username: &str, password: &str) -> (r: Result<
        i64,
        StoreError,
    >)
        requires
            old(self).wf(),
            password@.len() <= 0x3fff_ffff,
        ensures
            final(self).wf(),
            final(self).issue_rows() == old(self).issue_rows(),
            final(self).marks() == old(self).marks(),
            (exists|k: int|
                0 <= k < old(self).user_rows().len() && old(self).user_rows()[k].username@
                    == username@) ==> r != Err::<i64, StoreError>(StoreError::NoRandomness),
            r == Err::<i64, StoreError>(StoreError::NoRandomness) ==> final(self).user_rows() == old(
                self,
            ).user_rows(),
            r != Err::<i64, StoreError>(StoreError::NoRandomness) ==> exists|salt: Seq<u8>|
                salt.len() == 32 && auth_outcome(
                    old(self).user_rows(),
                    final(self).user_rows(),
                    username@,
                    password@,
                    salt,
                    r,
                ),
    {
        let k = self.find_user(username);
        if k < self.users.len() {
            let ghost old_users = self.users@;
            let salt = self.users[k].salt.clone();
            let r = self.provision_user_with_salt(username, password, salt);
            proof {
                let any_salt = Seq::new(32, |i: int| 0u8);
                assert(any_salt.len() == 32);
                assert(old_users == old(self).user_rows());
                assert(self.users@ == self.user_rows());
                assert(auth_outcome(
                    old_users,
                    self.users@,
                    username@,
                    password@,
                    any_salt,
                    r,
                ));
            }
            return r;
        }
        match fresh_salt() {
            Some(salt) => self.provision_user_with_salt(username, password, salt),
            None => Err(StoreError::NoRandomness),
        }
    }

    /// Adds a user saved earlier, with its salt and digest: its identifier;
    /// an error where the name is taken, the salt does not suit the password
    /// hash, or every identifier is taken.
    pub fn restore_user(&mut self, username: &str, salt: Vec<u8>, ciphertext: Vec<u8>) -> (r:
        Result<i64, StoreError>)
        requires
            old(self).wf(),
        ensures
            final(self).wf(),
            final(self).issue_rows() == old(self).issue_rows(),
            final(self).marks() == old(self).marks(),
            r is Err ==> final(self).user_rows() == old(self).user_rows(),
            r == Err::<i64, StoreError>(StoreError::DuplicateEntry) <==> exists|k: int|
                0 <= k < old(self).user_rows().len() && old(self).user_rows()[k].username@
                    == username@,
            r == Err::<i64, StoreError>(StoreError::BadSalt) <==> ((forall|k: int|
                0 <= k < old(self).user_rows().len() ==> old(self).user_rows()[k].username@
                    != username@) && !(8 <= salt@.len() <= 0xffff_ffff)),
            r == Err::<i64, StoreError>(StoreError::Full) <==> ((forall|k: int|
                0 <= k < old(self).user_rows().len() ==> old(self).user_rows()[k].username@
                    != username@) && 8 <= salt@.len() <= 0xffff_ffff && old(self).user_rows().len()
                == MAX_ROWS),
            r is Ok ==> {
                let old_users = old(self).user_rows();
                let users = final(self).user_rows();
                &&& r->Ok_0 == old_users.len() + 1
                &&& users.len() == old_users.len() + 1
                &&& forall|k: int| 0 <= k < old_users.len() ==> users[k] == old_users[k]
                &&& users[old_users.len() as int].username@ == username@
                &&& users[old_users.len() as int].salt@ == salt@
                &&& users[old_users.len() as int].ciphertext@ == ciphertext@
            },
    {
        let k = self.find_user(username);
        let n = self.users.len();
        if k < n {
            return Err(StoreError::DuplicateEntry);
        }
        if salt.len() < 8 || salt.len() > 0xffff_ffff {
            return Err(StoreError::BadSalt);
        }
        if n == MAX_ROWS {
            return Err(StoreError::Full);
        }
        let rec = UserRecord { username: username.to_owned(), salt, ciphertext };
        let ghost old_users = self.users@;
        self.users.push(rec);
        proof {
            let users = self.users@;
            assert forall|a: int, b: int| 0 <= a < b < users.len() implies users[a].username@
                != users[b].username@ by {
                if b == old_users.len() {
                    assert(users[a] == old_users[a]);
                }
            }
            assert forall|j: int| 0 <= j < users.len() implies 8 <= (
            #[trigger] users[j]).salt@.len() <= 0xffff_ffff by {
                if j < old_users.len() {
                    assert(users[j] == old_users[j]);
                }
            }
            let marks = self.marks();
            assert(marks == old(self).marks());
            assert forall|a: int, b: int| 0 <= a < b < marks.len() implies !(marks[a].user_id
                == marks[b].user_id && marks[a].issue_id == marks[b].issue_id) by {
                assert(old(self).marks()[a] == marks[a]);
                assert(old(self).marks()[b] == marks[b]);
            }
        }
        Ok((n + 1) as i64)
    }

    /// Marks issue `issue_id` read by user `user_id` at time `read_at`,
    /// replacing an earlier mark of the same pair.
    pub fn mark_read(&mut self, issue_id: i64, user_id: i64, read_at: i64)
        requires
            old(self).wf(),
        ensures
            final(self).wf(),
            forall|u: i64, i: i64|
                #[trigger] final(self).read_time(u, i) == (if u == user_id && i == issue_id {
                    Some(read_at)
                } else {
                    old(self).read_time(u, i)
                }),
            final(self).issue_rows() == old(self).issue_rows(),
            final(self).user_rows() == old(self).user_rows(),
    {
        let mark = ReadMark { user_id, issue_id, read_at };
        let ghost s = self.reads@;
        let k = self.find_mark(user_id, issue_id);
        if k < self.reads.len() {
            proof {
                assert forall|j: int| 0 <= j < s.len() && j != k implies !(s[j].user_id
                    == user_id && s[j].issue_id == issue_id) by {
                    if j > k {
                        assert(!(s[k as int].user_id == s[j].user_id && s[k as int].issue_id
                            == s[j].issue_id));
                    }
                }
            }
            self.reads[k] = mark;
            proof {
                assert forall|u: i64, i: i64| #[trigger]
                    mark_time(self.reads@, u, i) == (if u == user_id && i == issue_id {
                        Some(read_at)
                    } else {
                        mark_time(s, u, i)
                    }) by {
                    lemma_mark_time_set(s, k as int, mark, u, i);
                }
            }
        } else {
            self.reads.push(mark);
            proof {
                assert forall|u: i64, i: i64| #[trigger]
                    mark_time(self.reads@, u, i) == (if u == user_id && i == issue_id {
                        Some(read_at)
                    } else {
                        mark_time(s, u, i)
                    }) by {
                    lemma_mark_time_push(s, mark, u, i);
                }
            }
        }
    }
}

/// Two upserts of one file leave one row for it, under one identifier, with
/// the fields of the later record.
pub proof fn upsert_keeps_one_row(
    db0: &DB,
    db1: &DB,
    db2: &DB,
    first: ComicInfo,
    first_entries: Seq<String>,
    first_id: i64,
    second: ComicInfo,
    second_entries: Seq<String>,
    second_id: i64,
)
    requires
        db0.wf(),
        db1.wf(),
        db2.wf(),
        upserted(db0.issue_rows(), db1.issue_rows(), first, first_entries, first_id),
        upserted(db1.issue_rows(), db2.issue_rows(), second, second_entries, second_id),
        first.filepath@ == second.filepath@,
    ensures
        first_id == second_id,
        db2.issue_rows().len() == db1.issue_rows().len(),
        forall|k: int| has_path(db2.issue_rows(), second.filepath@, k) ==> k == second_id - 1,
        has_path(db2.issue_rows(), second.filepath@, second_id - 1),
        same_catalog_fields(db2.issue_rows()[second_id - 1].info, second),
        db2.issue_rows()[second_id - 1].pages@ == second_entries,
{
    let k = first_id - 1;
    assert(has_path(db1.issue_rows(), first.filepath@, k));
    db2.lemma_path_unique(second_id - 1);
}

/// After an upsert recorded modification time `t`, the file is not stale at
/// `t` and is stale at every later time.
pub proof fn upsert_then_fresh(
    db0: &DB,
    db1: &DB,
    info: ComicInfo,
    entries: Seq<String>,
    id: i64,
    later: i64,
)
    requires
        db0.wf(),
        db1.wf(),
        upserted(db0.issue_rows(), db1.issue_rows(), info, entries, id),
        later > info.modified_at,
    ensures
        !stale(db1.issue_rows(), info.filepath@, info.modified_at),
        stale(db1.issue_rows(), info.filepath@, later),
{
    db1.lemma_path_unique(id - 1);
    assert(has_path(db1.issue_rows(), info.filepath@, id - 1));
}

/// After an issue is indexed again with entries `entries`, a page served
/// for it is one of the image entries of `entries`, at a position below
/// their count: no page of an earlier, larger set survives.
pub proof fn reindex_drops_stale_pages(
    db0: &DB,
    db1: &DB,
    info: ComicInfo,
    entries: Seq<String>,
    id: i64,
    page_id: i32,
    r: Result<(String, String, bool), StoreError>,
)
    requires
        db0.wf(),
        db1.wf(),
        upserted(db0.issue_rows(), db1.issue_rows(), info, entries, id),
        page_outcome(db1.issue_rows(), id, page_id, r),
        r is Ok,
    ensures
        0 <= page_id < page_total(entries),
        image_names(entries).contains((r->Ok_0).1@),
{
}

/// Serving the last page of an issue marks it read; serving the fourth page
/// from the end does not.
pub proof fn last_pages_mark_read(
    db0: &DB,
    db1: &DB,
    issue_id: i64,
    page_id: i32,
    user_id: i64,
    now: i64,
    r: Result<(String, String, bool), StoreError>,
)
    requires
        db0.wf(),
        page_outcome(db0.issue_rows(), issue_id, page_id, r),
        completes_issue(db0.issue_rows(), issue_id, page_id, r) ==> forall|u: i64, i: i64|
            #[trigger] db1.read_time(u, i) == (if u == user_id && i == issue_id {
                Some(now)
            } else {
                db0.read_time(u, i)
            }),
        !completes_issue(db0.issue_rows(), issue_id, page_id, r) ==> db1.marks() == db0.marks(),
        1 <= issue_id <= db0.issue_rows().len(),
        page_total(db0.issue_rows()[issue_id - 1].pages@) >= 1,
    ensures
        page_id == page_total(db0.issue_rows()[issue_id - 1].pages@) - 1 ==> db1.read_time(
            user_id,
            issue_id,
        ) == Some(now),
        page_id == page_total(db0.issue_rows()[issue_id - 1].pages@) - 4 ==> db1.marks()
            == db0.marks(),
{
}

} // verus!
