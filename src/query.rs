use vstd::multiset::Multiset;
use vstd::prelude::*;

use crate::catalog::{mark_time, IssueRecord, ReadMark, DB};
use crate::metadata::{opt_view, ComicInfo, Date};
use crate::text::{lemma_lt_total, lemma_lt_transitive, seq_lt, str_eq, str_lt};

verus! {

broadcast use vstd::seq_lib::group_to_multiset_ensures;

/// The group key of a field: its text, or `None` where it is absent.
pub open spec fn group_key(o: Option<String>) -> Seq<char> {
    match o {
        Some(s) => s@,
        None => "None"@,
    }
}

/// A field matches a key given as text; the key `None` matches an absent
/// field too.
pub open spec fn key_matches(o: Option<String>, key: Seq<char>) -> bool {
    opt_view(o) == Some(key) || (key == "None"@ && o is None)
}

/// `d` is a later date than `c`.
pub open spec fn date_after(d: Date, c: Date) -> bool {
    d.year > c.year || (d.year == c.year && (d.month > c.month || (d.month == c.month && d.day
        > c.day)))
}

/// Release dates in order, absent dates first.
pub open spec fn release_le(a: Option<Date>, b: Option<Date>) -> bool {
    match (a, b) {
        (None, _) => true,
        (Some(_), None) => false,
        (Some(x), Some(y)) => !date_after(x, y),
    }
}

/// Release order, ascending or descending.
pub open spec fn release_in_order(a: ComicInfo, b: ComicInfo, descending: bool) -> bool {
    if descending {
        release_le(b.released_at, a.released_at)
    } else {
        release_le(a.released_at, b.released_at)
    }
}

pub open spec fn release_sorted(s: Seq<ComicInfo>, descending: bool) -> bool {
    forall|a: int, b: int| 0 <= a < b < s.len() ==> release_in_order(s[a], s[b], descending)
}

/// Which issues a query lists.
pub struct RowFilter {
    /// Only issues this user has not marked read.
    pub unread_by: Option<i64>,
    /// Only issues whose series matches this key.
    pub series: Option<String>,
    /// Only issues whose publisher matches this key.
    pub publisher: Option<String>,
    /// Only issues with exactly this publisher.
    pub publisher_exact: Option<String>,
    /// Only issues with a series.
    pub series_present: bool,
    /// Only issues released after this date.
    pub released_after: Option<Date>,
}

/// What a `RowFilter` asks, over character sequences.
pub struct RowSelection {
    pub unread_by: Option<i64>,
    pub series: Option<Seq<char>>,
    pub publisher: Option<Seq<char>>,
    pub publisher_exact: Option<Seq<char>>,
    pub series_present: bool,
    pub released_after: Option<Date>,
}

impl View for RowFilter {
    type V = RowSelection;

    open spec fn view(&self) -> RowSelection {
        RowSelection {
            unread_by: self.unread_by,
            series: opt_view(self.series),
            publisher: opt_view(self.publisher),
            publisher_exact: opt_view(self.publisher_exact),
            series_present: self.series_present,
            released_after: self.released_after,
        }
    }
}

pub open spec fn picks(marks: Seq<ReadMark>, f: RowSelection, rec: IssueRecord) -> bool {
    let info = rec.info;
    &&& (f.unread_by matches Some(u) ==> mark_time(marks, u, info.id.unwrap()) is None)
    &&& (f.series matches Some(k) ==> key_matches(info.series, k))
    &&& (f.publisher matches Some(k) ==> key_matches(info.publisher, k))
    &&& (f.publisher_exact matches Some(k) ==> opt_view(info.publisher) == Some(k))
    &&& (f.series_present ==> info.series is Some)
    &&& (f.released_after matches Some(c) ==> (info.released_at matches Some(d) && date_after(d, c)))
}

/// The records of the issues that `f` picks, in identifier order.
pub open spec fn selected(db: DB, f: RowSelection) -> Seq<ComicInfo> {
    db.issue_rows().filter(|rec: IssueRecord| picks(db.marks(), f, rec)).map_values(
        |rec: IssueRecord| rec.info,
    )
}

/// Which field groups issues.
#[derive(Clone, Copy, Debug, PartialEq, Eq, Structural)]
pub enum GroupBy {
    Series,
    Publisher,
}

pub open spec fn group_field(info: ComicInfo, by: GroupBy) -> Option<String> {
    match by {
        GroupBy::Series => info.series,
        GroupBy::Publisher => info.publisher,
    }
}

/// The group key and modification time of each issue that `f` picks.
pub open spec fn group_items(db: DB, f: RowSelection, by: GroupBy) -> Seq<(Seq<char>, i64)> {
    selected(db, f).map_values(|info: ComicInfo| (group_key(group_field(info, by)), info.modified_at))
}

/// `r` holds each key of `items` once, in code-point order, with the latest
/// time that `items` gives it.
pub open spec fn grouped(r: Seq<(String, i64)>, items: Seq<(Seq<char>, i64)>) -> bool {
    &&& forall|a: int, b: int| 0 <= a < b < r.len() ==> seq_lt(r[a].0@, r[b].0@)
    &&& forall|j: int|
        #![trigger r[j]]
        0 <= j < r.len() ==> exists|i: int|
            0 <= i < items.len() && #[trigger] items[i] == (r[j].0@, r[j].1)
    &&& forall|i: int, j: int|
        0 <= i < items.len() && 0 <= j < r.len() && #[trigger] items[i].0 == #[trigger] r[j].0@
            ==> items[i].1 <= r[j].1
    &&& forall|i: int|
        0 <= i < items.len() ==> exists|j: int| 0 <= j < r.len() && r[j].0@ == #[trigger] items[i].0
}

fn key_match(o: &Option<String>, key: &str) -> (r: bool)
    ensures
        r == key_matches(*o, key@),
{
    match o {
        Some(s) => str_eq(s.as_str(), key),
        None => str_eq(key, "None"),
    }
}

fn is_after(d: Date, c: Date) -> (r: bool)
    ensures
        r == date_after(d, c),
{
    d.year > c.year || (d.year == c.year && (d.month > c.month || (d.month == c.month && d.day
        > c.day)))
}

fn release_ok(a: &ComicInfo, b: &ComicInfo, descending: bool) -> (r: bool)
    ensures
        r == release_in_order(*a, *b, descending),
{
    let (x, y) = if descending {
        (b.released_at, a.released_at)
    } else {
        (a.released_at, b.released_at)
    };
    match (x, y) {
        (None, _) => true,
        (Some(_), None) => false,
        (Some(p), Some(q)) => !is_after(p, q),
    }
}

fn picks_row(db: &DB, f: &RowFilter, rec: &IssueRecord) -> (r: bool)
    requires
        db.wf(),
        rec.info.id is Some,
    ensures
        r == picks(db.marks(), f@, *rec),
{
    let info = &rec.info;
    if let Some(u) = f.unread_by {
        let id = match info.id {
            Some(i) => i,
            None => 0,
        };
        if db.has_read(u, id) {
            return false;
        }
    }
    if let Some(k) = &f.series {
        if !key_match(&info.series, k.as_str()) {
            return false;
        }
    }
    if let Some(k) = &f.publisher {
        if !key_match(&info.publisher, k.as_str()) {
            return false;
        }
    }
    if let Some(k) = &f.publisher_exact {
        let same = match &info.publisher {
            Some(p) => str_eq(p.as_str(), k.as_str()),
            None => false,
        };
        if !same {
            return false;
        }
    }
    if f.series_present && info.series.is_none() {
        return false;
    }
    if let Some(c) = f.released_after {
        let later = match info.released_at {
            Some(d) => is_after(d, c),
            None => false,
        };
        if !later {
            return false;
        }
    }
    true
}

/// The records of the issues that `f` picks, in identifier order.
pub fn select(db: &DB, f: &RowFilter) -> (r: Vec<ComicInfo>)
    requires
        db.wf(),
    ensures
        r@ == selected(*db, f@),
{
    let rows = db.issues();
    let ghost pred = |rec: IssueRecord| picks(db.marks(), f@, rec);
    let ghost info_of = |rec: IssueRecord| rec.info;
    let mut r: Vec<ComicInfo> = Vec::new();
    let mut i: usize = 0;
    assert(rows@.subrange(0, 0).filter(pred) =~= Seq::<IssueRecord>::empty());
    while i < rows.len()
        invariant
            i <= rows@.len(),
            rows@ == db.issue_rows(),
            db.wf(),
            r@ == rows@.subrange(0, i as int).filter(pred).map_values(info_of),
            pred == (|rec: IssueRecord| picks(db.marks(), f@, rec)),
            info_of == (|rec: IssueRecord| rec.info),
        decreases rows@.len() - i,
    {
        let rec = &rows[i];
        let ghost pre = rows@.subrange(0, i as int);
        assert(rows@.subrange(0, i + 1) =~= pre.push(*rec));
        proof {
            pre.lemma_filter_push(*rec, pred);
        }
        assert(rec.info.id == Some((i + 1) as i64));
        let take = picks_row(db, f, rec);
        assert(pred(*rec) == take);
        assert(pre.filter(pred).push(*rec).map_values(info_of) =~= pre.filter(pred).map_values(
            info_of,
        ).push(rec.info));
        if take {
            let c = rec.info.catalog_copy(rec.info.id);
            assert(c == rec.info);
            r.push(c);
        }
        i = i + 1;
    }
    assert(rows@.subrange(0, i as int) =~= rows@);
    r
}

/// The first position of `out` that does not come before `x` in release
/// order.
fn release_slot(out: &Vec<ComicInfo>, x: &ComicInfo, descending: bool) -> (p: usize)
    ensures
        p <= out@.len(),
        forall|q: int| 0 <= q < p ==> release_in_order(out@[q], *x, descending),
        p < out@.len() ==> !release_in_order(out@[p as int], *x, descending),
{
    let mut p: usize = 0;
    while p < out.len() && release_ok(&out[p], x, descending)
        invariant
            p <= out@.len(),
            forall|q: int| 0 <= q < p ==> release_in_order(out@[q], *x, descending),
        decreases out@.len() - p,
    {
        p = p + 1;
    }
    p
}

/// The records of `v` ordered by release date, ascending or descending.
pub fn order_by_release(v: Vec<ComicInfo>, descending: bool) -> (r: Vec<ComicInfo>)
    ensures
        r@.to_multiset() == v@.to_multiset(),
        release_sorted(r@, descending),
{
    let mut rest = v;
    let mut out: Vec<ComicInfo> = Vec::new();
    while rest.len() > 0
        invariant
            out@.to_multiset().add(rest@.to_multiset()) == v@.to_multiset(),
            release_sorted(out@, descending),
        decreases rest@.len(),
    {
        let ghost before = rest@;
        let x = rest.pop().unwrap();
        assert(before =~= rest@.push(x));
        let p = release_slot(&out, &x, descending);
        let ghost old_out = out@;
        out.insert(p, x);
        proof {
            let t = out@;
            old_out.insert_ensures(p as int, x);
            assert forall|a: int, b: int| 0 <= a < b < t.len() implies release_in_order(
                t[a],
                t[b],
                descending,
            ) by {
                if b < p {
                    assert(t[a] == old_out[a] && t[b] == old_out[b]);
                } else if b == p {
                    assert(t[a] == old_out[a]);
                } else if a < p {
                    assert(t[a] == old_out[a]);
                    assert(t[b] == old_out[b - 1]);
                    assert(release_in_order(old_out[a], old_out[b - 1], descending));
                } else if a == p {
                    assert(t[b] == old_out[b - 1]);
                    if b - 1 > p {
                        assert(release_in_order(old_out[p as int], old_out[b - 1], descending));
                    }
                } else {
                    assert(t[a] == old_out[a - 1]);
                    assert(t[b] == old_out[b - 1]);
                    assert(release_in_order(old_out[a - 1], old_out[b - 1], descending));
                }
            }
            assert(out@.to_multiset().add(rest@.to_multiset()) =~= v@.to_multiset());
        }
    }
    assert(rest@.to_multiset() =~= Multiset::empty());
    assert(out@.to_multiset().add(rest@.to_multiset()) =~= out@.to_multiset());
    out
}

pub open spec fn item_views(items: Seq<(String, i64)>) -> Seq<(Seq<char>, i64)> {
    items.map_values(|t: (String, i64)| (t.0@, t.1))
}

/// The first position of `out` whose key does not come before `key`.
fn group_slot(out: &Vec<(String, i64)>, key: &str) -> (p: usize)
    ensures
        p <= out@.len(),
        forall|q: int| 0 <= q < p ==> seq_lt(out@[q].0@, key@),
        p < out@.len() ==> !seq_lt(out@[p as int].0@, key@),
{
    let mut p: usize = 0;
    while p < out.len() && str_lt(out[p].0.as_str(), key)
        invariant
            p <= out@.len(),
            forall|q: int| 0 <= q < p ==> seq_lt(out@[q].0@, key@),
        decreases out@.len() - p,
    {
        p = p + 1;
    }
    p
}

/// Each key of `items` once, in code-point order, with its latest time.
pub fn group_latest(items: &Vec<(String, i64)>) -> (r: Vec<(String, i64)>)
    ensures
        grouped(r@, item_views(items@)),
{
    let ghost all = item_views(items@);
    let mut out: Vec<(String, i64)> = Vec::new();
    let mut i: usize = 0;
    while i < items.len()
        invariant
            i <= items@.len(),
            all == item_views(items@),
            grouped(out@, all.subrange(0, i as int)),
        decreases items@.len() - i,
    {
        let key = items[i].0.clone();
        let t = items[i].1;
        let ghost pre = all.subrange(0, i as int);
        let ghost next = all.subrange(0, i + 1);
        assert(next =~= pre.push((key@, t)));
        let ghost old_out = out@;
        let p = group_slot(&out, key.as_str());
        if p < out.len() && str_eq(out[p].0.as_str(), key.as_str()) {
            let latest = if out[p].1 < t {
                t
            } else {
                out[p].1
            };
            let k2 = out[p].0.clone();
            out[p] = (k2, latest);
            proof {
                let o = out@;
                assert forall|j: int| #![trigger o[j]] 0 <= j < o.len() implies exists|x: int|
                    0 <= x < next.len() && #[trigger] next[x] == (o[j].0@, o[j].1) by {
                    if j == p {
                        if latest == t {
                            assert(next[i as int] == (o[j].0@, o[j].1));
                        } else {
                            let x = choose|x: int|
                                0 <= x < pre.len() && #[trigger] pre[x] == (old_out[j].0@,
                                    old_out[j].1);
                            assert(next[x] == (o[j].0@, o[j].1));
                        }
                    } else {
                        let x = choose|x: int|
                            0 <= x < pre.len() && #[trigger] pre[x] == (old_out[j].0@,
                                old_out[j].1);
                        assert(next[x] == (o[j].0@, o[j].1));
                    }
                }
                assert forall|x: int, j: int|
                    0 <= x < next.len() && 0 <= j < o.len() && #[trigger] next[x].0
                        == #[trigger] o[j].0@ implies next[x].1 <= o[j].1 by {
                    if x < i {
                        assert(pre[x].0 == old_out[j].0@);
                    }
                    if j != p && x == i {
                        crate::text::lemma_lt_irreflexive(key@);
                        if j > p {
                            assert(seq_lt(old_out[p as int].0@, old_out[j].0@));
                        }
                    }
                }
                assert forall|x: int| 0 <= x < next.len() implies exists|j: int|
                    0 <= j < o.len() && o[j].0@ == #[trigger] next[x].0 by {
                    if x < i {
                        let j = choose|j: int| 0 <= j < old_out.len() && old_out[j].0@ == pre[x].0;
                        assert(o[j].0@ == next[x].0);
                    } else {
                        assert(o[p as int].0@ == next[x].0);
                    }
                }
            }
        } else {
            if p < out.len() {
                proof {
                    lemma_lt_total(out@[p as int].0@, key@);
                }
            }
            out.insert(p, (key, t));
            proof {
                let o = out@;
                old_out.insert_ensures(p as int, (key, t));
                assert forall|a: int, b: int| 0 <= a < b < o.len() implies seq_lt(
                    o[a].0@,
                    o[b].0@,
                ) by {
                    if b < p {
                    } else if b == p {
                    } else if a < p {
                        assert(o[b] == old_out[b - 1]);
                        assert(o[a] == old_out[a]);
                    } else if a == p {
                        assert(o[b] == old_out[b - 1]);
                        if b - 1 > p {
                            lemma_lt_transitive(key@, old_out[p as int].0@, old_out[b - 1].0@);
                        }
                    } else {
                        assert(o[a] == old_out[a - 1]);
                        assert(o[b] == old_out[b - 1]);
                    }
                }
                assert forall|j: int| #![trigger o[j]] 0 <= j < o.len() implies exists|x: int|
                    0 <= x < next.len() && #[trigger] next[x] == (o[j].0@, o[j].1) by {
                    if j == p {
                        assert(next[i as int] == (o[j].0@, o[j].1));
                    } else {
                        let jj = if j < p {
                            j
                        } else {
                            j - 1
                        };
                        assert(o[j] == old_out[jj]);
                        let x = choose|x: int|
                            0 <= x < pre.len() && #[trigger] pre[x] == (old_out[jj].0@,
                                old_out[jj].1);
                        assert(next[x] == (o[j].0@, o[j].1));
                    }
                }
                assert forall|x: int, j: int|
                    0 <= x < next.len() && 0 <= j < o.len() && #[trigger] next[x].0
                        == #[trigger] o[j].0@ implies next[x].1 <= o[j].1 by {
                    if j == p {
                        if x < i {
                            let jx = choose|jx: int|
                                0 <= jx < old_out.len() && old_out[jx].0@ == pre[x].0;
                            crate::text::lemma_lt_irreflexive(key@);
                            if jx > p {
                                lemma_lt_transitive(key@, old_out[p as int].0@, old_out[jx].0@);
                            }
                        }
                    } else {
                        let jj = if j < p {
                            j
                        } else {
                            j - 1
                        };
                        assert(o[j] == old_out[jj]);
                        if x < i {
                            assert(pre[x].0 == old_out[jj].0@);
                        } else {
                            if jj < p {
                                crate::text::lemma_lt_irreflexive(key@);
                            } else {
                                crate::text::lemma_lt_irreflexive(key@);
                                if jj > p {
                                    lemma_lt_transitive(key@, old_out[p as int].0@, old_out[jj].0@);
                                }
                            }
                        }
                    }
                }
                assert forall|x: int| 0 <= x < next.len() implies exists|j: int|
                    0 <= j < o.len() && o[j].0@ == #[trigger] next[x].0 by {
                    if x < i {
                        let j = choose|j: int| 0 <= j < old_out.len() && old_out[j].0@ == pre[x].0;
                        if j < p {
                            assert(o[j].0@ == next[x].0);
                        } else {
                            assert(o[j + 1].0@ == next[x].0);
                        }
                    } else {
                        assert(o[p as int].0@ == next[x].0);
                    }
                }
            }
        }
        i = i + 1;
    }
    assert(all.subrange(0, i as int) =~= all);
    out
}

/// A filter that picks every issue.
pub open spec fn every_row() -> RowSelection {
    RowSelection {
        unread_by: None,
        series: None,
        publisher: None,
        publisher_exact: None,
        series_present: false,
        released_after: None,
    }
}

/// A filter that picks the issues that `user_id` has not read.
pub open spec fn unread_rows(user_id: i64) -> RowSelection {
    RowSelection { unread_by: Some(user_id), ..every_row() }
}

impl RowFilter {
    pub fn everything() -> (r: RowFilter)
        ensures
            r@ == every_row(),
    {
        RowFilter {
            unread_by: None,
            series: None,
            publisher: None,
            publisher_exact: None,
            series_present: false,
            released_after: None,
        }
    }
}

fn group_text(o: &Option<String>) -> (r: String)
    ensures
        r@ == group_key(*o),
{
    match o {
        Some(s) => s.clone(),
        None => "None".to_owned(),
    }
}

impl DB {
    /// The key and latest modification time of each group, by `by`, of the
    /// issues that `f` picks, in key order.
    pub fn group_by(&self, f: &RowFilter, by: GroupBy) -> (r: Vec<(String, i64)>)
        requires
            self.wf(),
        ensures
            grouped(r@, group_items(*self, f@, by)),
    {
        let rows = select(self, f);
        let mut items: Vec<(String, i64)> = Vec::new();
        let mut i: usize = 0;
        while i < rows.len()
            invariant
                i <= rows@.len(),
                rows@ == selected(*self, f@),
                item_views(items@) == group_items(*self, f@, by).subrange(0, i as int),
            decreases rows@.len() - i,
        {
            let info = &rows[i];
            let key = match by {
                GroupBy::Series => group_text(&info.series),
                GroupBy::Publisher => group_text(&info.publisher),
            };
            let ghost gi = group_items(*self, f@, by);
            assert(gi.len() == rows@.len());
            assert(group_key(group_field(rows@[i as int], by)) == key@);
            assert(gi[i as int] == (key@, info.modified_at));
            let ghost before = items@;
            items.push((key, info.modified_at));
            assert(item_views(items@) =~= item_views(before).push((key@, info.modified_at)));
            assert(gi.subrange(0, i + 1) =~= gi.subrange(0, i as int).push(gi[i as int]));
            i = i + 1;
        }
        assert(group_items(*self, f@, by).subrange(0, i as int) =~= group_items(*self, f@, by));
        group_latest(&items)
    }

    /// Every issue, in identifier order.
    pub fn get_all(&self) -> (r: Vec<ComicInfo>)
        requires
            self.wf(),
        ensures
            r@ == selected(*self, every_row()),
    {
        select(self, &RowFilter::everything())
    }

    /// Every issue, latest release first.
    pub fn get_recent(&self) -> (r: Vec<ComicInfo>)
        requires
            self.wf(),
        ensures
            r@.to_multiset() == selected(*self, every_row()).to_multiset(),
            release_sorted(r@, true),
    {
        order_by_release(select(self, &RowFilter::everything()), true)
    }

    /// The issues that user `user_id` has not read, earliest release first.
    pub fn get_unread(&self, user_id: i64) -> (r: Vec<ComicInfo>)
        requires
            self.wf(),
        ensures
            r@.to_multiset() == selected(*self, unread_rows(user_id)).to_multiset(),
            release_sorted(r@, false),
    {
        let f = RowFilter { unread_by: Some(user_id), ..RowFilter::everything() };
        order_by_release(select(self, &f), false)
    }

    /// The issues of series `series` (`None`: also those without a series)
    /// that user `user_id` has not read, earliest release first.
    pub fn get_unread_for_series(&self, user_id: i64, series: &str) -> (r: Vec<ComicInfo>)
        requires
            self.wf(),
        ensures
            r@.to_multiset() == selected(
                *self,
                RowSelection { unread_by: Some(user_id), series: Some(series@), ..every_row() },
            ).to_multiset(),
            release_sorted(r@, false),
    {
        let f = RowFilter {
            unread_by: Some(user_id),
            series: Some(series.to_owned()),
            ..RowFilter::everything()
        };
        order_by_release(select(self, &f), false)
    }

    /// The issues of publisher `publisher` and series `series`, where the
    /// key `None` also matches an absent field, in identifier order.
    pub fn get_for_publisher_series(&self, publisher: &str, series: &str) -> (r: Vec<ComicInfo>)
        requires
            self.wf(),
        ensures
            r@ == selected(
                *self,
                RowSelection { publisher: Some(publisher@), series: Some(series@), ..every_row() },
            ),
    {
        let f = RowFilter {
            publisher: Some(publisher.to_owned()),
            series: Some(series.to_owned()),
            ..RowFilter::everything()
        };
        select(self, &f)
    }

    /// The series of the issues that user `user_id` has not read, each
    /// with its latest modification time, in key order.
    pub fn get_unread_series(&self, user_id: i64) -> (r: Vec<(String, i64)>)
        requires
            self.wf(),
        ensures
            grouped(r@, group_items(*self, unread_rows(user_id), GroupBy::Series)),
    {
        let f = RowFilter { unread_by: Some(user_id), ..RowFilter::everything() };
        self.group_by(&f, GroupBy::Series)
    }

    /// The series of the issues released after `cutoff` that user
    /// `user_id` has not read, each with its latest modification time.
    pub fn get_recent_unread_series(&self, user_id: i64, cutoff: Date) -> (r: Vec<(String, i64)>)
        requires
            self.wf(),
        ensures
            grouped(
                r@,
                group_items(
                    *self,
                    RowSelection {
                        unread_by: Some(user_id),
                        series_present: true,
                        released_after: Some(cutoff),
                        ..every_row()
                    },
                    GroupBy::Series,
                ),
            ),
    {
        let f = RowFilter {
            unread_by: Some(user_id),
            series_present: true,
            released_after: Some(cutoff),
            ..RowFilter::everything()
        };
        self.group_by(&f, GroupBy::Series)
    }

    /// The publishers, each with its latest modification time.
    pub fn get_publishers(&self) -> (r: Vec<(String, i64)>)
        requires
            self.wf(),
        ensures
            grouped(r@, group_items(*self, every_row(), GroupBy::Publisher)),
    {
        self.group_by(&RowFilter::everything(), GroupBy::Publisher)
    }

    /// The series of publisher `publisher`, each with its latest
    /// modification time.
    pub fn get_series_for_publisher(&self, publisher: &str) -> (r: Vec<(String, i64)>)
        requires
            self.wf(),
        ensures
            grouped(
                r@,
                group_items(
                    *self,
                    RowSelection { publisher_exact: Some(publisher@), ..every_row() },
                    GroupBy::Series,
                ),
            ),
    {
        let f = RowFilter { publisher_exact: Some(publisher.to_owned()), ..RowFilter::everything() };
        self.group_by(&f, GroupBy::Series)
    }
}

/// After user `user_id` marks issue `issue_id` read, the issues unread by
/// that user leave it out, and those unread by any other user stay as they
/// were.
pub proof fn mark_read_hides_issue(
    db0: &DB,
    db1: &DB,
    issue_id: i64,
    user_id: i64,
    read_at: i64,
    other: i64,
)
    requires
        db0.wf(),
        db1.wf(),
        forall|u: i64, i: i64|
            #[trigger] db1.read_time(u, i) == (if u == user_id && i == issue_id {
                Some(read_at)
            } else {
                db0.read_time(u, i)
            }),
        db1.issue_rows() == db0.issue_rows(),
    ensures
        forall|j: int|
            0 <= j < selected(*db1, unread_rows(user_id)).len() ==> (#[trigger] selected(
                *db1,
                unread_rows(user_id),
            )[j]).id != Some(issue_id),
        other != user_id ==> selected(*db1, unread_rows(other)) == selected(
            *db0,
            unread_rows(other),
        ),
{
    let f = unread_rows(user_id);
    let pred = |rec: IssueRecord| picks(db1.marks(), f, rec);
    let kept = db1.issue_rows().filter(pred);
    assert forall|j: int| 0 <= j < selected(*db1, f).len() implies (#[trigger] selected(
        *db1,
        f,
    )[j]).id != Some(issue_id) by {
        kept.lemma_filter_len(pred);
        db1.issue_rows().lemma_filter_pred(pred, j);
        assert(pred(kept[j]));
        assert(db1.read_time(user_id, issue_id) == Some(read_at));
    }
    if other != user_id {
        let g = unread_rows(other);
        let picks_after = |rec: IssueRecord| picks(db1.marks(), g, rec);
        let picks_before = |rec: IssueRecord| picks(db0.marks(), g, rec);
        assert forall|rec: IssueRecord| #[trigger] picks_after(rec) == picks_before(rec) by {
            assert(db1.read_time(other, rec.info.id.unwrap()) == db0.read_time(
                other,
                rec.info.id.unwrap(),
            ));
        }
        assert(picks_after =~= picks_before);
    }
}

/// A single issue forms a single group: its key with its modification time.
pub proof fn single_item_single_group(r: Seq<(String, i64)>, key: Seq<char>, time: i64)
    requires
        grouped(r, seq![(key, time)]),
    ensures
        r.len() == 1,
        r[0].0@ == key,
        r[0].1 == time,
{
    let items = seq![(key, time)];
    assert(items.len() == 1 && items[0] == (key, time));
    assert(grouped(r, items));
    assert(items[0].0 == key);
    assert(r.len() >= 1) by {
        if r.len() == 0 {
            assert(!(exists|j: int| 0 <= j < r.len() && r[j].0@ == #[trigger] items[0].0));
        }
    }
    if r.len() > 1 {
        assert(exists|i: int| 0 <= i < items.len() && #[trigger] items[i] == (r[0].0@, r[0].1));
        assert(exists|i: int| 0 <= i < items.len() && #[trigger] items[i] == (r[1].0@, r[1].1));
        assert(seq_lt(r[0].0@, r[1].0@));
        crate::text::lemma_lt_irreflexive(key);
    }
    assert(exists|i: int| 0 <= i < items.len() && #[trigger] items[i] == (r[0].0@, r[0].1));
}

/// A store whose one issue, of series `series`, user `user_id` has not read
/// lists for that user exactly one unread series: `series`, with that
/// issue's modification time.
pub proof fn one_unread_issue_one_series(db: &DB, user_id: i64, series: Seq<char>, r: Seq<(String, i64)>)
    requires
        db.wf(),
        db.issue_rows().len() == 1,
        opt_view(db.issue_rows()[0].info.series) == Some(series),
        !db.is_read(user_id, 1),
        grouped(r, group_items(*db, unread_rows(user_id), GroupBy::Series)),
    ensures
        r.len() == 1,
        r[0].0@ == series,
        r[0].1 == db.issue_rows()[0].info.modified_at,
{
    let rows = db.issue_rows();
    let rec = rows[0];
    let pred = |x: IssueRecord| picks(db.marks(), unread_rows(user_id), x);
    assert(rows =~= Seq::<IssueRecord>::empty().push(rec));
    Seq::<IssueRecord>::empty().lemma_filter_push(rec, pred);
    assert(Seq::<IssueRecord>::empty().filter(pred) =~= Seq::<IssueRecord>::empty());
    assert(rec.info.id == Some(1i64));
    assert(pred(rec));
    assert(rows.filter(pred) =~= seq![rec]);
    let t = rec.info.modified_at;
    assert(group_key(rec.info.series) == series);
    assert(group_items(*db, unread_rows(user_id), GroupBy::Series) =~= seq![(series, t)]);
    single_item_single_group(r, series, t);
}

} // verus!
