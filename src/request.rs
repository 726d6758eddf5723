use base64::Engine;
use vstd::prelude::*;
use vstd::string::*;

use crate::metadata::opt_view;
use crate::text::{i32_of, i64_of, parse_i32, parse_i64, str_eq};

verus! {

pub open spec fn views(v: Seq<String>) -> Seq<Seq<char>> {
    v.map_values(|x: String| x@)
}

/// The parts of `s` between slashes, as `str::split('/')` gives them.
pub open spec fn segments(s: Seq<char>) -> Seq<Seq<char>>
    decreases s.len(),
{
    if s.len() == 0 {
        seq![Seq::empty()]
    } else {
        let p = segments(s.drop_last());
        if s.last() == '/' {
            p.push(Seq::empty())
        } else {
            p.update(p.len() - 1, p.last().push(s.last()))
        }
    }
}

/// Splits `s` at each slash.
pub fn split_path(s: &str) -> (r: Vec<String>)
    ensures
        views(r@) == segments(s@),
{
    let n = s.unicode_len();
    let mut segs: Vec<String> = Vec::new();
    let mut start: usize = 0;
    let mut i: usize = 0;
    assert(s@.subrange(0, 0) =~= Seq::<char>::empty());
    assert(views(segs@).push(s@.subrange(0, 0)) =~= seq![Seq::<char>::empty()]);
    while i < n
        invariant
            i <= n,
            start <= i,
            n == s@.len(),
            segments(s@.subrange(0, i as int)) == views(segs@).push(s@.subrange(start as int, i as int)),
        decreases n - i,
    {
        let c = s.get_char(i);
        let ghost t = s@.subrange(0, i + 1);
        let ghost before = views(segs@);
        assert(t.drop_last() =~= s@.subrange(0, i as int));
        assert(t.last() == c);
        if c == '/' {
            let part = s.substring_char(start, i).to_owned();
            segs.push(part);
            assert(views(segs@) =~= before.push(s@.subrange(start as int, i as int)));
            start = i + 1;
            assert(s@.subrange(start as int, i + 1) =~= Seq::<char>::empty());
        } else {
            let ghost p = before.push(s@.subrange(start as int, i as int));
            assert(s@.subrange(start as int, i + 1) =~= s@.subrange(start as int, i as int).push(c));
            assert(p.update(p.len() - 1, p.last().push(c)) =~= before.push(
                s@.subrange(start as int, i + 1),
            ));
        }
        i = i + 1;
    }
    let last = s.substring_char(start, n).to_owned();
    let ghost before = views(segs@);
    segs.push(last);
    assert(s@.subrange(0, n as int) =~= s@);
    assert(views(segs@) =~= before.push(s@.subrange(start as int, n as int)));
    segs
}

/// A request of the feed service, by its path.
#[derive(Debug, PartialEq, Eq)]
pub enum Route {
    /// `/`: the top navigation feed.
    Navigation,
    /// `/all`
    All,
    /// `/recent`
    Recent,
    /// `/publishers`
    Publishers,
    /// `/publishers/<publisher>`: that publisher's series.
    PublisherSeries(String),
    /// `/publishers/<publisher>/<series>`: the issues of that series.
    PublisherIssues(String, String),
    /// `/unread`: the series with unread issues.
    UnreadSeries,
    /// `/unread/<series>`: the unread issues of that series.
    UnreadIssues(String),
    /// `/unread_all`
    UnreadAll,
    /// `/comic/<id>`: the archive file of an issue.
    Download(i64),
    /// `/stream/<id>/<page>`: one page of an issue.
    Stream(i64, i32),
    /// Anything else, or an identifier or page that is no number.
    NotFound,
}

/// A `Route` over character sequences.
pub enum RouteView {
    Navigation,
    All,
    Recent,
    Publishers,
    PublisherSeries(Seq<char>),
    PublisherIssues(Seq<char>, Seq<char>),
    UnreadSeries,
    UnreadIssues(Seq<char>),
    UnreadAll,
    Download(i64),
    Stream(i64, i32),
    NotFound,
}

impl View for Route {
    type V = RouteView;

    open spec fn view(&self) -> RouteView {
        match self {
            Route::Navigation => RouteView::Navigation,
            Route::All => RouteView::All,
            Route::Recent => RouteView::Recent,
            Route::Publishers => RouteView::Publishers,
            Route::PublisherSeries(p) => RouteView::PublisherSeries(p@),
            Route::PublisherIssues(p, s) => RouteView::PublisherIssues(p@, s@),
            Route::UnreadSeries => RouteView::UnreadSeries,
            Route::UnreadIssues(s) => RouteView::UnreadIssues(s@),
            Route::UnreadAll => RouteView::UnreadAll,
            Route::Download(id) => RouteView::Download(*id),
            Route::Stream(id, page) => RouteView::Stream(*id, *page),
            Route::NotFound => RouteView::NotFound,
        }
    }
}

/// The request that the parts of a decoded path name; the part before the
/// first slash is ignored.
pub open spec fn route_of(segs: Seq<Seq<char>>) -> RouteView {
    if segs.len() < 2 || segs[1] == Seq::<char>::empty() {
        RouteView::Navigation
    } else if segs[1] == "all"@ {
        RouteView::All
    } else if segs[1] == "recent"@ {
        RouteView::Recent
    } else if segs[1] == "publishers"@ {
        if segs.len() < 3 {
            RouteView::Publishers
        } else if segs.len() < 4 {
            RouteView::PublisherSeries(segs[2])
        } else {
            RouteView::PublisherIssues(segs[2], segs[3])
        }
    } else if segs[1] == "unread"@ {
        if segs.len() < 3 {
            RouteView::UnreadSeries
        } else {
            RouteView::UnreadIssues(segs[2])
        }
    } else if segs[1] == "unread_all"@ {
        RouteView::UnreadAll
    } else if segs[1] == "comic"@ {
        if segs.len() >= 3 && i64_of(segs[2]) is Some {
            RouteView::Download(i64_of(segs[2]).unwrap())
        } else {
            RouteView::NotFound
        }
    } else if segs[1] == "stream"@ {
        if segs.len() >= 4 && i64_of(segs[2]) is Some && i32_of(segs[3]) is Some {
            RouteView::Stream(i64_of(segs[2]).unwrap(), i32_of(segs[3]).unwrap())
        } else {
            RouteView::NotFound
        }
    } else {
        RouteView::NotFound
    }
}

/// The request that a decoded path names.
pub fn route_decoded(path: &str) -> (r: Route)
    ensures
        r@ == route_of(segments(path@)),
{
    let segs = split_path(path);
    assert(views(segs@).len() == segs@.len());
    if segs.len() < 2 || segs[1].unicode_len() == 0 {
        proof {
            if segs@.len() >= 2 {
                assert(views(segs@)[1] =~= Seq::<char>::empty());
            }
        }
        return Route::Navigation;
    }
    assert(views(segs@)[1] != Seq::<char>::empty());
    let s1 = segs[1].as_str();
    if str_eq(s1, "all") {
        Route::All
    } else if str_eq(s1, "recent") {
        Route::Recent
    } else if str_eq(s1, "publishers") {
        if segs.len() < 3 {
            Route::Publishers
        } else if segs.len() < 4 {
            Route::PublisherSeries(segs[2].clone())
        } else {
            Route::PublisherIssues(segs[2].clone(), segs[3].clone())
        }
    } else if str_eq(s1, "unread") {
        if segs.len() < 3 {
            Route::UnreadSeries
        } else {
            Route::UnreadIssues(segs[2].clone())
        }
    } else if str_eq(s1, "unread_all") {
        Route::UnreadAll
    } else if str_eq(s1, "comic") {
        if segs.len() >= 3 {
            match parse_i64(segs[2].as_str()) {
                Some(id) => Route::Download(id),
                None => Route::NotFound,
            }
        } else {
            Route::NotFound
        }
    } else if str_eq(s1, "stream") {
        if segs.len() >= 4 {
            match (parse_i64(segs[2].as_str()), parse_i32(segs[3].as_str())) {
                (Some(id), Some(page)) => Route::Stream(id, page),
                _ => Route::NotFound,
            }
        } else {
            Route::NotFound
        }
    } else {
        Route::NotFound
    }
}

/// A request path with its percent escapes decoded, as UTF-8 with invalid
/// sequences replaced.
pub uninterp spec fn percent_decoded_of(path: Seq<char>) -> Seq<char>;

/// Relies on percent_encoding::percent_decode and decode_utf8_lossy: the
/// text that a path's bytes give once escapes are decoded.
#[verifier::external_body]
fn percent_decoded(path: &str) -> (r: String)
    ensures
        r@ == percent_decoded_of(path@),
{
    percent_encoding::percent_decode(path.as_bytes()).decode_utf8_lossy().into_owned()
}

/// The request that a path names, once its escapes are decoded.
pub fn route(path: &str) -> (r: Route)
    ensures
        r@ == route_of(segments(percent_decoded_of(path@))),
{
    let decoded = percent_decoded(path);
    route_decoded(decoded.as_str())
}

/// Group 1 of the first match of a regular expression in a text.
pub uninterp spec fn regex_capture_of(pattern: Seq<char>, text: Seq<char>) -> Option<Seq<char>>;

/// Relies on regex::Regex::new and Regex::captures: group 1 of the first
/// match of `pattern` in `text`; none where the pattern does not compile,
/// nothing matches, or the group takes no part.
#[verifier::external_body]
fn regex_capture(pattern: &str, text: &str) -> (r: Option<String>)
    ensures
        opt_view(r) == regex_capture_of(pattern@, text@),
{
    match regex::Regex::new(pattern) {
        Ok(re) => match re.captures(text) {
            Some(c) => c.get(1).map(|m| m.as_str().to_owned()),
            None => None,
        },
        Err(_) => None,
    }
}

/// The bytes that standard, padded base64 text encodes.
pub uninterp spec fn base64_decoded_of(text: Seq<char>) -> Option<Seq<u8>>;

/// Relies on base64's STANDARD engine `decode`: the bytes that the text
/// encodes; none where it is not valid standard base64.
#[verifier::external_body]
fn base64_decode(text: &str) -> (r: Option<Vec<u8>>)
    ensures
        match r {
            Some(v) => base64_decoded_of(text@) == Some(v@),
            None => base64_decoded_of(text@) is None,
        },
{
    match base64::engine::general_purpose::STANDARD.decode(text) {
        Ok(v) => Some(v),
        Err(_) => None,
    }
}

/// The text that bytes encode as UTF-8.
pub uninterp spec fn utf8_text_of(bytes: Seq<u8>) -> Option<Seq<char>>;

/// Relies on String::from_utf8: the text, or none where the bytes are not
/// valid UTF-8.
#[verifier::external_body]
fn utf8_text(bytes: Vec<u8>) -> (r: Option<String>)
    ensures
        opt_view(r) == utf8_text_of(bytes@),
{
    match String::from_utf8(bytes) {
        Ok(s) => Some(s),
        Err(_) => None,
    }
}

/// `i` is the position of the first colon of `s`.
pub open spec fn first_colon(s: Seq<char>, i: int) -> bool {
    0 <= i < s.len() && s[i] == ':' && forall|j: int| 0 <= j < i ==> s[j] != ':'
}

/// User name and password: the text before the first colon and after it;
/// none where there is no colon.
pub open spec fn credentials_of(s: Seq<char>) -> Option<(Seq<char>, Seq<char>)> {
    if exists|i: int| first_colon(s, i) {
        let i = choose|i: int| first_colon(s, i);
        Some((s.subrange(0, i), s.subrange(i + 1, s.len() as int)))
    } else {
        None
    }
}

pub open spec fn pair_view(p: Option<(String, String)>) -> Option<(Seq<char>, Seq<char>)> {
    match p {
        Some((a, b)) => Some((a@, b@)),
        None => None,
    }
}

/// Splits decoded credentials at their first colon.
pub fn split_credentials(s: &str) -> (r: Option<(String, String)>)
    ensures
        pair_view(r) == credentials_of(s@),
{
    let n = s.unicode_len();
    let mut i: usize = 0;
    while i < n
        invariant
            i <= n,
            n == s@.len(),
            forall|j: int| 0 <= j < i ==> s@[j] != ':',
        decreases n - i,
    {
        if s.get_char(i) == ':' {
            proof {
                assert(first_colon(s@, i as int));
                let k = choose|k: int| first_colon(s@, k);
                assert(k == i) by {
                    if k < i {
                        assert(s@[k] != ':');
                    } else if k > i {
                        assert(s@[i as int] != ':');
                    }
                }
            }
            let user = s.substring_char(0, i).to_owned();
            let password = s.substring_char(i + 1, n).to_owned();
            return Some((user, password));
        }
        i = i + 1;
    }
    proof {
        assert forall|k: int| !first_colon(s@, k) by {
            if 0 <= k < n {
                assert(s@[k] != ':');
            }
        }
    }
    None
}

/// The user name and password that a Basic authorization header carries.
pub open spec fn auth_of(header: Seq<char>) -> Option<(Seq<char>, Seq<char>)> {
    match regex_capture_of("Basic (.*)$"@, header) {
        Some(c) => match base64_decoded_of(c) {
            Some(b) => match utf8_text_of(b) {
                Some(t) => credentials_of(t),
                None => None,
            },
            None => None,
        },
        None => None,
    }
}

/// The user name and password of a Basic authorization header.
pub fn parse_auth_header(auth: &str) -> (r: Option<(String, String)>)
    ensures
        pair_view(r) == auth_of(auth@),
{
    let encoded = match regex_capture("Basic (.*)$", auth) {
        Some(c) => c,
        None => {
            return None;
        },
    };
    let bytes = match base64_decode(encoded.as_str()) {
        Some(b) => b,
        None => {
            return None;
        },
    };
    let text = match utf8_text(bytes) {
        Some(t) => t,
        None => {
            return None;
        },
    };
    split_credentials(text.as_str())
}

} // verus!
