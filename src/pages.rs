use vstd::prelude::*;

use crate::text::{
    ends_with3, has_suffix3, lemma_lt_asymmetric, lemma_lt_irreflexive, lemma_lt_total,
    lemma_lt_transitive, seq_lt, str_lt,
};

verus! {

/// An entry name that ends in a raster-image suffix.
pub open spec fn is_image(s: Seq<char>) -> bool {
    ends_with3(s, 'j', 'p', 'g') || ends_with3(s, 'g', 'i', 'f') || ends_with3(s, 'p', 'n', 'g')
}

pub fn is_image_name(s: &str) -> (r: bool)
    ensures
        r == is_image(s@),
{
    has_suffix3(s, 'j', 'p', 'g') || has_suffix3(s, 'g', 'i', 'f') || has_suffix3(s, 'p', 'n', 'g')
}

/// Some string of `s` holds the characters `y`.
pub open spec fn contains_name(s: Seq<String>, y: Seq<char>) -> bool {
    exists|q: int| 0 <= q < s.len() && s[q]@ == y
}

/// The image names among the entries `names`.
pub open spec fn image_names(names: Seq<String>) -> Set<Seq<char>> {
    Set::new(|y: Seq<char>| is_image(y) && contains_name(names, y))
}

/// How many pages entries `names` give.
pub open spec fn page_total(names: Seq<String>) -> int {
    image_names(names).len() as int
}

/// How many pages come before the entry `e`.
pub open spec fn page_rank(names: Seq<String>, e: Seq<char>) -> int {
    image_names(names).filter(|y: Seq<char>| seq_lt(y, e)).len() as int
}

pub open spec fn strictly_sorted(s: Seq<String>) -> bool {
    forall|a: int, b: int| 0 <= a < b < s.len() ==> seq_lt(s[a]@, s[b]@)
}

/// `ps` is the page sequence of the entries `names`: their image names,
/// each once, in code-point order.
pub open spec fn is_page_order(ps: Seq<String>, names: Seq<String>) -> bool {
    &&& strictly_sorted(ps)
    &&& forall|y: Seq<char>| #[trigger] contains_name(ps, y) <==> image_names(names).contains(y)
}

proof fn lemma_insert_sorted(out: Seq<String>, p: int, x: String)
    requires
        strictly_sorted(out),
        0 <= p <= out.len(),
        forall|q: int| 0 <= q < p ==> seq_lt(out[q]@, x@),
        p < out.len() ==> seq_lt(x@, out[p]@),
    ensures
        strictly_sorted(out.insert(p, x)),
        forall|y: Seq<char>|
            #[trigger] contains_name(out.insert(p, x), y) <==> (contains_name(out, y) || y == x@),
{
    let t = out.insert(p, x);
    out.insert_ensures(p, x);
    assert forall|a: int, b: int| 0 <= a < b < t.len() implies seq_lt(t[a]@, t[b]@) by {
        if b < p {
        } else if b == p {
        } else if a < p {
            assert(t[b] == out[b - 1]);
        } else if a == p {
            assert(t[b] == out[b - 1]);
            if b - 1 > p {
                lemma_lt_transitive(x@, out[p]@, out[b - 1]@);
            }
        } else {
            assert(t[a] == out[a - 1]);
            assert(t[b] == out[b - 1]);
        }
    }
    assert forall|y: Seq<char>| contains_name(t, y) <==> (contains_name(out, y) || y == x@) by {
        if contains_name(t, y) {
            let q = choose|q: int| 0 <= q < t.len() && t[q]@ == y;
            if q < p {
                assert(out[q]@ == y);
            } else if q > p {
                assert(out[q - 1]@ == y);
            }
        }
        if contains_name(out, y) {
            let q = choose|q: int| 0 <= q < out.len() && out[q]@ == y;
            if q < p {
                assert(t[q]@ == y);
            } else {
                assert(t[q + 1]@ == y);
            }
        }
        if y == x@ {
            assert(t[p]@ == y);
        }
    }
}

/// The first position of `out` whose name does not come before `x`.
fn slot_for(out: &Vec<String>, x: &str) -> (p: usize)
    ensures
        p <= out@.len(),
        forall|q: int| 0 <= q < p ==> seq_lt(out@[q]@, x@),
        p < out@.len() ==> !seq_lt(out@[p as int]@, x@),
{
    let mut p: usize = 0;
    while p < out.len() && str_lt(out[p].as_str(), x)
        invariant
            p <= out@.len(),
            forall|q: int| 0 <= q < p ==> seq_lt(out@[q]@, x@),
        decreases out@.len() - p,
    {
        p = p + 1;
    }
    p
}

/// The page sequence of the entries `names`, which are pairwise different.
pub fn sorted_pages(names: &Vec<String>) -> (r: Vec<String>)
    requires
        forall|a: int, b: int| 0 <= a < b < names@.len() ==> names@[a]@ != names@[b]@,
    ensures
        is_page_order(r@, names@),
{
    let mut out: Vec<String> = Vec::new();
    let mut i: usize = 0;
    while i < names.len()
        invariant
            i <= names@.len(),
            forall|a: int, b: int| 0 <= a < b < names@.len() ==> names@[a]@ != names@[b]@,
            strictly_sorted(out@),
            forall|y: Seq<char>|
                #[trigger] contains_name(out@, y) <==> (is_image(y) && contains_name(
                    names@.subrange(0, i as int),
                    y,
                )),
        decreases names@.len() - i,
    {
        let ghost pre = names@.subrange(0, i as int);
        let ghost next = names@.subrange(0, i + 1);
        let ghost old_out = out@;
        assert forall|y: Seq<char>| #[trigger] contains_name(next, y) <==> (contains_name(pre, y) || y
            == names@[i as int]@) by {
            if contains_name(next, y) {
                let q = choose|q: int| 0 <= q < next.len() && next[q]@ == y;
                if q < i {
                    assert(pre[q]@ == y);
                }
            }
            if contains_name(pre, y) {
                let q = choose|q: int| 0 <= q < pre.len() && pre[q]@ == y;
                assert(next[q]@ == y);
            }
            if y == names@[i as int]@ {
                assert(next[i as int]@ == y);
            }
        }
        let took = is_image_name(names[i].as_str());
        if took {
            let x = &names[i];
            assert(!contains_name(out@, x@)) by {
                if contains_name(out@, x@) {
                    let q = choose|q: int| 0 <= q < pre.len() && pre[q]@ == x@;
                    assert(names@[q]@ != names@[i as int]@);
                }
            }
            let p = slot_for(&out, x.as_str());
            if p < out.len() {
                assert(out@[p as int]@ != x@) by {
                    if out@[p as int]@ == x@ {
                        assert(contains_name(out@, x@));
                    }
                }
                proof {
                    lemma_lt_total(out@[p as int]@, x@);
                }
            }
            proof {
                lemma_insert_sorted(out@, p as int, *x);
            }
            out.insert(p, x.clone());
        }
        assert forall|y: Seq<char>|
            #[trigger] contains_name(out@, y) <==> (is_image(y) && contains_name(next, y)) by {
            assert(contains_name(next, y) <==> (contains_name(pre, y) || y == names@[i as int]@));
            assert(contains_name(old_out, y) <==> (is_image(y) && contains_name(pre, y)));
            if took {
                assert(contains_name(out@, y) <==> (contains_name(old_out, y) || y
                    == names@[i as int]@));
            } else {
                assert(out@ == old_out);
            }
        }
        i = i + 1;
    }
    assert(names@.subrange(0, i as int) =~= names@);
    assert forall|y: Seq<char>| #[trigger]
        contains_name(out@, y) <==> image_names(names@).contains(y) by {
    }
    out
}

/// What the page order gives: there are as many pages as image names, and
/// the page at position `p` has `p` image names before it.
pub proof fn lemma_page_order_counts(ps: Seq<String>, names: Seq<String>, p: int)
    requires
        is_page_order(ps, names),
        0 <= p < ps.len(),
    ensures
        image_names(names).finite(),
        page_total(names) == ps.len(),
        page_rank(names, ps[p]@) == p,
        image_names(names).contains(ps[p]@),
{
    let v = ps.map_values(|x: String| x@);
    assert forall|a: int, b: int| 0 <= a < v.len() && 0 <= b < v.len() && a != b implies v[a]
        != v[b] by {
        if a < b {
            assert(seq_lt(v[a], v[b]));
            lemma_lt_irreflexive(v[a]);
        } else {
            assert(seq_lt(v[b], v[a]));
            lemma_lt_irreflexive(v[b]);
        }
    }
    assert(v.no_duplicates());
    assert forall|y: Seq<char>| image_names(names).contains(y) <==> v.to_set().contains(y) by {
        if contains_name(ps, y) {
            let q = choose|q: int| 0 <= q < ps.len() && ps[q]@ == y;
            assert(v[q] == y);
        }
        if v.to_set().contains(y) {
            let q = choose|q: int| 0 <= q < v.len() && v[q] == y;
            assert(ps[q]@ == y);
            assert(contains_name(ps, y));
        }
    }
    assert(image_names(names) =~= v.to_set());
    v.unique_seq_to_set();
    assert(contains_name(ps, ps[p]@));
    let w = v.subrange(0, p);
    assert(w.no_duplicates());
    let e = ps[p]@;
    let f = image_names(names).filter(|y: Seq<char>| seq_lt(y, e));
    assert forall|y: Seq<char>| #[trigger] f.contains(y) <==> w.to_set().contains(y) by {
        if image_names(names).contains(y) && seq_lt(y, e) {
            let q = choose|q: int| 0 <= q < v.len() && v[q] == y;
            if q == p {
                lemma_lt_irreflexive(e);
            } else if q > p {
                lemma_lt_asymmetric(e, y);
            }
            assert(w[q] == y);
        }
        if w.to_set().contains(y) {
            let q = choose|q: int| 0 <= q < w.len() && w[q] == y;
            assert(v[q] == y);
            assert(v.to_set().contains(y));
        }
    }
    assert(f =~= w.to_set());
    w.unique_seq_to_set();
}

/// With no pages in order, there are no image names.
pub proof fn lemma_page_order_empty(ps: Seq<String>, names: Seq<String>)
    requires
        is_page_order(ps, names),
        ps.len() == 0,
    ensures
        image_names(names).finite(),
        page_total(names) == 0,
{
    assert forall|y: Seq<char>| !image_names(names).contains(y) by {
        assert(!contains_name(ps, y));
    }
    assert(image_names(names) =~= Set::empty());
}

} // verus!
