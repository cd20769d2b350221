use vstd::prelude::*;

use crate::bound::BoundView;
use crate::errors::PaginateError;
use crate::paginate::query_post;
use crate::paginate::transform_ok;
use crate::types::PaginationResponse;
use crate::model::admits;
use crate::model::capped;
use crate::model::matching;
use crate::model::page_has_more;
use crate::model::page_window;
use crate::model::str_lt;
use crate::model::strict_ascending;
use crate::model::under_prefix;
use crate::model::Entry;

verus! {

proof fn lemma_str_lt_irrefl(a: Seq<char>)
    ensures
        !str_lt(a, a),
    decreases a.len(),
{
    if a.len() > 0 {
        lemma_str_lt_irrefl(a.skip(1));
    }
}

proof fn lemma_str_lt_asym(a: Seq<char>, b: Seq<char>)
    requires
        str_lt(a, b),
    ensures
        !str_lt(b, a),
    decreases a.len(),
{
    if a.len() > 0 && b.len() > 0 && a[0] == b[0] {
        lemma_str_lt_asym(a.skip(1), b.skip(1));
    }
}

proof fn lemma_str_lt_trans(a: Seq<char>, b: Seq<char>, c: Seq<char>)
    requires
        str_lt(a, b),
        str_lt(b, c),
    ensures
        str_lt(a, c),
    decreases a.len(),
{
    if a.len() > 0 && b.len() > 0 && c.len() > 0 && a[0] == b[0] && b[0] == c[0] {
        lemma_str_lt_trans(a.skip(1), b.skip(1), c.skip(1));
    }
}

proof fn lemma_admits_upward(b: BoundView, k1: Seq<char>, k2: Seq<char>)
    requires
        admits(b, k1),
        str_lt(k1, k2),
    ensures
        admits(b, k2),
{
    match b {
        BoundView::Unbounded => {},
        BoundView::Inclusive(s) => {
            if str_lt(k2, s) {
                lemma_str_lt_trans(k1, k2, s);
            }
        },
        BoundView::Exclusive(s) => {
            lemma_str_lt_trans(s, k1, k2);
        },
    }
}

proof fn lemma_matching_contains(items: Seq<Entry>, b: BoundView, e: Entry)
    requires
        matching(items, b).contains(e),
    ensures
        items.contains(e),
        admits(b, e.0),
    decreases items.len(),
{
    if items.len() > 0 {
        let tail = items.skip(1);
        if admits(b, items[0].0) && e == items[0] {
            assert(items[0] == e);
        } else {
            if admits(b, items[0].0) {
                let m = matching(items, b);
                let j = choose|j: int| 0 <= j < m.len() && m[j] == e;
                assert(matching(tail, b)[j - 1] == e);
                assert(matching(tail, b).contains(e));
            }
            lemma_matching_contains(tail, b, e);
            let t = choose|t: int| 0 <= t < tail.len() && tail[t] == e;
            assert(items[t + 1] == e);
        }
    }
}

proof fn lemma_under_prefix_contains(
    pairs: Seq<((Seq<char>, Seq<char>), u128)>,
    p: Seq<char>,
    e: Entry,
)
    requires
        under_prefix(pairs, p).contains(e),
    ensures
        pairs.contains(((p, e.0), e.1)),
    decreases pairs.len(),
{
    if pairs.len() > 0 {
        let tail = pairs.skip(1);
        if pairs[0].0.0 == p && e == (pairs[0].0.1, pairs[0].1) {
            assert(pairs[0] == ((p, e.0), e.1));
        } else {
            if pairs[0].0.0 == p {
                let m = under_prefix(pairs, p);
                let j = choose|j: int| 0 <= j < m.len() && m[j] == e;
                assert(under_prefix(tail, p)[j - 1] == e);
                assert(under_prefix(tail, p).contains(e));
            }
            lemma_under_prefix_contains(tail, p, e);
            let t = choose|t: int| 0 <= t < tail.len() && tail[t] == ((p, e.0), e.1);
            assert(pairs[t + 1] == ((p, e.0), e.1));
        }
    }
}

proof fn lemma_matching_all(items: Seq<Entry>, b: BoundView)
    requires
        forall|i: int| 0 <= i < items.len() ==> admits(b, (#[trigger] items[i]).0),
    ensures
        matching(items, b) == items,
    decreases items.len(),
{
    if items.len() == 0 {
        assert(matching(items, b) =~= items);
    } else {
        let tail = items.skip(1);
        assert(forall|i: int| 0 <= i < tail.len() ==> admits(b, (#[trigger] tail[i]).0));
        lemma_matching_all(tail, b);
        assert(matching(items, b) =~= items);
    }
}

proof fn lemma_matching_split_at(items: Seq<Entry>, b: BoundView, m: int)
    requires
        0 <= m <= items.len(),
        forall|j: int| 0 <= j < m ==> !admits(b, (#[trigger] items[j]).0),
        forall|j: int| m <= j < items.len() ==> admits(b, (#[trigger] items[j]).0),
    ensures
        matching(items, b) == items.skip(m),
    decreases m,
{
    if m == 0 {
        lemma_matching_all(items, b);
        assert(items.skip(0) =~= items);
    } else {
        let tail = items.skip(1);
        assert(forall|j: int| 0 <= j < m - 1 ==> !admits(b, (#[trigger] tail[j]).0));
        assert(forall|j: int| m - 1 <= j < tail.len() ==> admits(b, (#[trigger] tail[j]).0));
        lemma_matching_split_at(tail, b, m - 1);
        assert(tail.skip(m - 1) =~= items.skip(m));
    }
}

proof fn lemma_matching_is_suffix(items: Seq<Entry>, b: BoundView) -> (m0: int)
    requires
        strict_ascending(items),
    ensures
        0 <= m0 <= items.len(),
        matching(items, b) == items.skip(m0),
    decreases items.len(),
{
    if items.len() == 0 {
        assert(matching(items, b) =~= items.skip(0));
        0
    } else if admits(b, items[0].0) {
        assert forall|i: int| 0 <= i < items.len() implies admits(b, (#[trigger] items[i]).0) by {
            if i > 0 {
                lemma_admits_upward(b, items[0].0, items[i].0);
            }
        }
        lemma_matching_all(items, b);
        assert(items.skip(0) =~= items);
        0
    } else {
        let tail = items.skip(1);
        assert(strict_ascending(tail));
        let m = lemma_matching_is_suffix(tail, b);
        assert(tail.skip(m) =~= items.skip(m + 1));
        m + 1
    }
}

/// Order preservation: filtering an ascending scan by a cursor keeps it
/// ascending, and so does truncating it to one page; the page is always a
/// pointwise-untouched prefix of the matching entries.
pub proof fn lemma_order_preserved(items: Seq<Entry>, b: BoundView, lim: nat)
    requires
        strict_ascending(items),
    ensures
        strict_ascending(matching(items, b)),
        strict_ascending(page_window(matching(items, b), lim)),
        forall|i: int|
            0 <= i < page_window(matching(items, b), lim).len() ==> #[trigger] page_window(
                matching(items, b),
                lim,
            )[i] == matching(items, b)[i],
    decreases items.len(),
{
    if items.len() > 0 {
        let tail = items.skip(1);
        assert(strict_ascending(tail));
        lemma_order_preserved(tail, b, lim);
        if admits(b, items[0].0) {
            let m = matching(tail, b);
            let full = seq![items[0]] + m;
            assert forall|i: int, j: int| 0 <= i < j < full.len() implies str_lt(
                (#[trigger] full[i]).0,
                (#[trigger] full[j]).0,
            ) by {
                if i == 0 {
                    assert(full[j] == m[j - 1]);
                    assert(m.contains(m[j - 1]));
                    lemma_matching_contains(tail, b, m[j - 1]);
                    let t = choose|t: int| 0 <= t < tail.len() && tail[t] == m[j - 1];
                    assert(items[t + 1] == m[j - 1]);
                    assert(str_lt(items[0].0, items[t + 1].0));
                } else {
                    assert(full[i] == m[i - 1] && full[j] == m[j - 1]);
                    assert(str_lt(m[i - 1].0, m[j - 1].0));
                }
            }
            assert(matching(items, b) == full);
        }
    }
}

/// Prefix isolation: whatever the cursor and limit, every entry of a
/// prefix-scoped page comes from a composite-map entry whose key carries
/// exactly the given prefix; entries outside the prefix never appear.
pub proof fn lemma_prefix_isolation(
    pairs: Seq<((Seq<char>, Seq<char>), u128)>,
    p: Seq<char>,
    b: BoundView,
    lim: nat,
)
    ensures
        ({
            let w = page_window(matching(under_prefix(pairs, p), b), lim);
            forall|i: int|
                0 <= i < w.len() ==> pairs.contains(((p, (#[trigger] w[i]).0), w[i].1))
        }),
{
    let sub = under_prefix(pairs, p);
    let m = matching(sub, b);
    let w = page_window(m, lim);
    assert forall|i: int| 0 <= i < w.len() implies pairs.contains(
        ((p, (#[trigger] w[i]).0), w[i].1),
    ) by {
        assert(w[i] == m[i]);
        assert(m.contains(m[i]));
        lemma_matching_contains(sub, b, m[i]);
        lemma_under_prefix_contains(pairs, p, m[i]);
    }
}

/// Re-scanning is idempotent: two successful page queries against the same
/// matching entry list with the same effective limit return the identical
/// page, provided the transform is a function of the key's characters and the
/// value. (For a transform free to answer differently on the same entry, not
/// even two consecutive calls need agree; the hypothesis rules that out.)
pub proof fn lemma_rescan_idempotent<R, E, F: Fn(String, u128) -> Result<R, E>>(
    items: Seq<Entry>,
    lim: nat,
    f: F,
    r1: Result<PaginationResponse<R>, PaginateError<E>>,
    r2: Result<PaginationResponse<R>, PaginateError<E>>,
)
    requires
        forall|k1: String, k2: String, v: u128, y1: Result<R, E>, y2: Result<R, E>|
            k1@ == k2@ && #[trigger] call_ensures(f, (k1, v), y1) && #[trigger] call_ensures(
                f,
                (k2, v),
                y2,
            ) ==> y1 == y2,
        query_post(items, lim, f, r1),
        query_post(items, lim, f, r2),
        r1 is Ok,
        r2 is Ok,
    ensures
        r1->Ok_0.metadata.has_more == r2->Ok_0.metadata.has_more,
        r1->Ok_0.data@ == r2->Ok_0.data@,
{
    let p1 = r1->Ok_0;
    let p2 = r2->Ok_0;
    let w = page_window(items, lim);
    assert forall|i: int| 0 <= i < p1.data@.len() implies #[trigger] p1.data@[i] == p2.data@[i] by {
        assert(transform_ok(f, w[i], p1.data@[i]));
        assert(transform_ok(f, w[i], p2.data@[i]));
        let k1 = choose|k: String|
            k@ == w[i].0 && call_ensures(f, (k, w[i].1), Result::<R, E>::Ok(p1.data@[i]));
        let k2 = choose|k: String|
            k@ == w[i].0 && call_ensures(f, (k, w[i].1), Result::<R, E>::Ok(p2.data@[i]));
        assert(Result::<R, E>::Ok(p1.data@[i]) == Result::<R, E>::Ok(p2.data@[i]));
    }
    assert(p1.data@ =~= p2.data@);
}

/// Resumption correctness, from any cursor: after one page of the entries
/// matching a start cursor, resuming with an exclusive cursor at that page's
/// last key yields exactly the following matching entries — the two pages
/// concatenate to an unbroken prefix of the matching list, with no overlap
/// and no gap.
pub proof fn lemma_resumption(items: Seq<Entry>, start: BoundView, lim: nat)
    requires
        strict_ascending(items),
        lim >= 1,
    ensures
        ({
            let m1 = matching(items, start);
            let d1 = page_window(m1, lim);
            d1.len() > 0 ==> {
                let rest = matching(items, BoundView::Exclusive(d1[d1.len() - 1].0));
                let d2 = page_window(rest, lim);
                &&& rest == m1.skip(d1.len() as int)
                &&& d1 + d2 == capped(m1, d1.len() + d2.len() as int)
            }
        }),
{
    let m1 = matching(items, start);
    let m0 = lemma_matching_is_suffix(items, start);
    let d1 = page_window(m1, lim);
    if d1.len() > 0 {
        let m = d1.len() as int;
        assert(1 <= m <= m1.len());
        assert(d1 =~= m1.take(m));
        let k = d1[m - 1].0;
        assert(m1[m - 1] == items[m0 + m - 1]);
        assert(k == items[m0 + m - 1].0);
        let bx = BoundView::Exclusive(k);
        assert forall|j: int| 0 <= j < m0 + m implies !admits(bx, (#[trigger] items[j]).0) by {
            if j < m0 + m - 1 {
                assert(str_lt(items[j].0, k));
                lemma_str_lt_asym(items[j].0, k);
            } else {
                lemma_str_lt_irrefl(k);
            }
        }
        assert(forall|j: int|
            m0 + m <= j < items.len() ==> admits(bx, (#[trigger] items[j]).0));
        lemma_matching_split_at(items, bx, m0 + m);
        let rest = matching(items, bx);
        assert(rest =~= m1.skip(m));
        let d2 = page_window(rest, lim);
        assert(d2 =~= m1.skip(m).take(d2.len() as int));
        assert(d1 + d2 =~= capped(m1, m + d2.len() as int));
    }
}

} // verus!
