use vstd::prelude::*;

use crate::bound::Bound;
use crate::errors::PaginateError;
use crate::errors::StoreError;
use crate::model::capped;
use crate::model::decoded_as;
use crate::model::effective_limit;
use crate::model::item_models;
use crate::model::ScanItem;
use crate::model::effective_limit_spec;
use crate::model::matching;
use crate::model::page_has_more;
use crate::model::page_window;
use crate::model::under_prefix;
use crate::model::Entry;
use crate::store::map_decodes;
use crate::store::map_entries;
use crate::store::pair_decodes;
use crate::store::map_scan;
use crate::store::pair_entries;
use crate::store::pair_scan;
use crate::store::scan_map;
use crate::store::scan_map_prefix;
use crate::types::Metadata;
use crate::types::PaginationResponse;

verus! {

/// The transform turned the entry `e` into the result `out`: some key string
/// spelling `e`'s key, with `e`'s value, is an input on which the transform
/// may return `Ok(out)`.
pub open spec fn transform_ok<R, E, F: Fn(String, u128) -> Result<R, E>>(
    f: F,
    e: Entry,
    out: R,
) -> bool {
    exists|k: String| k@ == e.0 && call_ensures(f, (k, e.1), Result::<R, E>::Ok(out))
}

/// The transform rejected the entry `e` with the error `err`.
pub open spec fn transform_err<R, E, F: Fn(String, u128) -> Result<R, E>>(
    f: F,
    e: Entry,
    err: E,
) -> bool {
    exists|k: String| k@ == e.0 && call_ensures(f, (k, e.1), Result::<R, E>::Err(err))
}

/// The raw item is a successful read that the transform turned into `out`.
pub open spec fn item_transform_ok<R, E, F: Fn(String, u128) -> Result<R, E>>(
    f: F,
    item: Result<(String, u128), StoreError>,
    out: R,
) -> bool {
    item matches Ok(kv) && transform_ok(f, (kv.0@, kv.1), out)
}

/// The raw item is a successful read that the transform rejected with `err`.
pub open spec fn item_transform_err<R, E, F: Fn(String, u128) -> Result<R, E>>(
    f: F,
    item: Result<(String, u128), StoreError>,
    err: E,
) -> bool {
    item matches Ok(kv) && transform_err(f, (kv.0@, kv.1), err)
}

/// Every raw item before index `j` of the window was read and transformed
/// successfully.
pub open spec fn transformed_before<R, E, F: Fn(String, u128) -> Result<R, E>>(
    f: F,
    w: Seq<Result<(String, u128), StoreError>>,
    j: int,
) -> bool {
    forall|i: int|
        0 <= i < j ==> item_transform_ok(
            f,
            #[trigger] w[i],
            choose|y: R| item_transform_ok(f, w[i], y),
        )
}

/// Every scan item before index `j` of the window was read and transformed
/// successfully.
pub open spec fn scan_transformed_before<R, E, F: Fn(String, u128) -> Result<R, E>>(
    f: F,
    w: Seq<ScanItem>,
    j: int,
) -> bool {
    forall|i: int|
        0 <= i < j ==> scan_transform_ok(
            f,
            #[trigger] w[i],
            choose|y: R| scan_transform_ok(f, w[i], y),
        )
}

/// Every matching entry before index `j` was transformed successfully.
pub open spec fn matched_before<R, E, F: Fn(String, u128) -> Result<R, E>>(
    f: F,
    items: Seq<Entry>,
    j: int,
) -> bool {
    forall|i: int|
        0 <= i < j ==> transform_ok(
            f,
            #[trigger] items[i],
            choose|y: R| transform_ok(f, items[i], y),
        )
}

/// The raw item is the failed read `se`.
pub open spec fn item_read_failed(item: Result<(String, u128), StoreError>, se: StoreError) -> bool {
    item matches Err(e2) && e2 == se
}

/// What `collect` promises of its result, over the window of raw items it was
/// allowed to read: the first `n` items of `entries`.
///
/// - `Ok(out)`: every item of the window was a successful read, and `out` is
///   exactly the window transformed pointwise, in order.
/// - `Err(Store(se))`: the window's first failure is the failed read `se`;
///   every item before it was read and transformed successfully.
/// - `Err(Parse(pe))`: the window's first failure is an item the transform
///   rejected with `pe`; every item before it was read and transformed
///   successfully.
pub open spec fn collect_post<R, E, F: Fn(String, u128) -> Result<R, E>>(
    entries: Seq<Result<(String, u128), StoreError>>,
    n: int,
    f: F,
    r: Result<Vec<R>, PaginateError<E>>,
) -> bool {
    let w = capped(entries, n);
    match r {
        Result::Ok(out) => {
            &&& out@.len() == w.len()
            &&& forall|i: int|
                0 <= i < w.len() ==> item_transform_ok(f, #[trigger] w[i], out@[i])
        },
        Result::Err(err) => match err {
            PaginateError::Store(se) => exists|j: int|
                {
                    &&& 0 <= j < w.len()
                    &&& item_read_failed(#[trigger] w[j], se)
                    &&& transformed_before::<R, E, F>(f, w, j)
                },
            PaginateError::Parse(pe) => exists|j: int|
                {
                    &&& 0 <= j < w.len()
                    &&& item_transform_err(f, #[trigger] w[j], pe)
                    &&& transformed_before::<R, E, F>(f, w, j)
                },
        },
    }
}

/// The scan item is a successful read whose entry the transform turned into
/// `out`.
pub open spec fn scan_transform_ok<R, E, F: Fn(String, u128) -> Result<R, E>>(
    f: F,
    m: ScanItem,
    out: R,
) -> bool {
    m matches Ok(e) && transform_ok(f, e, out)
}

/// The scan item is a successful read whose entry the transform rejected with
/// `err`.
pub open spec fn scan_transform_err<R, E, F: Fn(String, u128) -> Result<R, E>>(
    f: F,
    m: ScanItem,
    err: E,
) -> bool {
    m matches Ok(e) && transform_err(f, e, err)
}

/// The scan item is the failed read whose message `se` carries.
pub open spec fn scan_read_failed(m: ScanItem, se: StoreError) -> bool {
    m matches Err(msg) && msg == se.msg@
}

/// How an aborted page relates to the raw scan it drove, over the window of
/// the first `n` scan items: a `Store` error is the window's first failed
/// read, a `Parse` error rejects a window item; either way every item before
/// the failing one was read and transformed successfully, and nothing partial
/// is returned.
pub open spec fn scan_abort<R, E, F: Fn(String, u128) -> Result<R, E>>(
    scan: Seq<ScanItem>,
    n: int,
    f: F,
    err: PaginateError<E>,
) -> bool {
    let w = capped(scan, n);
    match err {
        PaginateError::Store(se) => exists|j: int|
            {
                &&& 0 <= j < w.len()
                &&& scan_read_failed(#[trigger] w[j], se)
                &&& scan_transformed_before::<R, E, F>(f, w, j)
            },
        PaginateError::Parse(pe) => exists|j: int|
            {
                &&& 0 <= j < w.len()
                &&& scan_transform_err(f, #[trigger] w[j], pe)
                &&& scan_transformed_before::<R, E, F>(f, w, j)
            },
    }
}

/// What every plain page scan promises over the raw scan it drove, with no
/// assumption on the store: all-or-nothing over the window of the first `n`
/// scan items. `Ok` is exactly the window transformed pointwise (so every
/// window item read successfully); an error is pinned by `scan_abort`.
pub open spec fn scan_post<R, E, F: Fn(String, u128) -> Result<R, E>>(
    scan: Seq<ScanItem>,
    n: int,
    f: F,
    r: Result<Vec<R>, PaginateError<E>>,
) -> bool {
    let w = capped(scan, n);
    match r {
        Result::Ok(out) => {
            &&& out@.len() == w.len()
            &&& forall|i: int|
                0 <= i < w.len() ==> scan_transform_ok(f, #[trigger] w[i], out@[i])
        },
        Result::Err(err) => scan_abort(scan, n, f, err),
    }
}

/// `scan_post`'s analogue for the has-more entry points, whose scan window is
/// one wider than the page: on success, `has_more` is true iff the raw scan
/// holds more than `lim` items, and the page is the first `lim` scan items
/// transformed pointwise; an error is pinned inside the widened window by
/// `scan_abort`.
pub open spec fn scan_query_post<R, E, F: Fn(String, u128) -> Result<R, E>>(
    scan: Seq<ScanItem>,
    lim: int,
    f: F,
    r: Result<PaginationResponse<R>, PaginateError<E>>,
) -> bool {
    let w = capped(scan, lim + 1);
    match r {
        Result::Ok(p) => {
            &&& p.metadata.has_more == (scan.len() > lim)
            &&& p.data@.len() == capped(scan, lim).len()
            &&& forall|i: int|
                0 <= i < p.data@.len() ==> scan_transform_ok(f, #[trigger] w[i], p.data@[i])
        },
        Result::Err(err) => scan_abort(scan, lim + 1, f, err),
    }
}

/// A collect over raw items that model the scan pointwise meets `scan_post`.
proof fn lemma_collect_scan_post<R, E, F: Fn(String, u128) -> Result<R, E>>(
    scan: Seq<ScanItem>,
    raw: Seq<Result<(String, u128), StoreError>>,
    n: int,
    f: F,
    r: Result<Vec<R>, PaginateError<E>>,
)
    requires
        0 <= n,
        raw.len() <= n,
        raw.len() == capped(scan, n).len(),
        forall|i: int| 0 <= i < raw.len() ==> item_models(#[trigger] raw[i], scan[i]),
        collect_post(raw, n, f, r),
    ensures
        scan_post(scan, n, f, r),
{
    let w = capped(raw, n);
    let ws = capped(scan, n);
    assert(w =~= raw);
    match r {
        Result::Ok(out) => {
            assert forall|i: int| 0 <= i < ws.len() implies scan_transform_ok(
                f,
                #[trigger] ws[i],
                out@[i],
            ) by {
                assert(item_transform_ok(f, w[i], out@[i]));
                assert(item_models(raw[i], scan[i]));
                assert(ws[i] == scan[i]);
            }
        },
        Result::Err(err) => match err {
            PaginateError::Store(se) => {
                let j = choose|j: int|
                    0 <= j < w.len() && item_read_failed(#[trigger] w[j], se)
                        && transformed_before::<R, E, F>(f, w, j);
                assert(item_models(raw[j], scan[j]));
                assert(ws[j] == scan[j]);
                assert(scan_read_failed(ws[j], se));
                assert(scan_transformed_before::<R, E, F>(f, ws, j)) by {
                    assert forall|i: int| 0 <= i < j implies scan_transform_ok(
                        f,
                        #[trigger] ws[i],
                        choose|y: R| scan_transform_ok(f, ws[i], y),
                    ) by {
                        assert(w[i] == raw[i]);
                        let y0 = choose|y: R| item_transform_ok(f, w[i], y);
                        assert(item_transform_ok(f, w[i], y0));
                        assert(item_models(raw[i], scan[i]));
                        assert(ws[i] == scan[i]);
                        assert(scan_transform_ok(f, ws[i], y0));
                        assert(exists|y: R| scan_transform_ok(f, ws[i], y));
                    }
                }
            },
            PaginateError::Parse(pe) => {
                let j = choose|j: int|
                    0 <= j < w.len() && item_transform_err(f, #[trigger] w[j], pe)
                        && transformed_before::<R, E, F>(f, w, j);
                assert(item_models(raw[j], scan[j]));
                assert(ws[j] == scan[j]);
                assert(scan_transform_err(f, ws[j], pe));
                assert(scan_transformed_before::<R, E, F>(f, ws, j)) by {
                    assert forall|i: int| 0 <= i < j implies scan_transform_ok(
                        f,
                        #[trigger] ws[i],
                        choose|y: R| scan_transform_ok(f, ws[i], y),
                    ) by {
                        assert(w[i] == raw[i]);
                        let y0 = choose|y: R| item_transform_ok(f, w[i], y);
                        assert(item_transform_ok(f, w[i], y0));
                        assert(item_models(raw[i], scan[i]));
                        assert(ws[i] == scan[i]);
                        assert(scan_transform_ok(f, ws[i], y0));
                        assert(exists|y: R| scan_transform_ok(f, ws[i], y));
                    }
                }
            },
        },
    }
}

/// Pull at most `n` raw items off the front of `entries`, transforming each;
/// the first failed read or rejected transform aborts the whole page.
fn collect_n<R, E, F: Fn(String, u128) -> Result<R, E>>(
    entries: Vec<Result<(String, u128), StoreError>>,
    n: usize,
    parse_fn: F,
) -> (r: Result<Vec<R>, PaginateError<E>>)
    requires
        forall|k: String, v: u128| call_requires(parse_fn, (k, v)),
    ensures
        collect_post(entries@, n as int, parse_fn, r),
        r matches Ok(out) ==> out@.len() <= n,
{
    let ghost all = entries@;
    let mut rest = entries;
    let mut out: Vec<R> = Vec::new();
    let count: usize = if n <= rest.len() {
        n
    } else {
        rest.len()
    };
    let mut i: usize = 0;
    while i < count
        invariant
            all == entries@,
            forall|k: String, v: u128| call_requires(parse_fn, (k, v)),
            count == capped(all, n as int).len(),
            count <= all.len(),
            i <= count,
            rest@ == all.skip(i as int),
            out@.len() == i,
            forall|j: int| 0 <= j < i ==> !((#[trigger] all[j]) is Err),
            forall|j: int| 0 <= j < i ==> item_transform_ok(parse_fn, #[trigger] all[j], out@[j]),
        decreases count - i,
    {
        assert(all.skip(i as int)[0] == all[i as int]);
        let item = rest.remove(0);
        proof {
            assert(rest@ =~= all.skip(i as int + 1));
            assert(capped(all, n as int)[i as int] == all[i as int]);
        }
        match item {
            Err(se) => {
                proof {
                    let w = capped(all, n as int);
                    assert(item_read_failed(w[i as int], se));
                    assert(transformed_before::<R, E, F>(parse_fn, w, i as int)) by {
                        assert forall|i2: int| 0 <= i2 < i implies item_transform_ok(
                            parse_fn,
                            #[trigger] w[i2],
                            choose|y: R| item_transform_ok(parse_fn, w[i2], y),
                        ) by {
                            assert(w[i2] == all[i2]);
                            assert(item_transform_ok(parse_fn, w[i2], out@[i2]));
                            assert(exists|y: R| item_transform_ok(parse_fn, w[i2], y));
                        }
                    }
                }
                return Err(PaginateError::Store(se));
            },
            Ok((k, v)) => {
                let ghost gk = k;
                let parsed = parse_fn(k, v);
                match parsed {
                    Ok(y) => {
                        proof {
                            assert(call_ensures(parse_fn, (gk, v), Result::<R, E>::Ok(y)));
                            assert(transform_ok(parse_fn, (gk@, v), y));
                            assert(item_transform_ok(parse_fn, all[i as int], y));
                        }
                        out.push(y);
                    },
                    Err(pe) => {
                        proof {
                            let w = capped(all, n as int);
                            assert(call_ensures(parse_fn, (gk, v), Result::<R, E>::Err(pe)));
                            assert(transform_err(parse_fn, (gk@, v), pe));
                            assert(item_transform_err(parse_fn, w[i as int], pe));
                            assert(transformed_before::<R, E, F>(parse_fn, w, i as int)) by {
                                assert forall|i2: int| 0 <= i2 < i implies item_transform_ok(
                                    parse_fn,
                                    #[trigger] w[i2],
                                    choose|y: R| item_transform_ok(parse_fn, w[i2], y),
                                ) by {
                                    assert(w[i2] == all[i2]);
                                    assert(item_transform_ok(parse_fn, w[i2], out@[i2]));
                                    assert(exists|y: R| item_transform_ok(parse_fn, w[i2], y));
                                }
                            }
                        }
                        return Err(PaginateError::Parse(pe));
                    },
                }
            },
        }
        i = i + 1;
    }
    proof {
        assert(capped(all, n as int) =~= all.take(count as int));
    }
    Ok(out)
}

/// Collect at most one clamped page of raw items into transformed results.
///
/// Takes the first `min(limit ?? DEFAULT_LIMIT, MAX_LIMIT)` items of
/// `entries`; a failed read propagates as `Store`, a rejected transform as
/// `Parse`, and either aborts the whole page.
pub fn collect<R, E, F: Fn(String, u128) -> Result<R, E>>(
    entries: Vec<Result<(String, u128), StoreError>>,
    limit: Option<u32>,
    parse_fn: F,
) -> (r: Result<Vec<R>, PaginateError<E>>)
    requires
        forall|k: String, v: u128| call_requires(parse_fn, (k, v)),
    ensures
        collect_post(entries@, effective_limit_spec(limit) as int, parse_fn, r),
        r matches Ok(out) ==> out@.len() <= effective_limit_spec(limit),
{
    let lim = effective_limit(limit);
    collect_n(entries, lim as usize, parse_fn)
}

/// What a plain page scan promises when every raw entry of the namespace
/// decodes: `items` is the full matching entry list in ascending scan order
/// and `lim` the effective limit. On success the result is exactly the first
/// `lim` matching entries, transformed pointwise in order; a read error
/// cannot occur; a transform error names the first entry of that window that
/// the transform rejected, every entry before it transformed successfully.
pub open spec fn list_post<R, E, F: Fn(String, u128) -> Result<R, E>>(
    items: Seq<Entry>,
    lim: nat,
    f: F,
    r: Result<Vec<R>, PaginateError<E>>,
) -> bool {
    match r {
        Result::Ok(out) => {
            &&& out@.len() == page_window(items, lim).len()
            &&& forall|i: int|
                0 <= i < out@.len() ==> transform_ok(f, page_window(items, lim)[i], #[trigger] out@[i])
        },
        Result::Err(err) => match err {
            PaginateError::Store(se) => false,
            PaginateError::Parse(pe) => exists|j: int|
                {
                    &&& 0 <= j < items.len()
                    &&& j < lim
                    &&& transform_err(f, #[trigger] items[j], pe)
                    &&& matched_before::<R, E, F>(f, items, j)
                },
        },
    }
}

/// What a has-more page query promises when every raw entry of the namespace
/// decodes: the page is the first `lim` matching entries transformed
/// pointwise, and `has_more` is true iff matching entries remain beyond them.
/// An error names the first rejected entry, every matching entry before it
/// transformed successfully; the overfetched sentinel widens by one the
/// window an error can name.
pub open spec fn query_post<R, E, F: Fn(String, u128) -> Result<R, E>>(
    items: Seq<Entry>,
    lim: nat,
    f: F,
    r: Result<PaginationResponse<R>, PaginateError<E>>,
) -> bool {
    match r {
        Result::Ok(p) => {
            &&& p.metadata.has_more == page_has_more(items, lim)
            &&& p.data@.len() == page_window(items, lim).len()
            &&& forall|i: int|
                0 <= i < p.data@.len() ==> transform_ok(
                    f,
                    page_window(items, lim)[i],
                    #[trigger] p.data@[i],
                )
        },
        Result::Err(err) => match err {
            PaginateError::Store(se) => false,
            PaginateError::Parse(pe) => exists|j: int|
                {
                    &&& 0 <= j < items.len()
                    &&& j <= lim
                    &&& transform_err(f, #[trigger] items[j], pe)
                    &&& matched_before::<R, E, F>(f, items, j)
                },
        },
    }
}

/// Scan the whole single-key map under `namespace` from the cursor `start`,
/// returning up to `min(limit ?? DEFAULT_LIMIT, MAX_LIMIT)` transformed
/// entries in ascending key order. The raw building block: no has-more
/// metadata. The namespace length bound is the store's key-layout limit (a
/// length-prefixed component of at most 0xFFFF bytes, at most four per
/// character).
pub fn paginate_map<R, E, F: Fn(String, u128) -> Result<R, E>>(
    store: &cosmwasm_std::testing::MockStorage,
    namespace: &'static str,
    start: &Bound,
    limit: Option<u32>,
    parse_fn: F,
) -> (r: Result<Vec<R>, PaginateError<E>>)
    requires
        namespace@.len() <= 0x3FFF,
        forall|k: String, v: u128| call_requires(parse_fn, (k, v)),
    ensures
        r matches Ok(out) ==> out@.len() <= effective_limit_spec(limit),
        scan_post(
            map_scan(*store, namespace@, start@),
            effective_limit_spec(limit) as int,
            parse_fn,
            r,
        ),
        map_decodes(*store, namespace@) ==> list_post(
            matching(map_entries(*store, namespace@), start@),
            effective_limit_spec(limit) as nat,
            parse_fn,
            r,
        ),
{
    let lim = effective_limit(limit);
    let raw = scan_map(store, namespace, start, lim as usize);
    let res = collect_n(raw, lim as usize, parse_fn);
    proof {
        lemma_collect_scan_post(
            map_scan(*store, namespace@, start@),
            raw@,
            lim as int,
            parse_fn,
            res,
        );
        if map_decodes(*store, namespace@) {
            let items = matching(map_entries(*store, namespace@), start@);
            lemma_scan_collect(items, raw@, lim as int, parse_fn, res);
        }
    }
    res
}

/// Scan the entries of the composite-key map under `namespace` that lie under
/// `prefix`, from the cursor `start` interpreted in the suffix key space,
/// returning up to `min(limit ?? DEFAULT_LIMIT, MAX_LIMIT)` transformed
/// entries in ascending suffix order. The namespace and prefix length bounds
/// are the store's key-layout limit (length-prefixed components of at most
/// 0xFFFF bytes, at most four per character).
pub fn paginate_map_prefix<R, E, F: Fn(String, u128) -> Result<R, E>>(
    store: &cosmwasm_std::testing::MockStorage,
    namespace: &'static str,
    prefix: &str,
    start: &Bound,
    limit: Option<u32>,
    parse_fn: F,
) -> (r: Result<Vec<R>, PaginateError<E>>)
    requires
        namespace@.len() <= 0x3FFF,
        prefix@.len() <= 0x3FFF,
        forall|k: String, v: u128| call_requires(parse_fn, (k, v)),
    ensures
        r matches Ok(out) ==> out@.len() <= effective_limit_spec(limit),
        scan_post(
            pair_scan(*store, namespace@, prefix@, start@),
            effective_limit_spec(limit) as int,
            parse_fn,
            r,
        ),
        pair_decodes(*store, namespace@) ==> list_post(
            matching(under_prefix(pair_entries(*store, namespace@), prefix@), start@),
            effective_limit_spec(limit) as nat,
            parse_fn,
            r,
        ),
{
    let lim = effective_limit(limit);
    let raw = scan_map_prefix(store, namespace, prefix, start, lim as usize);
    let res = collect_n(raw, lim as usize, parse_fn);
    proof {
        lemma_collect_scan_post(
            pair_scan(*store, namespace@, prefix@, start@),
            raw@,
            lim as int,
            parse_fn,
            res,
        );
        if pair_decodes(*store, namespace@) {
            let items = matching(under_prefix(pair_entries(*store, namespace@), prefix@), start@);
            lemma_scan_collect(items, raw@, lim as int, parse_fn, res);
        }
    }
    res
}

/// A scan whose raw items decode exactly to the first entries of `items`
/// collects to a result that `list_post` describes.
proof fn lemma_scan_collect<R, E, F: Fn(String, u128) -> Result<R, E>>(
    items: Seq<Entry>,
    raw: Seq<Result<(String, u128), StoreError>>,
    lim: int,
    f: F,
    r: Result<Vec<R>, PaginateError<E>>,
)
    requires
        0 <= lim,
        raw.len() <= lim,
        raw.len() == capped(items, lim).len(),
        forall|i: int| 0 <= i < raw.len() ==> decoded_as(#[trigger] raw[i], items[i]),
        collect_post(raw, lim, f, r),
    ensures
        list_post(items, lim as nat, f, r),
{
    let w = capped(raw, lim);
    assert(w =~= raw);
    assert(page_window(items, lim as nat) =~= capped(items, lim));
    match r {
        Result::Ok(out) => {
            assert forall|i: int| 0 <= i < out@.len() implies transform_ok(
                f,
                page_window(items, lim as nat)[i],
                #[trigger] out@[i],
            ) by {
                assert(item_transform_ok(f, w[i], out@[i]));
                assert(decoded_as(raw[i], items[i]));
                assert(capped(items, lim)[i] == items[i]);
                assert(items[i] == (items[i].0, items[i].1));
            }
        },
        Result::Err(err) => match err {
            PaginateError::Store(se) => {
                let j = choose|j: int|
                    0 <= j < w.len() && item_read_failed(#[trigger] w[j], se)
                        && transformed_before::<R, E, F>(f, w, j);
                assert(decoded_as(raw[j], items[j]));
            },
            PaginateError::Parse(pe) => {
                let j = choose|j: int|
                    0 <= j < w.len() && item_transform_err(f, #[trigger] w[j], pe)
                        && transformed_before::<R, E, F>(f, w, j);
                assert(decoded_as(raw[j], items[j]));
                assert(capped(items, lim)[j] == items[j]);
                assert(items[j] == (items[j].0, items[j].1));
                assert(matched_before::<R, E, F>(f, items, j)) by {
                    assert forall|i: int| 0 <= i < j implies transform_ok(
                        f,
                        #[trigger] items[i],
                        choose|y: R| transform_ok(f, items[i], y),
                    ) by {
                        assert(w[i] == raw[i]);
                        let y0 = choose|y: R| item_transform_ok(f, w[i], y);
                        assert(item_transform_ok(f, w[i], y0));
                        assert(decoded_as(raw[i], items[i]));
                        assert(items[i] == (items[i].0, items[i].1));
                        assert(transform_ok(f, items[i], y0));
                        assert(exists|y: R| transform_ok(f, items[i], y));
                    }
                }
                assert(0 <= j < items.len() && j < lim && transform_err(f, items[j], pe));
            },
        },
    }
}

/// A scan that overfetches one sentinel entry past the limit collects to:
/// on success, exactly the first `lim + 1` matching entries transformed
/// pointwise; never a read error; on a transform error, the first rejected
/// entry within that widened window, everything before it transformed.
proof fn lemma_scan_collect_wide<R, E, F: Fn(String, u128) -> Result<R, E>>(
    items: Seq<Entry>,
    raw: Seq<Result<(String, u128), StoreError>>,
    lim: int,
    f: F,
    r: Result<Vec<R>, PaginateError<E>>,
)
    requires
        0 <= lim,
        raw.len() <= lim + 1,
        raw.len() == capped(items, lim + 1).len(),
        forall|i: int| 0 <= i < raw.len() ==> decoded_as(#[trigger] raw[i], items[i]),
        collect_post(raw, lim + 1, f, r),
    ensures
        r matches Ok(out) ==> out@.len() == capped(items, lim + 1).len() && (forall|i: int|
            0 <= i < out@.len() ==> transform_ok(f, items[i], #[trigger] out@[i])),
        !(r matches Err(PaginateError::Store(se))),
        r matches Err(PaginateError::Parse(pe)) ==> exists|j: int|
            {
                &&& 0 <= j < items.len()
                &&& j <= lim
                &&& transform_err(f, #[trigger] items[j], pe)
                &&& matched_before::<R, E, F>(f, items, j)
            },
{
    let w = capped(raw, lim + 1);
    assert(w =~= raw);
    match r {
        Result::Ok(out) => {
            assert forall|i: int| 0 <= i < out@.len() implies transform_ok(
                f,
                items[i],
                #[trigger] out@[i],
            ) by {
                assert(item_transform_ok(f, w[i], out@[i]));
                assert(decoded_as(raw[i], items[i]));
                assert(capped(items, lim + 1)[i] == items[i]);
                assert(items[i] == (items[i].0, items[i].1));
            }
        },
        Result::Err(err) => match err {
            PaginateError::Store(se) => {
                let j = choose|j: int|
                    0 <= j < w.len() && item_read_failed(#[trigger] w[j], se)
                        && transformed_before::<R, E, F>(f, w, j);
                assert(decoded_as(raw[j], items[j]));
            },
            PaginateError::Parse(pe) => {
                let j = choose|j: int|
                    0 <= j < w.len() && item_transform_err(f, #[trigger] w[j], pe)
                        && transformed_before::<R, E, F>(f, w, j);
                assert(decoded_as(raw[j], items[j]));
                assert(capped(items, lim + 1)[j] == items[j]);
                assert(items[j] == (items[j].0, items[j].1));
                assert(matched_before::<R, E, F>(f, items, j)) by {
                    assert forall|i: int| 0 <= i < j implies transform_ok(
                        f,
                        #[trigger] items[i],
                        choose|y: R| transform_ok(f, items[i], y),
                    ) by {
                        assert(w[i] == raw[i]);
                        let y0 = choose|y: R| item_transform_ok(f, w[i], y);
                        assert(item_transform_ok(f, w[i], y0));
                        assert(decoded_as(raw[i], items[i]));
                        assert(items[i] == (items[i].0, items[i].1));
                        assert(transform_ok(f, items[i], y0));
                        assert(exists|y: R| transform_ok(f, items[i], y));
                    }
                }
                assert(0 <= j < items.len() && j <= lim && transform_err(f, items[j], pe));
            },
        },
    }
}

/// Scan the whole single-key map under `namespace` from the cursor `start`
/// and assemble one page with accurate has-more metadata, by reading one
/// entry past the effective limit instead of running a second count query.
///
/// A requested limit of zero is honoured as given: the page is empty and
/// `has_more` reports whether any matching entry exists at all. The namespace
/// length bound is the store's key-layout limit (a length-prefixed component
/// of at most 0xFFFF bytes, at most four per character).
pub fn paginate_map_query<R, E, F: Fn(String, u128) -> Result<R, E>>(
    store: &cosmwasm_std::testing::MockStorage,
    namespace: &'static str,
    start: &Bound,
    limit: Option<u32>,
    map_fn: F,
) -> (r: Result<PaginationResponse<R>, PaginateError<E>>)
    requires
        namespace@.len() <= 0x3FFF,
        forall|k: String, v: u128| call_requires(map_fn, (k, v)),
    ensures
        r matches Ok(p) ==> p.data@.len() <= effective_limit_spec(limit),
        scan_query_post(
            map_scan(*store, namespace@, start@),
            effective_limit_spec(limit) as int,
            map_fn,
            r,
        ),
        map_decodes(*store, namespace@) ==> query_post(
            matching(map_entries(*store, namespace@), start@),
            effective_limit_spec(limit) as nat,
            map_fn,
            r,
        ),
{
    let lim = effective_limit(limit);
    let n1: usize = lim as usize + 1;
    let raw = scan_map(store, namespace, start, n1);
    let res = collect_n(raw, n1, map_fn);
    proof {
        lemma_collect_scan_post(
            map_scan(*store, namespace@, start@),
            raw@,
            lim as int + 1,
            map_fn,
            res,
        );
        if map_decodes(*store, namespace@) {
            lemma_scan_collect_wide(
                matching(map_entries(*store, namespace@), start@),
                raw@,
                lim as int,
                map_fn,
                res,
            );
        }
    }
    match res {
        Err(e) => Err(e),
        Ok(mut data) => {
            let ghost data0 = data@;
            let has_more = data.len() > lim as usize;
            if has_more {
                let _overfetched = data.pop();
            }
            proof {
                let scan = map_scan(*store, namespace@, start@);
                let ws = capped(scan, lim as int + 1);
                assert forall|i: int| 0 <= i < data@.len() implies scan_transform_ok(
                    map_fn,
                    ws[i],
                    #[trigger] data@[i],
                ) by {
                    assert(data@[i] == data0[i]);
                    assert(scan_transform_ok(map_fn, ws[i], data0[i]));
                }
                assert(data@.len() == capped(scan, lim as int).len());
                if map_decodes(*store, namespace@) {
                    let items = matching(map_entries(*store, namespace@), start@);
                    let limn = effective_limit_spec(limit) as nat;
                    assert(page_window(items, limn) =~= capped(items, lim as int));
                    assert forall|i: int| 0 <= i < data@.len() implies transform_ok(
                        map_fn,
                        page_window(items, limn)[i],
                        #[trigger] data@[i],
                    ) by {
                        assert(data@[i] == data0[i]);
                        assert(transform_ok(map_fn, items[i], data0[i]));
                        assert(page_window(items, limn)[i] == items[i]);
                    }
                }
            }
            Ok(PaginationResponse { data, metadata: Metadata { has_more } })
        },
    }
}

/// Scan the entries under `prefix` in the composite-key map under
/// `namespace`, from the cursor `start` interpreted in the suffix key space,
/// and assemble one page with accurate has-more metadata via the same single
/// overfetch.
///
/// A prefix absent from the store yields an empty page with `has_more`
/// false, not an error. A requested limit of zero is honoured as given, as in
/// `paginate_map_query`. The namespace and prefix length bounds are the
/// store's key-layout limit (length-prefixed components of at most 0xFFFF
/// bytes, at most four per character).
pub fn paginate_prefix_query<R, E, F: Fn(String, u128) -> Result<R, E>>(
    store: &cosmwasm_std::testing::MockStorage,
    namespace: &'static str,
    prefix: &str,
    start: &Bound,
    limit: Option<u32>,
    map_fn: F,
) -> (r: Result<PaginationResponse<R>, PaginateError<E>>)
    requires
        namespace@.len() <= 0x3FFF,
        prefix@.len() <= 0x3FFF,
        forall|k: String, v: u128| call_requires(map_fn, (k, v)),
    ensures
        r matches Ok(p) ==> p.data@.len() <= effective_limit_spec(limit),
        scan_query_post(
            pair_scan(*store, namespace@, prefix@, start@),
            effective_limit_spec(limit) as int,
            map_fn,
            r,
        ),
        pair_decodes(*store, namespace@) ==> query_post(
            matching(under_prefix(pair_entries(*store, namespace@), prefix@), start@),
            effective_limit_spec(limit) as nat,
            map_fn,
            r,
        ),
{
    let lim = effective_limit(limit);
    let n1: usize = lim as usize + 1;
    let raw = scan_map_prefix(store, namespace, prefix, start, n1);
    let res = collect_n(raw, n1, map_fn);
    proof {
        lemma_collect_scan_post(
            pair_scan(*store, namespace@, prefix@, start@),
            raw@,
            lim as int + 1,
            map_fn,
            res,
        );
        if pair_decodes(*store, namespace@) {
            lemma_scan_collect_wide(
                matching(under_prefix(pair_entries(*store, namespace@), prefix@), start@),
                raw@,
                lim as int,
                map_fn,
                res,
            );
        }
    }
    match res {
        Err(e) => Err(e),
        Ok(mut data) => {
            let ghost data0 = data@;
            let has_more = data.len() > lim as usize;
            if has_more {
                let _overfetched = data.pop();
            }
            proof {
                let scan = pair_scan(*store, namespace@, prefix@, start@);
                let ws = capped(scan, lim as int + 1);
                assert forall|i: int| 0 <= i < data@.len() implies scan_transform_ok(
                    map_fn,
                    ws[i],
                    #[trigger] data@[i],
                ) by {
                    assert(data@[i] == data0[i]);
                    assert(scan_transform_ok(map_fn, ws[i], data0[i]));
                }
                assert(data@.len() == capped(scan, lim as int).len());
                if pair_decodes(*store, namespace@) {
                    let items = matching(
                        under_prefix(pair_entries(*store, namespace@), prefix@),
                        start@,
                    );
                    let limn = effective_limit_spec(limit) as nat;
                    assert(page_window(items, limn) =~= capped(items, lim as int));
                    assert forall|i: int| 0 <= i < data@.len() implies transform_ok(
                        map_fn,
                        page_window(items, limn)[i],
                        #[trigger] data@[i],
                    ) by {
                        assert(data@[i] == data0[i]);
                        assert(transform_ok(map_fn, items[i], data0[i]));
                        assert(page_window(items, limn)[i] == items[i]);
                    }
                }
            }
            Ok(PaginationResponse { data, metadata: Metadata { has_more } })
        },
    }
}

} // verus!
