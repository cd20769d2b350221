use vstd::prelude::*;

use crate::bound::BoundView;
use crate::errors::StoreError;
use crate::DEFAULT_LIMIT;
use crate::MAX_LIMIT;

verus! {

/// One stored entry as the contracts see it: the key's characters and the
/// stored integer value.
pub type Entry = (Seq<char>, u128);

/// Strict lexicographic order on keys, by character code point. For the keys
/// this library scans this coincides with the store's ascending byte order,
/// since UTF-8 orders strings exactly as their code points do.
pub open spec fn str_lt(a: Seq<char>, b: Seq<char>) -> bool
    decreases a.len(),
{
    if b.len() == 0 {
        false
    } else if a.len() == 0 {
        true
    } else if a[0] != b[0] {
        (a[0] as u32) < (b[0] as u32)
    } else {
        str_lt(a.skip(1), b.skip(1))
    }
}

/// Whether a key lies past the cursor: every key when the cursor is unset,
/// keys at-or-after it when inclusive, keys strictly after it when exclusive.
pub open spec fn admits(b: BoundView, key: Seq<char>) -> bool {
    match b {
        BoundView::Unbounded => true,
        BoundView::Inclusive(s) => !str_lt(key, s),
        BoundView::Exclusive(s) => str_lt(s, key),
    }
}

/// The entries of an ascending scan that lie past the cursor, in their
/// original order.
pub open spec fn matching(items: Seq<Entry>, b: BoundView) -> Seq<Entry>
    decreases items.len(),
{
    if items.len() == 0 {
        Seq::empty()
    } else if admits(b, items[0].0) {
        seq![items[0]] + matching(items.skip(1), b)
    } else {
        matching(items.skip(1), b)
    }
}

/// The entries of a composite-key scan that lie under one prefix, keyed by
/// their suffix, in their original order.
pub open spec fn under_prefix(pairs: Seq<((Seq<char>, Seq<char>), u128)>, p: Seq<char>) -> Seq<
    Entry,
>
    decreases pairs.len(),
{
    if pairs.len() == 0 {
        Seq::empty()
    } else if pairs[0].0.0 == p {
        seq![(pairs[0].0.1, pairs[0].1)] + under_prefix(pairs.skip(1), p)
    } else {
        under_prefix(pairs.skip(1), p)
    }
}

/// Keys strictly ascending: the store holds each key once, in order.
pub open spec fn strict_ascending(items: Seq<Entry>) -> bool {
    forall|i: int, j: int|
        0 <= i < j < items.len() ==> str_lt(#[trigger] items[i].0, #[trigger] items[j].0)
}

/// One item of a raw ascending scan as the contracts see it: the decoded
/// entry, or the message of the failed read, in storage order.
pub type ScanItem = Result<Entry, Seq<char>>;

/// Whether one raw scan item is modelled by `m`: equal entry on a successful
/// read, equal message on a failed one.
pub open spec fn item_models(item: Result<(String, u128), StoreError>, m: ScanItem) -> bool {
    match item {
        Result::Ok(kv) => m == Result::<Entry, Seq<char>>::Ok((kv.0@, kv.1)),
        Result::Err(se) => m == Result::<Entry, Seq<char>>::Err(se.msg@),
    }
}

/// Whether one raw scan item decoded exactly to the model entry `e`.
pub open spec fn decoded_as(item: Result<(String, u128), StoreError>, e: Entry) -> bool {
    item matches Ok(kv) && kv.0@ == e.0 && kv.1 == e.1
}

/// At most the first `n` elements of a sequence.
pub open spec fn capped<T>(s: Seq<T>, n: int) -> Seq<T> {
    if s.len() <= n {
        s
    } else {
        s.take(n)
    }
}

/// The requested page size, defaulted and clamped: `min(requested ?? 10, 30)`.
pub open spec fn effective_limit_spec(limit: Option<u32>) -> u32 {
    let requested = match limit {
        Option::Some(l) => l,
        Option::None => DEFAULT_LIMIT,
    };
    if requested > MAX_LIMIT {
        MAX_LIMIT
    } else {
        requested
    }
}

/// The page that a scan of `items` with the given effective limit yields: the
/// first `lim` entries.
pub open spec fn page_window(items: Seq<Entry>, lim: nat) -> Seq<Entry> {
    capped(items, lim as int)
}

/// Whether entries remain beyond that page.
pub open spec fn page_has_more(items: Seq<Entry>, lim: nat) -> bool {
    items.len() > lim
}

/// The requested page size, defaulted to `DEFAULT_LIMIT` and clamped to
/// `MAX_LIMIT`.
pub fn effective_limit(limit: Option<u32>) -> (r: u32)
    ensures
        r == effective_limit_spec(limit),
        r <= MAX_LIMIT,
{
    match limit {
        Option::Some(l) => if l > MAX_LIMIT {
            MAX_LIMIT
        } else {
            l
        },
        Option::None => DEFAULT_LIMIT,
    }
}

} // verus!
