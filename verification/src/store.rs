use vstd::prelude::*;

use crate::bound::Bound;
use crate::errors::StoreError;
use crate::bound::BoundView;
use crate::model::capped;
use crate::model::decoded_as;
use crate::model::item_models;
use crate::model::ScanItem;
use crate::model::matching;
use crate::model::under_prefix;
use crate::model::Entry;

verus! {

/// The in-memory ordered key-value store of cosmwasm_std: a byte-keyed map
/// iterated in ascending byte order. Opaque to the verifier; what the
/// pagination contracts say of its contents they say through the named
/// projections below.
#[verifier::external_type_specification]
#[verifier::external_body]
pub struct ExMockStorage(cosmwasm_std::testing::MockStorage);

/// The entries of the single-key map stored under `namespace`, as
/// cw_storage_plus decodes them: (key, value) pairs in strictly ascending key
/// order (the backing store is an ordered map, so each key occurs once).
pub uninterp spec fn map_entries(
    store: cosmwasm_std::testing::MockStorage,
    namespace: Seq<char>,
) -> Seq<Entry>;

/// Whether every raw entry under `namespace` decodes as a (string key,
/// integer value) pair, so that a scan of the single-key map yields no read
/// error.
pub uninterp spec fn map_decodes(
    store: cosmwasm_std::testing::MockStorage,
    namespace: Seq<char>,
) -> bool;

/// The entries of the composite-key map stored under `namespace`: each key a
/// (prefix, suffix) pair of strings, in ascending composite-key order, so
/// within any one prefix the suffixes are strictly ascending.
pub uninterp spec fn pair_entries(
    store: cosmwasm_std::testing::MockStorage,
    namespace: Seq<char>,
) -> Seq<((Seq<char>, Seq<char>), u128)>;

/// Whether every raw entry under `namespace` decodes as a composite-keyed
/// (prefix, suffix, integer value) record, so that a prefix scan yields no
/// read error.
pub uninterp spec fn pair_decodes(
    store: cosmwasm_std::testing::MockStorage,
    namespace: Seq<char>,
) -> bool;

/// The full ascending scan of the single-key map under `namespace` from the
/// cursor `start`: each element the decoded (key, value) entry, or the
/// message of the failed read, in storage order. A function of the store, the
/// namespace and the cursor alone.
pub uninterp spec fn map_scan(
    store: cosmwasm_std::testing::MockStorage,
    namespace: Seq<char>,
    start: BoundView,
) -> Seq<ScanItem>;

/// The full ascending scan of the composite-key map under `namespace`
/// restricted to `prefix`, from the cursor `start` in the suffix key space:
/// each element the decoded (suffix, value) entry, or the message of the
/// failed read, in storage order.
pub uninterp spec fn pair_scan(
    store: cosmwasm_std::testing::MockStorage,
    namespace: Seq<char>,
    prefix: Seq<char>,
    start: BoundView,
) -> Seq<ScanItem>;

/// Relies on cw_storage_plus::Map::range over a MockStorage with string keys
/// and Uint128 values: an ascending scan from the translated start bound,
/// stopped after at most `n` entries; each entry either decodes to its key
/// and value or yields a read error. The store's key layout length-prefixes
/// the namespace and refuses a component over 0xFFFF bytes; a character takes
/// at most four bytes, so the character bound below keeps the call total.
#[verifier::external_body]
pub(crate) fn scan_map(
    store: &cosmwasm_std::testing::MockStorage,
    namespace: &'static str,
    start: &Bound,
    n: usize,
) -> (r: Vec<Result<(String, u128), StoreError>>)
    requires
        namespace@.len() <= 0x3FFF,
    ensures
        r@.len() <= n,
        r@.len() == capped(map_scan(*store, namespace@, start@), n as int).len(),
        forall|i: int|
            0 <= i < r@.len() ==> item_models(
                #[trigger] r@[i],
                map_scan(*store, namespace@, start@)[i],
            ),
        map_decodes(*store, namespace@) ==> r@.len() == capped(
            matching(map_entries(*store, namespace@), start@),
            n as int,
        ).len() && (forall|i: int|
            0 <= i < r@.len() ==> decoded_as(
                r@[i],
                matching(map_entries(*store, namespace@), start@)[i],
            )),
{
    let map: cw_storage_plus::Map<&str, cosmwasm_std::Uint128> = cw_storage_plus::Map::new(namespace);
    let start_bound = match start {
        Bound::Unbounded => None,
        Bound::Inclusive(k) => Some(cw_storage_plus::Bound::inclusive(k.as_str())),
        Bound::Exclusive(k) => Some(cw_storage_plus::Bound::exclusive(k.as_str())),
    };
    map.range(store, start_bound, None, cosmwasm_std::Order::Ascending).take(n).map(|item| match item {
        Ok((k, v)) => Ok((k, v.u128())),
        Err(e) => Err(StoreError { msg: e.to_string() }),
    }).collect()
}

/// Relies on cw_storage_plus::Map::prefix followed by range, over a
/// MockStorage with (string, string) composite keys and Uint128 values: an
/// ascending scan of the entries under `prefix` alone, resumed from the
/// translated start bound in the suffix key space, stopped after at most `n`
/// entries; each entry either decodes to its suffix key and value or yields a
/// read error. The store's key layout length-prefixes the namespace and the
/// prefix and refuses a component over 0xFFFF bytes; a character takes at
/// most four bytes, so the character bounds below keep the call total.
#[verifier::external_body]
pub(crate) fn scan_map_prefix(
    store: &cosmwasm_std::testing::MockStorage,
    namespace: &'static str,
    prefix: &str,
    start: &Bound,
    n: usize,
) -> (r: Vec<Result<(String, u128), StoreError>>)
    requires
        namespace@.len() <= 0x3FFF,
        prefix@.len() <= 0x3FFF,
    ensures
        r@.len() <= n,
        r@.len() == capped(pair_scan(*store, namespace@, prefix@, start@), n as int).len(),
        forall|i: int|
            0 <= i < r@.len() ==> item_models(
                #[trigger] r@[i],
                pair_scan(*store, namespace@, prefix@, start@)[i],
            ),
        pair_decodes(*store, namespace@) ==> r@.len() == capped(
            matching(under_prefix(pair_entries(*store, namespace@), prefix@), start@),
            n as int,
        ).len() && (forall|i: int|
            0 <= i < r@.len() ==> decoded_as(
                r@[i],
                matching(under_prefix(pair_entries(*store, namespace@), prefix@), start@)[i],
            )),
{
    let map: cw_storage_plus::Map<(&str, &str), cosmwasm_std::Uint128> = cw_storage_plus::Map::new(namespace);
    let start_bound = match start {
        Bound::Unbounded => None,
        Bound::Inclusive(k) => Some(cw_storage_plus::Bound::inclusive(k.as_str())),
        Bound::Exclusive(k) => Some(cw_storage_plus::Bound::exclusive(k.as_str())),
    };
    map.prefix(prefix).range(store, start_bound, None, cosmwasm_std::Order::Ascending).take(n).map(|item| match item {
        Ok((k, v)) => Ok((k, v.u128())),
        Err(e) => Err(StoreError { msg: e.to_string() }),
    }).collect()
}

} // verus!
