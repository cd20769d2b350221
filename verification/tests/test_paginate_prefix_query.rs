use cosmwasm_std::testing::MockStorage;
use cosmwasm_std::{StdError, Uint128};
use cw_paginate::{paginate_prefix_query, Bound};

fn populated() -> MockStorage {
    let mut storage = MockStorage::new();
    let map: cw_storage_plus::Map<(&str, &str), Uint128> = cw_storage_plus::Map::new("map");
    map.save(&mut storage, ("prefix_1", "key_1"), &Uint128::new(1)).unwrap();
    map.save(&mut storage, ("prefix_1", "key_2"), &Uint128::new(2)).unwrap();
    map.save(&mut storage, ("prefix_2", "key_1"), &Uint128::new(3)).unwrap();
    map.save(&mut storage, ("prefix_3", "key_1"), &Uint128::new(4)).unwrap();
    storage
}

#[test]
fn empty_when_prefix_not_found() {
    let storage = populated();

    let res = paginate_prefix_query(
        &storage,
        "map",
        "prefix_x",
        &Bound::none(),
        Some(3),
        |_key: String, amount: u128| Ok::<Uint128, StdError>(Uint128::new(amount)),
    )
    .unwrap();

    assert!(!res.metadata.has_more);
    assert_eq!(res.data.len(), 0);
}

#[test]
fn has_more_false_when_all_prefixes_within_limit() {
    let storage = populated();

    let res = paginate_prefix_query(
        &storage,
        "map",
        "prefix_1",
        &Bound::none(),
        Some(3),
        |_key: String, amount: u128| Ok::<Uint128, StdError>(Uint128::new(amount)),
    )
    .unwrap();

    assert_eq!(res.data.get(0).unwrap(), Uint128::new(1));
    assert_eq!(res.data.get(1).unwrap(), Uint128::new(2));
    assert!(!res.metadata.has_more);
    assert_eq!(res.data.len(), 2);
}

#[test]
fn has_more_true_when_results_outside_limit() {
    let storage = populated();

    let res = paginate_prefix_query(
        &storage,
        "map",
        "prefix_1",
        &Bound::none(),
        Some(1),
        |_key: String, amount: u128| Ok::<Uint128, StdError>(Uint128::new(amount)),
    )
    .unwrap();

    assert_eq!(res.data.get(0).unwrap(), Uint128::new(1));
    assert!(res.metadata.has_more);
    assert_eq!(res.data.len(), 1);
}

#[test]
fn empty_when_start_after_not_found() {
    let storage = populated();

    let res = paginate_prefix_query(
        &storage,
        "map",
        "prefix_1",
        &Bound::inclusive("key_x".to_string()),
        Some(1),
        |_key: String, amount: u128| Ok::<Uint128, StdError>(Uint128::new(amount)),
    )
    .unwrap();

    assert!(!res.metadata.has_more);
    assert_eq!(res.data.len(), 0);
}

#[test]
fn test_paginate_prefix_query_has_more_false_when_start_is_last_alphabetically() {
    let storage = populated();

    let res = paginate_prefix_query(
        &storage,
        "map",
        "prefix_1",
        &Bound::inclusive("key_2".to_string()),
        Some(1),
        |_key: String, amount: u128| Ok::<Uint128, StdError>(Uint128::new(amount)),
    )
    .unwrap();

    assert_eq!(res.data.get(0).unwrap(), Uint128::new(2));
    assert!(!res.metadata.has_more);
    assert_eq!(res.data.len(), 1);
}
