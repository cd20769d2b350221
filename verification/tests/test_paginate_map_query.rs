use cosmwasm_std::testing::MockStorage;
use cosmwasm_std::{StdError, Uint128};
use cw_paginate::{paginate_map_query, Bound};

#[test]
fn empty_when_start_not_found() {
    let mut storage = MockStorage::new();

    let map: cw_storage_plus::Map<&str, Uint128> = cw_storage_plus::Map::new("map");

    map.save(&mut storage, "key_1", &Uint128::new(1)).unwrap();
    map.save(&mut storage, "key_2", &Uint128::new(2)).unwrap();
    map.save(&mut storage, "key_3", &Uint128::new(3)).unwrap();

    let res = paginate_map_query(
        &storage,
        "map",
        &Bound::exclusive("key_x".to_string()),
        Some(3),
        |_key: String, amount: u128| Ok::<Uint128, StdError>(Uint128::new(amount)),
    )
    .unwrap();

    assert!(!res.metadata.has_more);
    assert_eq!(res.data.len(), 0);
}

#[test]
fn has_more_true_when_limit_not_reached() {
    let mut storage = MockStorage::new();

    let map: cw_storage_plus::Map<&str, Uint128> = cw_storage_plus::Map::new("map");

    map.save(&mut storage, "key_1", &Uint128::new(1)).unwrap();
    map.save(&mut storage, "key_2", &Uint128::new(2)).unwrap();
    map.save(&mut storage, "key_3", &Uint128::new(3)).unwrap();

    let res = paginate_map_query(&storage, "map", &Bound::none(), Some(2), |_key: String, amount: u128| {
        Ok::<Uint128, StdError>(Uint128::new(amount))
    })
    .unwrap();

    assert_eq!(res.data.get(0).unwrap(), Uint128::new(1));
    assert_eq!(res.data.get(1).unwrap(), Uint128::new(2));
    assert!(res.metadata.has_more);
    assert_eq!(res.data.len(), 2);
}

#[test]
fn has_more_false_when_limit_reached() {
    let mut storage = MockStorage::new();

    let map: cw_storage_plus::Map<&str, Uint128> = cw_storage_plus::Map::new("map");

    map.save(&mut storage, "key_1", &Uint128::new(1)).unwrap();
    map.save(&mut storage, "key_2", &Uint128::new(2)).unwrap();
    map.save(&mut storage, "key_3", &Uint128::new(3)).unwrap();

    let res = paginate_map_query(&storage, "map", &Bound::none(), Some(3), |_key: String, amount: u128| {
        Ok::<Uint128, StdError>(Uint128::new(amount))
    })
    .unwrap();

    assert_eq!(res.data.get(0).unwrap(), Uint128::new(1));
    assert_eq!(res.data.get(1).unwrap(), Uint128::new(2));
    assert_eq!(res.data.get(2).unwrap(), Uint128::new(3));
    assert!(!res.metadata.has_more);
    assert_eq!(res.data.len(), 3);
}

#[test]
fn empty_when_map_is_empty() {
    let storage = MockStorage::new();

    let res = paginate_map_query(&storage, "map", &Bound::none(), Some(3), |_key: String, amount: u128| {
        Ok::<Uint128, StdError>(Uint128::new(amount))
    })
    .unwrap();

    assert!(!res.metadata.has_more);
    assert_eq!(res.data.len(), 0);
}

#[test]
fn test_paginate_map_query_has_more_false_when_start_is_last_alphabetically() {
    let mut storage = MockStorage::new();

    let map: cw_storage_plus::Map<&str, Uint128> = cw_storage_plus::Map::new("map");

    map.save(&mut storage, "key_3", &Uint128::new(3)).unwrap();
    map.save(&mut storage, "key_2", &Uint128::new(2)).unwrap();
    map.save(&mut storage, "key_1", &Uint128::new(1)).unwrap();

    let res = paginate_map_query(
        &storage,
        "map",
        &Bound::inclusive("key_3".to_string()),
        Some(3),
        |_key: String, amount: u128| Ok::<Uint128, StdError>(Uint128::new(amount)),
    )
    .unwrap();

    assert_eq!(res.data.get(0).unwrap(), Uint128::new(3));
    assert!(!res.metadata.has_more);
    assert_eq!(res.data.len(), 1);
}
