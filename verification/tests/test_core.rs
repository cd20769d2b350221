use cosmwasm_std::testing::MockStorage;
use cosmwasm_std::{StdError, Storage, Uint128};
use cw_paginate::{
    collect, effective_limit, paginate_map, paginate_map_prefix, paginate_map_query,
    paginate_prefix_query, Bound, PaginateError, StoreError, DEFAULT_LIMIT, MAX_LIMIT,
};

fn numbered(storage: &mut MockStorage, count: u32) {
    let map: cw_storage_plus::Map<&str, Uint128> = cw_storage_plus::Map::new("map");
    for i in 1..=count {
        let key = format!("key_{:02}", i);
        map.save(storage, &key, &Uint128::new(i as u128)).unwrap();
    }
}

#[test]
fn effective_limit_defaults_and_clamps() {
    assert_eq!(DEFAULT_LIMIT, 10);
    assert_eq!(MAX_LIMIT, 30);
    assert_eq!(effective_limit(None), 10);
    assert_eq!(effective_limit(Some(0)), 0);
    assert_eq!(effective_limit(Some(7)), 7);
    assert_eq!(effective_limit(Some(30)), 30);
    assert_eq!(effective_limit(Some(50)), 30);
}

#[test]
fn default_limit_taken_when_none_requested() {
    let mut storage = MockStorage::new();
    numbered(&mut storage, 11);

    let res = paginate_map_query(&storage, "map", &Bound::none(), None, |_key: String, v: u128| {
        Ok::<u128, StdError>(v)
    })
    .unwrap();

    assert_eq!(res.data.len(), 10);
    assert!(res.metadata.has_more);
}

#[test]
fn limit_clamped_to_max_with_accurate_has_more() {
    let mut storage = MockStorage::new();
    numbered(&mut storage, 31);

    let res = paginate_map_query(&storage, "map", &Bound::none(), Some(50), |_key: String, v: u128| {
        Ok::<u128, StdError>(v)
    })
    .unwrap();

    assert_eq!(res.data.len(), 30);
    assert!(res.metadata.has_more);

    let exact = paginate_map_query(&storage, "map", &Bound::none(), Some(31), |_key: String, v: u128| {
        Ok::<u128, StdError>(v)
    })
    .unwrap();

    assert_eq!(exact.data.len(), 30);
    assert!(exact.metadata.has_more);
}

#[test]
fn zero_limit_gives_empty_page_and_reports_remainder() {
    let mut storage = MockStorage::new();
    numbered(&mut storage, 3);

    let res = paginate_map_query(&storage, "map", &Bound::none(), Some(0), |_key: String, v: u128| {
        Ok::<u128, StdError>(v)
    })
    .unwrap();

    assert_eq!(res.data.len(), 0);
    assert!(res.metadata.has_more);

    let empty = MockStorage::new();
    let none = paginate_map_query(&empty, "map", &Bound::none(), Some(0), |_key: String, v: u128| {
        Ok::<u128, StdError>(v)
    })
    .unwrap();
    assert_eq!(none.data.len(), 0);
    assert!(!none.metadata.has_more);
}

#[test]
fn order_is_ascending_by_key() {
    let mut storage = MockStorage::new();
    let map: cw_storage_plus::Map<&str, Uint128> = cw_storage_plus::Map::new("map");
    map.save(&mut storage, "key_3", &Uint128::new(3)).unwrap();
    map.save(&mut storage, "key_1", &Uint128::new(1)).unwrap();
    map.save(&mut storage, "key_2", &Uint128::new(2)).unwrap();

    let res = paginate_map(&storage, "map", &Bound::none(), Some(10), |key: String, v: u128| {
        Ok::<(String, u128), StdError>((key, v))
    })
    .unwrap();

    assert_eq!(
        res,
        vec![
            ("key_1".to_string(), 1),
            ("key_2".to_string(), 2),
            ("key_3".to_string(), 3),
        ]
    );
}

#[test]
fn rescan_with_identical_arguments_is_identical() {
    let mut storage = MockStorage::new();
    numbered(&mut storage, 5);

    let first = paginate_map_query(&storage, "map", &Bound::none(), Some(3), |key: String, v: u128| {
        Ok::<(String, u128), StdError>((key, v))
    })
    .unwrap();
    let second = paginate_map_query(&storage, "map", &Bound::none(), Some(3), |key: String, v: u128| {
        Ok::<(String, u128), StdError>((key, v))
    })
    .unwrap();

    assert_eq!(first, second);
}

#[test]
fn resuming_after_last_key_gives_next_page_without_overlap_or_gap() {
    let mut storage = MockStorage::new();
    numbered(&mut storage, 5);

    let page1 = paginate_map_query(&storage, "map", &Bound::none(), Some(2), |key: String, v: u128| {
        Ok::<(String, u128), StdError>((key, v))
    })
    .unwrap();
    assert_eq!(page1.data.len(), 2);
    assert!(page1.metadata.has_more);

    let last_key = page1.data.last().unwrap().0.clone();
    let page2 = paginate_map_query(
        &storage,
        "map",
        &Bound::exclusive(last_key),
        Some(2),
        |key: String, v: u128| Ok::<(String, u128), StdError>((key, v)),
    )
    .unwrap();

    let mut joined = page1.data.clone();
    joined.extend(page2.data.clone());
    assert_eq!(
        joined,
        vec![
            ("key_01".to_string(), 1),
            ("key_02".to_string(), 2),
            ("key_03".to_string(), 3),
            ("key_04".to_string(), 4),
        ]
    );
}

#[test]
fn prefix_scan_never_leaks_other_prefixes() {
    let mut storage = MockStorage::new();
    let map: cw_storage_plus::Map<(&str, &str), Uint128> = cw_storage_plus::Map::new("map");
    map.save(&mut storage, ("prefix_1", "key_1"), &Uint128::new(1)).unwrap();
    map.save(&mut storage, ("prefix_2", "key_1"), &Uint128::new(2)).unwrap();
    map.save(&mut storage, ("prefix_2", "key_2"), &Uint128::new(3)).unwrap();
    map.save(&mut storage, ("prefix_3", "key_1"), &Uint128::new(4)).unwrap();

    let res = paginate_map_prefix(
        &storage,
        "map",
        "prefix_2",
        &Bound::none(),
        Some(30),
        |key: String, v: u128| Ok::<(String, u128), StdError>((key, v)),
    )
    .unwrap();

    assert_eq!(res, vec![("key_1".to_string(), 2), ("key_2".to_string(), 3)]);
}

#[test]
fn corrupt_entry_surfaces_as_store_error() {
    let mut storage = MockStorage::new();
    numbered(&mut storage, 2);
    let mut raw_key: Vec<u8> = vec![0u8, 3u8];
    raw_key.extend_from_slice(b"map");
    raw_key.extend_from_slice(b"key_00");
    storage.set(&raw_key, b"not a number");

    let res = paginate_map_query(&storage, "map", &Bound::none(), Some(5), |_key: String, v: u128| {
        Ok::<u128, StdError>(v)
    });

    assert!(matches!(res, Err(PaginateError::Store(_))));
}

#[test]
fn corrupt_entry_beyond_window_leaves_page_intact() {
    let mut storage = MockStorage::new();
    numbered(&mut storage, 3);
    let mut raw_key: Vec<u8> = vec![0u8, 3u8];
    raw_key.extend_from_slice(b"map");
    raw_key.extend_from_slice(b"key_99");
    storage.set(&raw_key, b"not a number");

    let res = paginate_map_query(&storage, "map", &Bound::none(), Some(2), |_key: String, v: u128| {
        Ok::<u128, StdError>(v)
    })
    .unwrap();

    assert_eq!(res.data, vec![1, 2]);
    assert!(res.metadata.has_more);
}

#[test]
fn first_failing_entry_decides_the_error() {
    let mut storage = MockStorage::new();
    numbered(&mut storage, 4);

    let res = paginate_map_query(&storage, "map", &Bound::none(), Some(4), |key: String, v: u128| {
        if key == "key_02" {
            Err(StdError::msg("second"))
        } else if key == "key_03" {
            Err(StdError::msg("third"))
        } else {
            Ok::<u128, StdError>(v)
        }
    });

    match res {
        Err(PaginateError::Parse(e)) => assert!(format!("{e}").contains("second")),
        _ => panic!("expected a parse error"),
    }
}

#[test]
fn rejected_transform_surfaces_as_parse_error() {
    let mut storage = MockStorage::new();
    numbered(&mut storage, 3);

    let res = paginate_map_query(&storage, "map", &Bound::none(), Some(5), |key: String, v: u128| {
        if key == "key_02" {
            Err(StdError::msg("rejected"))
        } else {
            Ok::<u128, StdError>(v)
        }
    });

    assert!(matches!(res, Err(PaginateError::Parse(_))));
}

#[test]
fn collect_takes_clamped_window_and_stops_at_first_failed_read() {
    let entries: Vec<Result<(String, u128), StoreError>> = vec![
        Ok(("a".to_string(), 1)),
        Ok(("b".to_string(), 2)),
        Ok(("c".to_string(), 3)),
    ];
    let out = collect(entries, Some(2), |key: String, v: u128| {
        Ok::<(String, u128), StdError>((key, v))
    })
    .unwrap();
    assert_eq!(out, vec![("a".to_string(), 1), ("b".to_string(), 2)]);

    let failing: Vec<Result<(String, u128), StoreError>> = vec![
        Ok(("a".to_string(), 1)),
        Err(StoreError { msg: "bad bytes".to_string() }),
        Ok(("c".to_string(), 3)),
    ];
    let res = collect(failing, Some(3), |key: String, v: u128| {
        Ok::<(String, u128), StdError>((key, v))
    });
    match res {
        Err(PaginateError::Store(se)) => assert_eq!(se.message(), "bad bytes"),
        _ => panic!("expected a store error"),
    }

    let out_of_window: Vec<Result<(String, u128), StoreError>> = vec![
        Ok(("a".to_string(), 1)),
        Err(StoreError { msg: "bad bytes".to_string() }),
    ];
    let ok = collect(out_of_window, Some(1), |key: String, v: u128| {
        Ok::<(String, u128), StdError>((key, v))
    })
    .unwrap();
    assert_eq!(ok, vec![("a".to_string(), 1)]);
}

#[test]
fn inclusive_bound_starts_at_the_given_key() {
    let mut storage = MockStorage::new();
    numbered(&mut storage, 4);

    let res = paginate_map(
        &storage,
        "map",
        &Bound::inclusive("key_02".to_string()),
        Some(2),
        |key: String, v: u128| Ok::<(String, u128), StdError>((key, v)),
    )
    .unwrap();

    assert_eq!(res, vec![("key_02".to_string(), 2), ("key_03".to_string(), 3)]);
}
