use stalk_api::db::{CoordStore, DEFAULT_ROW_CAP, DEFAULT_WINDOW_MS};
use stalk_api::models::UserCoords;

/// An arbitrary server instant, in milliseconds.
const NOW: u64 = 1_700_000_000_000;

const TWO_DAYS_MS: u64 = 2 * 24 * 60 * 60 * 1000;

fn coords(name: &str, latitude: f64, longitude: f64) -> UserCoords {
    UserCoords {
        name: name.to_string(),
        latitude: latitude.to_bits(),
        longitude: longitude.to_bits(),
        timestamp: None,
    }
}

#[test]
fn test_get_specific_user_coords_empty_db() {
    let store = CoordStore::new(DEFAULT_ROW_CAP);
    let result =
        store.get_specific_user_coords_time_limited(&"nonexistent".to_string(), NOW, DEFAULT_WINDOW_MS);
    assert!(result.is_none());
}

#[test]
fn test_get_specific_user_coords_with_data() {
    let mut store = CoordStore::new(DEFAULT_ROW_CAP);

    let test_user = coords("testuser", 59.32721, 18.10710);

    let inserted = store.upsert_coords(&test_user, NOW);
    assert_eq!(inserted.name, test_user.name);
    assert_eq!(inserted.latitude, test_user.latitude);
    assert_eq!(inserted.longitude, test_user.longitude);

    let retrieved = store
        .get_specific_user_coords_time_limited(&test_user.name, NOW, DEFAULT_WINDOW_MS)
        .unwrap();

    assert_eq!(retrieved.name, test_user.name);
    assert_eq!(retrieved.latitude, test_user.latitude);
    assert_eq!(retrieved.longitude, test_user.longitude);
}

#[test]
fn test_expired_coords_not_returned() {
    let mut store = CoordStore::new(DEFAULT_ROW_CAP);

    // A row written two days before the instant the queries run at.
    store.upsert_coords(&coords("olduser", 59.32721, 18.10710), NOW - TWO_DAYS_MS);

    let result =
        store.get_specific_user_coords_time_limited(&"olduser".to_string(), NOW, DEFAULT_WINDOW_MS);
    assert!(result.is_none());
    let all_find = store.get_specific_user_coords(&"olduser".to_string());
    assert!(!all_find.is_none());
}

#[test]
fn insert_then_get_by_name_matches() {
    let mut store = CoordStore::new(DEFAULT_ROW_CAP);
    let payload = coords("carol", -33.86882, 151.20930);
    store.upsert_coords(&payload, NOW);

    let row = store.get_specific_user_coords(&"carol".to_string()).unwrap();
    assert_eq!(row.name, "carol");
    assert_eq!(row.latitude, (-33.86882f64).to_bits());
    assert_eq!(row.longitude, 151.20930f64.to_bits());
    assert_eq!(row.timestamp, Some(NOW));
}

#[test]
fn upsert_twice_keeps_one_row_and_supersedes() {
    let mut store = CoordStore::new(DEFAULT_ROW_CAP);
    store.upsert_coords(&coords("bob", 1.0, 2.0), NOW - 1000);
    let second = store.upsert_coords(&coords("bob", 3.0, 4.0), NOW);

    let all = store.get_all_cords();
    assert_eq!(all.len(), 1);
    assert_eq!(all[0].name, "bob");
    assert_eq!(all[0].latitude, 3.0f64.to_bits());
    assert_eq!(all[0].longitude, 4.0f64.to_bits());
    assert_eq!(all[0].timestamp, Some(NOW));
    assert_eq!(second.timestamp, Some(NOW));
}

#[test]
fn listings_never_exceed_the_cap() {
    let mut store = CoordStore::new(DEFAULT_ROW_CAP);
    for i in 0..25u32 {
        store.upsert_coords(&coords(&format!("user{}", i), 1.5, 2.5), NOW);
    }
    assert_eq!(store.get_all_cords().len(), 20);
    assert_eq!(store.get_all_cords_time_limited(NOW, DEFAULT_WINDOW_MS).len(), 20);
}

#[test]
fn stale_rows_are_excluded_from_recent_listings_only() {
    let mut store = CoordStore::new(DEFAULT_ROW_CAP);
    store.upsert_coords(&coords("fresh", 1.0, 1.0), NOW - 1000);
    store.upsert_coords(&coords("stale", 2.0, 2.0), NOW - TWO_DAYS_MS);

    let recent = store.get_all_cords_time_limited(NOW, DEFAULT_WINDOW_MS);
    assert_eq!(recent.len(), 1);
    assert_eq!(recent[0].name, "fresh");

    let all = store.get_all_cords();
    assert_eq!(all.len(), 2);

    // The non-time-limited lookup still returns the stale row.
    let stale = store.get_specific_user_coords(&"stale".to_string()).unwrap();
    assert_eq!(stale.timestamp, Some(NOW - TWO_DAYS_MS));
}

#[test]
fn freshness_window_boundary_is_strict() {
    let mut store = CoordStore::new(DEFAULT_ROW_CAP);
    let window: u64 = 60_000;

    // Exactly at the window edge: timestamp == now - window is not fresh.
    store.upsert_coords(&coords("edge", 1.0, 1.0), NOW - window);
    assert!(store
        .get_specific_user_coords_time_limited(&"edge".to_string(), NOW, window)
        .is_none());

    // One millisecond inside the window is fresh.
    store.upsert_coords(&coords("edge", 1.0, 1.0), NOW - window + 1);
    assert!(store
        .get_specific_user_coords_time_limited(&"edge".to_string(), NOW, window)
        .is_some());
}

#[test]
fn unknown_and_stale_names_are_indistinguishable() {
    let mut store = CoordStore::new(DEFAULT_ROW_CAP);
    store.upsert_coords(&coords("stale", 2.0, 2.0), NOW - TWO_DAYS_MS);

    // A never-inserted name and a stale row give the same observable result.
    let unknown =
        store.get_specific_user_coords_time_limited(&"neverseen".to_string(), NOW, DEFAULT_WINDOW_MS);
    let stale =
        store.get_specific_user_coords_time_limited(&"stale".to_string(), NOW, DEFAULT_WINDOW_MS);
    assert!(unknown.is_none());
    assert!(stale.is_none());
}

#[test]
fn empty_store_lists_nothing() {
    let store = CoordStore::new(DEFAULT_ROW_CAP);
    assert!(store.get_all_cords().is_empty());
    assert!(store.get_all_cords_time_limited(NOW, DEFAULT_WINDOW_MS).is_empty());
}
