use ruuvitag_upload::store::{StoreError, StoreScan, find_cached_measurements, list_pending,
    pending_file_name, pending_id};

fn names(v: &[&str]) -> Vec<String> {
    v.iter().map(|s| s.to_string()).collect()
}

#[test]
fn test_find_cached_measurements() {
    let listing = names(&["1236.json", "1233.cmd", "1234.json", "1235.json", "1238.md",
        "1237.txt"]);
    let ids = find_cached_measurements(&listing);
    assert_eq!(ids, vec![1234, 1235, 1236]);
    let files: Vec<String> = ids.iter().map(|id| pending_file_name(*id)).collect();
    assert_eq!(files, vec!["1234.json", "1235.json", "1236.json"]);
}

#[test]
fn test_find_cached_measurements_sorts_and_dedupes() {
    let listing = names(&["30.json", "9.json", "100.json", "9.json"]);
    let ids = find_cached_measurements(&listing);
    assert_eq!(ids, vec![9, 30, 100]);
}

#[test]
fn test_list_pending_missing_location_is_empty() {
    let r = list_pending(&StoreScan::Missing);
    assert_eq!(r, Ok(vec![]));
}

#[test]
fn test_list_pending_failed_access_is_error() {
    let r = list_pending(&StoreScan::Failed);
    assert_eq!(r, Err(StoreError::Access));
}

#[test]
fn test_list_pending_listed() {
    let r = list_pending(&StoreScan::Listed(names(&["2.json", "1.json", "x.txt"])));
    assert_eq!(r, Ok(vec![1, 2]));
}

#[test]
fn test_pending_id_recognized_forms() {
    assert_eq!(pending_id("1234.json"), Some(1234));
    assert_eq!(pending_id("0.json"), Some(0));
    assert_eq!(pending_id("18446744073709551615.json"), Some(u64::MAX));
}

#[test]
fn test_pending_id_rejected_forms() {
    assert_eq!(pending_id(".json"), None);
    assert_eq!(pending_id("json"), None);
    assert_eq!(pending_id(""), None);
    assert_eq!(pending_id("01.json"), None);
    assert_eq!(pending_id("12a4.json"), None);
    assert_eq!(pending_id("1234.txt"), None);
    assert_eq!(pending_id("1234.jso"), None);
    assert_eq!(pending_id("1234json"), None);
    // one past the largest identifier, and a still longer value
    assert_eq!(pending_id("18446744073709551616.json"), None);
    assert_eq!(pending_id("99999999999999999999999.json"), None);
}

#[test]
fn test_pending_name_roundtrip() {
    assert_eq!(pending_file_name(1699999999), "1699999999.json");
    assert_eq!(pending_id(&pending_file_name(1699999999)), Some(1699999999));
    assert_eq!(pending_file_name(0), "0.json");
    assert_eq!(pending_file_name(u64::MAX), "18446744073709551615.json");
}
