use ruuvitag_upload::collector::{Advertisement, Batch, CollectError, SensorTable, collect,
    reading_from_event};
use ruuvitag_upload::sensor::from_manufacturer_data;

// A data-format-3 advertisement payload of the sensor protocol, prefixed with
// the little-endian manufacturer id 0x0499. Decodes to: humidity 115000 ppm,
// temperature 1690 m°C, pressure 63656 Pa, battery 2182 mV.
fn payload_a() -> Vec<u8> {
    vec![0x99, 0x04, 0x03, 0x17, 0x01, 0x45, 0x35, 0x58, 0x03, 0xE8, 0x04, 0xE7, 0x05, 0xE6,
        0x08, 0x86]
}

// The same advertisement with a different humidity byte: 120000 ppm.
fn payload_b() -> Vec<u8> {
    vec![0x99, 0x04, 0x03, 0x18, 0x01, 0x45, 0x35, 0x58, 0x03, 0xE8, 0x04, 0xE7, 0x05, 0xE6,
        0x08, 0x86]
}

fn event(address: &str, data: Option<Vec<u8>>, timestamp: u64) -> Advertisement {
    Advertisement { address: address.to_string(), manufacturer_data: data, timestamp }
}

fn table(pairs: &[(&str, &str)]) -> SensorTable {
    let mut t = SensorTable::new();
    for (addr, alias) in pairs {
        assert!(t.insert(addr.to_string(), alias.to_string()));
    }
    t
}

#[test]
fn test_decode_real_payload() {
    let values = from_manufacturer_data(&payload_a()).unwrap();
    assert_eq!(values.humidity_ppm, Some(115_000));
    assert_eq!(values.temperature_millicelsius, Some(1690));
    assert_eq!(values.pressure_pascals, Some(63_656));
    assert_eq!(values.battery_potential_millivolts, Some(2182));
}

#[test]
fn test_decode_rejects_bad_frames() {
    // too short to carry an id and a payload
    assert_eq!(from_manufacturer_data(&[0x99, 0x04]), None);
    // a foreign manufacturer id
    let mut foreign = payload_a();
    foreign[1] = 0x05;
    assert_eq!(from_manufacturer_data(&foreign), None);
    // an unsupported format version
    let mut bad_version = payload_a();
    bad_version[2] = 0x7F;
    assert_eq!(from_manufacturer_data(&bad_version), None);
}

#[test]
fn test_reading_from_event_carries_address_and_time() {
    let e = event("AA:BB:CC:DD:EE:FF", Some(payload_a()), 1700000000);
    let r = reading_from_event(&e).unwrap();
    assert_eq!(r.address, "AA:BB:CC:DD:EE:FF");
    assert_eq!(r.timestamp, 1700000000);
    assert_eq!(r.values.humidity_ppm, Some(115_000));
    assert!(reading_from_event(&event("AA", None, 1)).is_none());
}

#[test]
fn test_collect_covers_all_sensors() {
    let t = table(&[("A1", "kitchen"), ("B2", "porch"), ("C3", "cellar")]);
    let events = vec![
        event("ZZ", Some(payload_a()), 1),        // foreign device, discarded
        event("B2", Some(vec![0x01]), 2),         // undecodable, discarded
        event("B2", Some(payload_a()), 3),
        event("C3", None, 4),                     // no manufacturer data, discarded
        event("A1", Some(payload_b()), 5),
        event("C3", Some(payload_a()), 6),
        event("A1", Some(payload_a()), 7),        // after completeness: never consumed
    ];
    let batch = collect(&t, &events).unwrap();
    assert_eq!(batch.len(), 3);
    for alias in ["kitchen", "porch", "cellar"] {
        assert!(batch.get(&alias.to_string()).is_some());
    }
    // entries are keyed by alias and carry their device's address
    let porch = batch.get(&"porch".to_string()).unwrap();
    assert_eq!(porch.address, "B2");
    assert_eq!(porch.timestamp, 3);
    // the round stopped at completeness: the kitchen reading is the one from
    // timestamp 5, not the later one
    let kitchen = batch.get(&"kitchen".to_string()).unwrap();
    assert_eq!(kitchen.timestamp, 5);
    assert_eq!(kitchen.values.humidity_ppm, Some(120_000));
}

#[test]
fn test_collect_most_recent_wins() {
    let t = table(&[("A1", "kitchen"), ("B2", "porch")]);
    let events = vec![
        event("A1", Some(payload_a()), 10),
        event("A1", Some(payload_b()), 11),
        event("B2", Some(payload_a()), 12),
    ];
    let batch = collect(&t, &events).unwrap();
    assert_eq!(batch.len(), 2);
    let kitchen = batch.get(&"kitchen".to_string()).unwrap();
    assert_eq!(kitchen.values.humidity_ppm, Some(120_000));
    assert_eq!(kitchen.timestamp, 11);
}

#[test]
fn test_collect_empty_table_returns_empty_batch() {
    let t = SensorTable::new();
    let events = vec![event("A1", Some(payload_a()), 1)];
    let batch = collect(&t, &events).unwrap();
    assert_eq!(batch.len(), 0);
}

#[test]
fn test_collect_stream_ending_is_fatal() {
    let t = table(&[("A1", "kitchen")]);
    let events = vec![event("ZZ", Some(payload_a()), 1)];
    match collect(&t, &events) {
        Ok(_) => panic!("a partial batch must never be returned"),
        Err(e) => assert_eq!(e, CollectError::StreamEnded),
    }
}

#[test]
fn test_batch_keeps_first_insertion_order() {
    let t = table(&[("A1", "kitchen"), ("B2", "porch")]);
    let events = vec![
        event("B2", Some(payload_a()), 1),
        event("B2", Some(payload_b()), 2),
        event("A1", Some(payload_a()), 3),
    ];
    let batch = collect(&t, &events).unwrap();
    assert_eq!(batch.alias_at(0), "porch");
    assert_eq!(batch.alias_at(1), "kitchen");
    // overwritten in place, position kept
    assert_eq!(batch.reading_at(0).values.humidity_ppm, Some(120_000));
}

#[test]
fn test_table_insert_rejects_duplicates() {
    let mut t = SensorTable::new();
    assert!(t.insert("A1".to_string(), "kitchen".to_string()));
    assert!(!t.insert("A1".to_string(), "other".to_string()));
    assert!(!t.insert("B2".to_string(), "kitchen".to_string()));
    assert!(t.insert("B2".to_string(), "porch".to_string()));
    assert_eq!(t.len(), 2);
}

#[test]
fn test_batch_upsert_and_get() {
    let mut b = Batch::new();
    let e = event("A1", Some(payload_a()), 5);
    b.upsert("kitchen".to_string(), reading_from_event(&e).unwrap());
    assert_eq!(b.len(), 1);
    assert!(b.get(&"kitchen".to_string()).is_some());
    assert!(b.get(&"porch".to_string()).is_none());
}
