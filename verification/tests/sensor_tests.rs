use ruuvitag_upload::sensor::parse_sensor;

#[test]
fn test_parse_sensor_with_alias() {
    assert_eq!(parse_sensor("AA:BB:CC:DD:EE:FF=kitchen"), ("AA:BB:CC:DD:EE:FF", "kitchen"));
}

#[test]
fn test_parse_sensor_without_alias() {
    assert_eq!(parse_sensor("AA:BB:CC:DD:EE:FF"), ("AA:BB:CC:DD:EE:FF", "AA:BB:CC:DD:EE:FF"));
}

#[test]
fn test_parse_sensor_extra_separators() {
    assert_eq!(parse_sensor("a=b=c"), ("a", "b"));
    assert_eq!(parse_sensor("a="), ("a", ""));
    assert_eq!(parse_sensor("=x"), ("", "x"));
}
