use product_table::record::Record;

#[test]
fn insert_and_get() {
    let mut rec = Record::new();
    assert_eq!(rec.len(), 0);
    rec.insert(String::from("Name"), String::from("Monitor A"));
    rec.insert(String::from("Price"), String::from("$199"));
    assert_eq!(rec.len(), 2);
    assert_eq!(rec.get("Name").unwrap().as_str(), "Monitor A");
    assert_eq!(rec.get("Price").unwrap().as_str(), "$199");
    assert!(rec.get("Brand").is_none());
}

#[test]
fn insert_last_write_wins_in_place() {
    let mut rec = Record::new();
    rec.insert(String::from("Panel"), String::from("TN"));
    rec.insert(String::from("Brand"), String::from("Acme"));
    rec.insert(String::from("Panel"), String::from("IPS"));
    // The repeated key keeps its original position and takes the new value.
    assert_eq!(rec.len(), 2);
    assert_eq!(rec.key_at(0).as_str(), "Panel");
    assert_eq!(rec.value_at(0).as_str(), "IPS");
    assert_eq!(rec.key_at(1).as_str(), "Brand");
    assert_eq!(rec.get("Panel").unwrap().as_str(), "IPS");
}

#[test]
fn insert_if_absent_never_overwrites() {
    let mut rec = Record::new();
    rec.insert(String::from("Name"), String::from("Monitor B"));
    rec.insert_if_absent("Name", "NaN");
    rec.insert_if_absent("Brand", "NaN");
    assert_eq!(rec.get("Name").unwrap().as_str(), "Monitor B");
    assert_eq!(rec.get("Brand").unwrap().as_str(), "NaN");
    assert_eq!(rec.len(), 2);
}

#[test]
fn contains_key_matches_get() {
    let mut rec = Record::new();
    rec.insert(String::from("Resolution"), String::from("2560x1440"));
    assert!(rec.contains_key("Resolution"));
    assert!(!rec.contains_key("Refresh Rate"));
}
