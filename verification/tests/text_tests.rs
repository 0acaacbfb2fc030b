use product_table::text::{normalize_ws, trim_ws};

#[test]
fn normalize_label_scenario() {
    // A details-region label with stray blanks and a newline becomes a clean key.
    assert_eq!(normalize_ws(" Refresh  Rate \n").as_str(), "Refresh Rate");
}

#[test]
fn normalize_value_scenario() {
    // An embedded newline in a cell value collapses to a single space.
    assert_eq!(normalize_ws("144\nHz").as_str(), "144 Hz");
}

#[test]
fn normalize_is_idempotent_on_concrete_values() {
    let once = normalize_ws("  a \t b \r\n c  ");
    let twice = normalize_ws(once.as_str());
    assert_eq!(once.as_str(), "a b c");
    assert_eq!(twice.as_str(), once.as_str());
}

#[test]
fn normalize_empty_and_blank() {
    assert_eq!(normalize_ws("").as_str(), "");
    assert_eq!(normalize_ws(" \t\r\n ").as_str(), "");
}

#[test]
fn normalize_already_clean() {
    assert_eq!(normalize_ws("Monitor A").as_str(), "Monitor A");
}

#[test]
fn trim_removes_ends_only() {
    assert_eq!(trim_ws("  Monitor A \n").as_str(), "Monitor A");
    // Inner whitespace is untouched by trimming.
    assert_eq!(trim_ws(" x\ny ").as_str(), "x\ny");
}

#[test]
fn trim_empty_and_blank() {
    assert_eq!(trim_ws("").as_str(), "");
    assert_eq!(trim_ws("   ").as_str(), "");
}

#[test]
fn trim_is_idempotent_on_concrete_values() {
    let once = trim_ws("  $199  ");
    let twice = trim_ws(once.as_str());
    assert_eq!(once.as_str(), "$199");
    assert_eq!(twice.as_str(), once.as_str());
}

#[test]
fn normalize_handles_non_ascii_text() {
    assert_eq!(normalize_ws("  écran \u{9}plat ").as_str(), "écran plat");
}
