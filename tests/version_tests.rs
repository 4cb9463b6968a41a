use promptlab::version::{next_version, parse_version_key, sort_versions, version_string, VersionInfo};

fn info(v: &str) -> VersionInfo {
    VersionInfo { version: v.to_string(), created_at: String::new() }
}

#[test]
fn versions_sort_highest_first() {
    let sorted = sort_versions(vec![info("0.1.0"), info("0.2.0"), info("0.1.9")]);
    let names: Vec<String> = sorted.into_iter().map(|i| i.version).collect();
    assert_eq!(names, vec!["0.2.0", "0.1.9", "0.1.0"]);
}

#[test]
fn numeric_not_textual_order() {
    let sorted = sort_versions(vec![info("0.1.9"), info("0.1.10"), info("1.0.0")]);
    let names: Vec<String> = sorted.into_iter().map(|i| i.version).collect();
    assert_eq!(names, vec!["1.0.0", "0.1.10", "0.1.9"]);
}

#[test]
fn unparsable_versions_sort_last() {
    let sorted = sort_versions(vec![info("draft"), info("0.0.1")]);
    assert_eq!(sorted[0].version, "0.0.1");
    assert_eq!(sorted[1].version, "draft");
    assert_eq!(parse_version_key("draft"), (0, 0, 0));
    assert_eq!(parse_version_key("3.4.5"), (3, 4, 5));
}

#[test]
fn next_version_raises_patch() {
    assert_eq!(next_version(Some("0.1.0")), Some("0.1.1".to_string()));
    assert_eq!(next_version(Some("2.7.41")), Some("2.7.42".to_string()));
}

#[test]
fn next_version_falls_back_to_initial() {
    assert_eq!(next_version(None), Some("0.1.0".to_string()));
    assert_eq!(next_version(Some("not a version")), Some("0.1.0".to_string()));
}

#[test]
fn next_version_stops_at_largest_patch() {
    assert_eq!(next_version(Some("1.2.18446744073709551615")), None);
}

#[test]
fn version_text_of_triple() {
    assert_eq!(version_string((10, 0, 3)), "10.0.3");
}
