//! What the planning walk counts: external binaries, version histories, and
//! the identifiers, dates and paths they are found by.

use froe::content::{
    BinaryValue, PropertyState, PropertyType, PropertyValue, PropertyValues,
};
use froe::planning::dates::parse_iso8601_epoch_seconds;
use froe::planning::external_binaries::{
    distinctness_key, parse_length_suffix, ExternalBinaryCensus,
};
use froe::planning::paths::{
    intermediate_prefixes, parent_path, parse_identifier, path_depth, within,
};

fn external(identifier: &str) -> PropertyValue {
    PropertyValue::Binary(BinaryValue::External {
        blob_identifier: identifier.to_owned(),
    })
}

/// The identifiers a real `FileDataStore` writes: hash, `#`, length.
#[test]
fn measured_references_deduplicate_and_sum_their_lengths() {
    let mut census = ExternalBinaryCensus::default();
    let first = "00b6d84c92565b98a45f1bb0a9fef2eff804239ba1b96e4ae4e29e0e4222829a#12345";
    let second = "ffb6d84c92565b98a45f1bb0a9fef2eff804239ba1b96e4ae4e29e0e4222829a#100";
    census.observe_value(&external(first));
    census.observe_value(&external(first));
    census.observe_value(&external(second));
    let footprint = census.footprint();
    assert_eq!(footprint.distinct_references, 2);
    assert_eq!(footprint.measured_bytes, 12_445);
    assert_eq!(footprint.unmeasured_references, 0);
}

/// An identifier without a parsable length still counts as a distinct
/// reference; it just cannot contribute bytes.
#[test]
fn an_unmeasured_reference_is_counted_but_contributes_no_bytes() {
    let mut census = ExternalBinaryCensus::default();
    census.observe_value(&external("custom-blob-store-identifier"));
    census.observe_value(&external("custom-blob-store-identifier"));
    let footprint = census.footprint();
    assert_eq!(footprint.distinct_references, 1);
    assert_eq!(footprint.measured_bytes, 0);
    assert_eq!(footprint.unmeasured_references, 1);
}

/// A non-binary value is not a reference at all.
#[test]
fn non_binary_values_are_ignored() {
    let mut census = ExternalBinaryCensus::default();
    census.observe_value(&PropertyValue::String("not a binary".to_owned()));
    assert_eq!(census.footprint().distinct_references, 0);
}

/// The exact-key fast path and the hashed fallback must both be stable and
/// must separate identifiers that differ.
#[test]
fn distinctness_keys_separate_differing_identifiers() {
    let hexadecimal_one = "00b6d84c92565b98a45f1bb0a9fef2ef#1";
    let hexadecimal_two = "10b6d84c92565b98a45f1bb0a9fef2ef#1";
    assert_ne!(
        distinctness_key(hexadecimal_one),
        distinctness_key(hexadecimal_two)
    );
    assert_eq!(
        distinctness_key(hexadecimal_one),
        distinctness_key(hexadecimal_one)
    );
    assert_ne!(
        distinctness_key("opaque-one"),
        distinctness_key("opaque-two")
    );
    assert_eq!(
        distinctness_key("opaque-one"),
        distinctness_key("opaque-one")
    );
}

#[test]
fn a_hexadecimal_prefix_is_its_own_key() {
    assert_eq!(
        distinctness_key("00b6d84c92565b98a45f1bb0a9fef2ef#1"),
        0x00b6_d84c_9256_5b98_a45f_1bb0_a9fe_f2ef
    );
}

/// Only the final `#` starts the length; earlier ones belong to the
/// identifier.
#[test]
fn length_parses_from_the_final_hash_separator_only() {
    assert_eq!(parse_length_suffix("abc#123"), Some(123));
    assert_eq!(parse_length_suffix("a#b#42"), Some(42));
    assert_eq!(parse_length_suffix("abc"), None);
    assert_eq!(parse_length_suffix("abc#notanumber"), None);
}

#[test]
fn only_binary_properties_are_observed() {
    let mut census = ExternalBinaryCensus::default();
    let properties = vec![
        PropertyState {
            name: "data".to_owned(),
            property_type: PropertyType::Binary,
            values: PropertyValues::Multiple(vec![external("a#1"), external("b#2")]),
        },
        PropertyState {
            name: "title".to_owned(),
            property_type: PropertyType::Other,
            values: PropertyValues::Single(PropertyValue::String("text".to_owned())),
        },
    ];
    census.observe_properties(&properties);
    let footprint = census.footprint();
    assert_eq!(footprint.distinct_references, 2);
    assert_eq!(footprint.measured_bytes, 3);
}

/// Hand-computed epochs, including the offsets Oak actually writes.
#[test]
fn epochs_match_a_hand_computed_table() {
    let table = [
        ("1970-01-01T00:00:00.000Z", 0),
        ("1970-01-01T01:00:00.000+01:00", 0),
        ("1969-12-31T23:00:00.000-01:00", 0),
        ("2012-03-01T12:30:45.678+01:00", 1_330_601_445),
        ("2026-08-19T07:02:27Z", 1_787_122_947),
    ];
    for (text, expected) in table {
        assert_eq!(
            parse_iso8601_epoch_seconds(text),
            Some(expected),
            "for {text}"
        );
    }
}

#[test]
fn malformed_dates_parse_to_nothing() {
    for text in [
        "",
        "2012-03-01",
        "2012-03-01T12:30:45",
        "2012-13-01T12:30:45Z",
        "2012-03-01T12:30:45+0100",
        "not a date at all",
    ] {
        assert_eq!(parse_iso8601_epoch_seconds(text), None, "for {text}");
    }
}

#[test]
fn identifiers_parse_case_insensitively_and_reject_malformation() {
    let lower = parse_identifier("00b6d84c-9256-5b98-a45f-1bb0a9fef2ef");
    let upper = parse_identifier("00B6D84C-9256-5B98-A45F-1BB0A9FEF2EF");
    assert!(lower.is_some());
    assert_eq!(lower, upper);
    for text in [
        "",
        "00b6d84c92565b98a45f1bb0a9fef2ef",
        "00b6d84c-9256-5b98-a45f-1bb0a9fef2eg",
        "00b6d84c-9256-5b98-a45f-1bb0a9fef2ef0",
    ] {
        assert_eq!(parse_identifier(text), None, "for {text}");
    }
}

#[test]
fn subtree_membership_respects_name_boundaries() {
    assert!(within("/00/1f/2e/history", "/00/1f/2e/history"));
    assert!(within("/00/1f/2e/history/1.0", "/00/1f/2e/history"));
    assert!(!within("/00/1f/2e/history-two", "/00/1f/2e/history"));
    assert!(!within("/00/1f/2e", "/00/1f/2e/history"));
}

#[test]
fn intermediate_prefixes_name_every_proper_ancestor() {
    let prefixes = intermediate_prefixes("/00/1f/2e/history");
    assert_eq!(prefixes, ["/00", "/00/1f", "/00/1f/2e"]);
}

#[test]
fn parents_and_depths_follow_the_separators() {
    assert_eq!(parent_path("/00/1f"), Some("/00".to_owned()));
    assert_eq!(path_depth("/00/1f"), 2);
}
