use xattr_json::collect::collect_file;
use xattr_json::encoding::EncodingPolicy;
use xattr_json::json::file_object_json;
use xattr_json::model::AttrEntry;
use xattr_json::model::ErrorKind;
use xattr_json::model::FetchOutcome;
use xattr_json::model::ListOutcome;

fn entry(name: &str, fetched: FetchOutcome) -> AttrEntry {
    AttrEntry { name: String::from(name), fetched }
}

#[test]
fn single_attribute_single_entry_map() {
    let listing = ListOutcome::Names(vec![entry(
        "user.note",
        FetchOutcome::Value(vec![0x41, 0x42]),
    )]);
    let fa = collect_file(&String::from("a.txt"), &listing, EncodingPolicy::Utf8).unwrap();
    assert_eq!(fa.file_name, "a.txt");
    assert_eq!(fa.attrs.len(), 1);
    assert_eq!(fa.attrs[0].name, "user.note");
    assert_eq!(fa.attrs[0].value, "AB");
}

#[test]
fn no_attributes_empty_map() {
    let listing = ListOutcome::Names(vec![]);
    let fa = collect_file(&String::from("f"), &listing, EncodingPolicy::Escaped).unwrap();
    assert_eq!(fa.attrs.len(), 0);
}

#[test]
fn listing_failure_is_fatal() {
    let listing = ListOutcome::Failed(String::from("permission denied"));
    let err = collect_file(&String::from("f"), &listing, EncodingPolicy::Escaped).unwrap_err();
    match err {
        ErrorKind::ListNames { file, cause } => {
            assert_eq!(file, "f");
            assert_eq!(cause, "permission denied");
        }
        _ => panic!("expected a listing error"),
    }
}

#[test]
fn fetch_failure_is_fatal_for_the_file() {
    let listing = ListOutcome::Names(vec![
        entry("user.a", FetchOutcome::Value(vec![0x41])),
        entry("user.b", FetchOutcome::Failed(String::from("io error"))),
        entry("user.c", FetchOutcome::Value(vec![0x42])),
    ]);
    let err = collect_file(&String::from("f"), &listing, EncodingPolicy::Utf8).unwrap_err();
    match err {
        ErrorKind::GetValue { file, name, cause } => {
            assert_eq!(file, "f");
            assert_eq!(name, "user.b");
            assert_eq!(cause, "io error");
        }
        _ => panic!("expected a value-fetch error"),
    }
}

#[test]
fn missing_value_is_fatal_for_the_file() {
    let listing = ListOutcome::Names(vec![entry("user.x", FetchOutcome::Missing)]);
    let err = collect_file(&String::from("f"), &listing, EncodingPolicy::Base64).unwrap_err();
    match err {
        ErrorKind::NoValue { file, name } => {
            assert_eq!(file, "f");
            assert_eq!(name, "user.x");
        }
        _ => panic!("expected a missing-value error"),
    }
}

#[test]
fn first_structural_error_wins() {
    let listing = ListOutcome::Names(vec![
        entry("user.a", FetchOutcome::Missing),
        entry("user.b", FetchOutcome::Failed(String::from("later"))),
    ]);
    let err = collect_file(&String::from("f"), &listing, EncodingPolicy::Utf8).unwrap_err();
    assert!(matches!(err, ErrorKind::NoValue { .. }));
}

#[test]
fn invalid_utf8_value_omitted_not_fatal() {
    let listing = ListOutcome::Names(vec![
        entry("user.bad", FetchOutcome::Value(vec![0xFF])),
        entry("user.good", FetchOutcome::Value(vec![0x41])),
    ]);
    let fa = collect_file(&String::from("f"), &listing, EncodingPolicy::Utf8).unwrap();
    assert_eq!(fa.attrs.len(), 1);
    assert_eq!(fa.attrs[0].name, "user.good");
    assert!(fa.attrs.iter().all(|p| p.name != "user.bad"));
}

#[test]
fn duplicate_name_keeps_one_entry_with_last_value() {
    let listing = ListOutcome::Names(vec![
        entry("user.k", FetchOutcome::Value(vec![0x41])),
        entry("user.k", FetchOutcome::Value(vec![0x42])),
    ]);
    let fa = collect_file(&String::from("f"), &listing, EncodingPolicy::Utf8).unwrap();
    assert_eq!(fa.attrs.len(), 1);
    assert_eq!(fa.attrs[0].name, "user.k");
    assert_eq!(fa.attrs[0].value, "B");
}

#[test]
fn collector_is_idempotent() {
    let listing = ListOutcome::Names(vec![
        entry("user.a", FetchOutcome::Value(vec![0x41, 0x42])),
        entry("user.b", FetchOutcome::Value(vec![0xFF, 0x10])),
    ]);
    let file = String::from("same.txt");
    let first = collect_file(&file, &listing, EncodingPolicy::Escaped).unwrap();
    let second = collect_file(&file, &listing, EncodingPolicy::Escaped).unwrap();
    assert_eq!(file_object_json(&first), file_object_json(&second));
}

#[test]
fn error_message_texts() {
    let e = ErrorKind::ListNames {
        file: String::from("f"),
        cause: String::from("c"),
    };
    assert_eq!(e.message(), "Failed to get extended attributes for file f: c");
    let e = ErrorKind::GetValue {
        file: String::from("f"),
        name: String::from("n"),
        cause: String::from("c"),
    };
    assert_eq!(e.message(), "Failed to get extended attribute n value for file f: c");
    let e = ErrorKind::NoValue {
        file: String::from("f"),
        name: String::from("n"),
    };
    assert_eq!(e.message(), "Extended attribute n does not have a value for file f");
    let e = ErrorKind::Serialization {
        file: String::from("f"),
        cause: String::from("c"),
    };
    assert_eq!(e.message(), "Failed to serialize attributes to JSON for file f. Error: c");
}
