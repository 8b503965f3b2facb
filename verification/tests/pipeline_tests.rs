use xattr_json::collect::collect_file;
use xattr_json::emit::emit_all;
use xattr_json::emit::Emitter;
use xattr_json::encoding::EncodingPolicy;
use xattr_json::model::AttrEntry;
use xattr_json::model::ErrorKind;
use xattr_json::model::FetchOutcome;
use xattr_json::model::FileAttrs;
use xattr_json::model::ListOutcome;
use xattr_json::model::RunOutcome;

fn entry(name: &str, fetched: FetchOutcome) -> AttrEntry {
    AttrEntry { name: String::from(name), fetched }
}

fn run(
    files: Vec<(&str, ListOutcome)>,
    policy: EncodingPolicy,
) -> (String, RunOutcome) {
    let results: Vec<Result<FileAttrs, ErrorKind>> = files
        .into_iter()
        .map(|(file, listing)| collect_file(&String::from(file), &listing, policy))
        .collect();
    emit_all(&results)
}

#[test]
fn single_file_utf8_scenario() {
    let (out, outcome) = run(
        vec![(
            "a.txt",
            ListOutcome::Names(vec![entry("user.note", FetchOutcome::Value(vec![0x41, 0x42]))]),
        )],
        EncodingPolicy::Utf8,
    );
    assert!(matches!(outcome, RunOutcome::Success));
    assert_eq!(out, "[{\"file_name\":\"a.txt\",\"attrs\":{\"user.note\":\"AB\"}}]");
}

#[test]
fn single_file_base64_scenario() {
    let (out, outcome) = run(
        vec![(
            "a.txt",
            ListOutcome::Names(vec![entry("user.note", FetchOutcome::Value(vec![0x41, 0x42]))]),
        )],
        EncodingPolicy::Base64,
    );
    assert!(matches!(outcome, RunOutcome::Success));
    assert_eq!(out, "[{\"file_name\":\"a.txt\",\"attrs\":{\"user.note\":\"QUI=\"}}]");
}

#[test]
fn invalid_text_value_omitted_scenario() {
    let (out, outcome) = run(
        vec![
            ("f1", ListOutcome::Names(vec![])),
            ("f2", ListOutcome::Names(vec![entry("x", FetchOutcome::Value(vec![0xFF]))])),
        ],
        EncodingPolicy::Utf8,
    );
    assert!(matches!(outcome, RunOutcome::Success));
    assert_eq!(
        out,
        "[{\"file_name\":\"f1\",\"attrs\":{}},{\"file_name\":\"f2\",\"attrs\":{}}]"
    );
}

#[test]
fn missing_value_fails_the_run() {
    let (out, outcome) = run(
        vec![(
            "f",
            ListOutcome::Names(vec![entry("user.x", FetchOutcome::Missing)]),
        )],
        EncodingPolicy::Escaped,
    );
    match outcome {
        RunOutcome::Failed(ErrorKind::NoValue { file, name }) => {
            assert_eq!(file, "f");
            assert_eq!(name, "user.x");
        }
        _ => panic!("expected the run to fail with a missing value"),
    }
    assert_eq!(out, "[");
    assert!(!out.ends_with(']'));
}

#[test]
fn listing_error_aborts_whole_run() {
    let (out, outcome) = run(
        vec![
            ("ok1", ListOutcome::Names(vec![])),
            ("bad", ListOutcome::Failed(String::from("no such file"))),
            ("ok2", ListOutcome::Names(vec![])),
        ],
        EncodingPolicy::Escaped,
    );
    match outcome {
        RunOutcome::Failed(ErrorKind::ListNames { file, cause }) => {
            assert_eq!(file, "bad");
            assert_eq!(cause, "no such file");
        }
        _ => panic!("expected the run to fail on the listing error"),
    }
    assert_eq!(out, "[{\"file_name\":\"ok1\",\"attrs\":{}}");
    assert!(!out.ends_with(']'));
}

#[test]
fn empty_attribute_files_one_object_each() {
    let (out, outcome) = run(
        vec![
            ("f1", ListOutcome::Names(vec![])),
            ("f2", ListOutcome::Names(vec![])),
            ("f3", ListOutcome::Names(vec![])),
        ],
        EncodingPolicy::Base64,
    );
    assert!(matches!(outcome, RunOutcome::Success));
    let parsed: serde_json::Value = serde_json::from_str(&out).unwrap();
    let arr = parsed.as_array().unwrap();
    assert_eq!(arr.len(), 3);
    for (i, name) in ["f1", "f2", "f3"].iter().enumerate() {
        assert_eq!(arr[i]["file_name"].as_str().unwrap(), *name);
        assert!(arr[i]["attrs"].as_object().unwrap().is_empty());
    }
}

#[test]
fn element_count_and_order_match_input() {
    let files: Vec<String> = (0..10).map(|i| format!("file-{i}")).collect();
    let results: Vec<Result<FileAttrs, ErrorKind>> = files
        .iter()
        .map(|f| {
            collect_file(
                f,
                &ListOutcome::Names(vec![entry("user.k", FetchOutcome::Value(vec![0x41]))]),
                EncodingPolicy::Utf8,
            )
        })
        .collect();
    let (out, outcome) = emit_all(&results);
    assert!(matches!(outcome, RunOutcome::Success));
    let parsed: serde_json::Value = serde_json::from_str(&out).unwrap();
    let arr = parsed.as_array().unwrap();
    assert_eq!(arr.len(), files.len());
    for (i, f) in files.iter().enumerate() {
        assert_eq!(arr[i]["file_name"].as_str().unwrap(), f);
        assert_eq!(arr[i]["attrs"]["user.k"].as_str().unwrap(), "A");
    }
}

#[test]
fn json_escaping_survives_a_parser() {
    let listing = ListOutcome::Names(vec![entry(
        "user.\"quoted\"\nname",
        FetchOutcome::Value(vec![0x22, 0x5C, 0x0A, 0x01]),
    )]);
    let fa = collect_file(&String::from("dir/we\"ird\tname"), &listing, EncodingPolicy::Escaped)
        .unwrap();
    let (out, _) = emit_all(&vec![Ok(fa)]);
    let parsed: serde_json::Value = serde_json::from_str(&out).unwrap();
    let obj = &parsed.as_array().unwrap()[0];
    assert_eq!(obj["file_name"].as_str().unwrap(), "dir/we\"ird\tname");
    assert_eq!(
        obj["attrs"]["user.\"quoted\"\nname"].as_str().unwrap(),
        "\\\"\\\\\\n\\x01"
    );
}

#[test]
fn streaming_chunks_compose_the_same_array() {
    let fa1 = collect_file(
        &String::from("f1"),
        &ListOutcome::Names(vec![entry("user.a", FetchOutcome::Value(vec![0x41]))]),
        EncodingPolicy::Utf8,
    )
    .unwrap();
    let fa2 = collect_file(
        &String::from("f2"),
        &ListOutcome::Names(vec![]),
        EncodingPolicy::Utf8,
    )
    .unwrap();
    let (mut em, opening) = Emitter::new();
    let mut streamed = opening;
    streamed.push_str(&em.emit(&fa1));
    streamed.push_str(&em.emit(&fa2));
    streamed.push_str(&em.finish());
    let (buffered, _) = emit_all(&vec![Ok(fa1), Ok(fa2)]);
    assert_eq!(streamed, buffered);
    assert_eq!(streamed, "[{\"file_name\":\"f1\",\"attrs\":{\"user.a\":\"A\"}},{\"file_name\":\"f2\",\"attrs\":{}}]");
}
