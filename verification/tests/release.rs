use cargo_rail_action::error::ErrorKind;
use cargo_rail_action::json::Json;
use cargo_rail_action::release::{
    authorize_start, check_checkout, check_core_version, check_event_repository, check_event_size, check_invocation,
    check_merged_tree, check_new_request, check_observed_review, check_packages, check_review, fetch_arguments,
    fetched_transaction, inspect_arguments, parse_packages, prepared_commit, record_source, release_arguments, resume_arguments,
    resuming, review_path, run_url, transaction_of, tree_arguments, Authorization,
};
use cargo_rail_action::release_record::{asset_filename, contains_float, read};

fn to_json(value: &serde_json::Value) -> Json {
    match value {
        serde_json::Value::Null => Json::Null,
        serde_json::Value::Bool(b) => Json::Bool(*b),
        serde_json::Value::Number(n) => {
            if let Some(u) = n.as_u64() {
                Json::UInt(u)
            } else if let Some(i) = n.as_i64() {
                Json::NegInt(i)
            } else {
                Json::Float(n.to_string())
            }
        }
        serde_json::Value::String(s) => Json::Str(s.clone()),
        serde_json::Value::Array(items) => Json::Array(items.iter().map(to_json).collect()),
        serde_json::Value::Object(entries) => {
            Json::Object(entries.iter().map(|(k, v)| (k.clone(), to_json(v))).collect())
        }
    }
}

fn json(text: &str) -> Json {
    to_json(&serde_json::from_str(text).expect("fixture JSON"))
}

fn strings(values: &[&str]) -> Vec<String> {
    values.iter().map(|value| value.to_string()).collect()
}

const WORKFLOW: &str = "owner/project/.github/workflows/release.yml@refs/heads/main";

#[test]
fn only_same_repository_trusted_workflows_release() {
    assert!(check_invocation("true", "workflow_dispatch", "owner/project", WORKFLOW).is_ok());
    assert!(check_invocation("true", "pull_request_target", "owner/project", WORKFLOW).is_ok());
    for (actions, event, repository, workflow) in [
        ("false", "workflow_dispatch", "owner/project", WORKFLOW),
        ("true", "push", "owner/project", WORKFLOW),
        ("true", "workflow_dispatch", "owner/project/extra", WORKFLOW),
        ("true", "workflow_dispatch", "owner/project", "other/project/.github/workflows/release.yml@refs/heads/main"),
        ("true", "workflow_dispatch", "owner/project", "owner/project/.github/workflows/release.yml@refs/tags/v1"),
    ] {
        let error = check_invocation(actions, event, repository, workflow).expect_err("untrusted invocation");
        assert_eq!(error.kind, ErrorKind::Rejected);
        assert_eq!(error.message, "release requires a same-repository trusted workflow invocation");
    }
    assert!(check_event_size(16 * 1024 * 1024).is_ok());
    assert_eq!(check_event_size(16 * 1024 * 1024 + 1).expect_err("large").message, "release event exceeds its bound");
    let event = json(r#"{"repository": {"full_name": "owner/project"}}"#);
    assert!(check_event_repository(&event, "owner/project").is_ok());
    assert_eq!(
        check_event_repository(&event, "owner/other").expect_err("other").message,
        "release event repository differs from invocation"
    );
    assert!(check_core_version("cargo-rail 0.26.3\n", "0.26.3").is_ok());
    assert!(check_core_version("cargo-rail 0.26.2\n", "0.26.3").is_err());
}

#[test]
fn resumed_and_new_releases_run_the_exact_engine_commands() {
    let dispatch = json(r#"{"inputs": {"transaction": "tx-1"}}"#);
    assert_eq!(transaction_of(&dispatch), "tx-1");
    assert!(resuming(&dispatch, "workflow_dispatch"));
    assert!(resuming(&json("{}"), "pull_request_target"));
    assert!(!resuming(&json("{}"), "workflow_dispatch"));
    assert_eq!(fetch_arguments(""), strings(&["rail", "release", "record", "fetch"]));
    assert_eq!(fetch_arguments("tx-1"), strings(&["rail", "release", "record", "fetch", "tx-1"]));
    assert_eq!(inspect_arguments("tx-1"), strings(&["rail", "release", "record", "inspect", "tx-1"]));
    assert_eq!(resume_arguments("tx-1"), strings(&["rail", "release", "resume", "tx-1", "--executor"]));
    assert_eq!(
        release_arguments("auto", &vec![], true, false),
        strings(&["rail", "release", "run", "--executor", "--yes", "--bump", "auto", "--all", "--publish"])
    );
    assert_eq!(
        release_arguments("minor", &strings(&["a", "b"]), false, true),
        strings(&["rail", "release", "run", "--executor", "--yes", "--bump", "minor", "a", "b", "--pr"])
    );
    assert_eq!(fetched_transaction(&json(r#"{"transaction_id": "tx-2"}"#), "none").expect("named"), "tx-2");
    assert_eq!(fetched_transaction(&json("{}"), "record fetch returned no transaction").expect_err("none").message,
        "record fetch returned no transaction");
    assert_eq!(
        run_url("owner/project", "42"),
        "https://github.com/owner/project/actions/runs/42"
    );
}

#[test]
fn new_requests_are_manual_bound_to_their_source_and_name_bounded_packages() {
    assert!(check_new_request(&json(r#"{"inputs": {}}"#), "workflow_dispatch").is_ok());
    assert!(check_new_request(&json(r#"{"inputs": {"intent": ""}}"#), "workflow_dispatch").is_ok());
    assert_eq!(
        check_new_request(&json(r#"{"inputs": {"intent": "sha256:x"}}"#), "workflow_dispatch")
            .expect_err("retained")
            .message,
        "a new release request requires a manual dispatch without retained authority"
    );
    assert!(check_new_request(&json("{}"), "pull_request_target").is_err());
    assert!(check_checkout("abc\n", "abc").is_ok());
    assert_eq!(
        check_checkout("abd\n", "abc").expect_err("drift").message,
        "new release checkout differs from its dispatch source"
    );
    assert!(check_packages(&strings(&["cargo-rail", "rail_core"])).is_ok());
    for invalid in [strings(&[""]), strings(&["a/b"]), strings(&[&"a".repeat(65)])] {
        assert_eq!(
            check_packages(&invalid).expect_err("invalid").message,
            "packages must contain bounded Cargo package names"
        );
    }
    let many: Vec<String> = (0..257).map(|index| format!("p{index}")).collect();
    assert!(check_packages(&many).is_err());
}

#[test]
fn record_source_prefers_the_merged_review() {
    let merged = json(
        r#"{"review": {"merge": {"commit": "m"}}, "preparation": {"commit": "p"}, "intent": {"initial_head": "h"}}"#,
    );
    assert_eq!(record_source(&merged).expect("merged"), "m");
    let prepared = json(r#"{"preparation": {"commit": "p"}, "intent": {"initial_head": "h"}}"#);
    assert_eq!(record_source(&prepared).expect("prepared"), "p");
    assert_eq!(record_source(&json(r#"{"intent": {"initial_head": "h"}}"#)).expect("head"), "h");
    assert_eq!(record_source(&json("{}")).expect_err("none").message, "release record has no source");
    assert_eq!(prepared_commit(&prepared), "p");
    assert_eq!(prepared_commit(&json("{}")), "");
}

fn pull(merged: bool, state: &str, merge_sha: &str) -> Json {
    json(&format!(
        r#"{{"number": 7, "merged": {merged}, "state": "{state}", "merged_at": "2024-01-01T00:00:00Z", "merge_commit_sha": "{merge_sha}", "head": {{"sha": "prep", "ref": "rail/tx-1", "repo": {{"full_name": "owner/project"}}}}, "base": {{"ref": "main", "repo": {{"full_name": "owner/project"}}}}}}"#
    ))
}

#[test]
fn review_pull_requests_stay_bound_to_the_prepared_release() {
    let record = json(
        r#"{"transaction_id": "tx-1", "preparation": {"commit": "prep"}, "intent": {"branch": "main"}, "review": {"request": 7, "merge": null}}"#,
    );
    assert!(check_review(&record, &pull(false, "open", ""), "owner/project").expect("open").is_none());
    let sha = "a".repeat(40);
    assert_eq!(check_review(&record, &pull(true, "closed", &sha), "owner/project").expect("merged"), Some(sha.clone()));
    assert_eq!(
        check_review(&record, &pull(true, "closed", "short"), "owner/project").expect_err("inexact").message,
        "release review has no exact merged source"
    );
    assert_eq!(
        check_review(&record, &pull(false, "closed", &sha), "owner/project").expect_err("unmerged").message,
        "release review has no observable merge"
    );
    assert_eq!(
        check_review(&record, &pull(true, "closed", &sha), "other/project").expect_err("other").message,
        "release review changed its repository, branch, or prepared source"
    );
    let retained = json(&format!(
        r#"{{"transaction_id": "tx-1", "preparation": {{"commit": "prep"}}, "intent": {{"branch": "main"}}, "review": {{"request": 7, "merge": {{"commit": "{}"}}}}}}"#,
        "b".repeat(40)
    ));
    assert_eq!(
        check_review(&retained, &pull(true, "closed", &sha), "owner/project").expect_err("changed").message,
        "release review changed its retained merged commit"
    );
    assert!(check_observed_review(&json(r#"{"number": 7}"#), 7).is_ok());
    assert_eq!(
        check_observed_review(&json(r#"{"number": 8}"#), 7).expect_err("other").message,
        "release review changed its request identity"
    );
    assert_eq!(review_path("owner/project", 7), "repos/owner/project/pulls/7");
    assert_eq!(tree_arguments("abc"), strings(&["show", "-s", "--format=%T", "abc"]));
    assert!(check_merged_tree(b"tree\n", b"tree\n").is_ok());
    assert_eq!(
        check_merged_tree(b"tree\n", b"other\n").expect_err("changed").message,
        "reviewed merge changed the prepared release tree"
    );
}

#[test]
fn records_are_bounded_integral_and_schema_checked_before_use() {
    assert!(contains_float(&json(r#"{"a": [1, 2.5]}"#)));
    assert!(!contains_float(&json(r#"{"a": [1, -2]}"#)));
    let record = json("{}");
    let error = read(16 * 1024 * 1024 + 1, &record, "", "", "github.com/owner/project", b"{}").expect_err("large");
    assert_eq!(error.message, "release record exceeds 16 MiB");
    let floating = json(r#"{"value": 1.5}"#);
    let error = read(20, &floating, "", "", "github.com/owner/project", b"{}").expect_err("float");
    assert_eq!(error.message, "release records cannot contain floating-point numbers");
    let error = read(2, &record, "", "", "github.com/owner/project", b"not json").expect_err("schema");
    assert_eq!(error.kind, ErrorKind::Operational);
    assert!(error.message.starts_with("invalid built-in release schema: "));
    let error = read(2, &record, "", "", "github.com/owner/project", br#"{"type": "array"}"#).expect_err("instance");
    assert_eq!(error.kind, ErrorKind::Rejected);
    assert!(error.message.starts_with("invalid release record: "));
    let error = authorize_start(&record, &json("{}"), "workflow_dispatch", "owner/project", WORKFLOW, b"{}")
        .expect_err("no source");
    assert_eq!(error.message, "release record has no source");
    let sourced = json(r#"{"intent": {"initial_head": "h"}}"#);
    let error = authorize_start(&sourced, &json("{}"), "workflow_dispatch", "owner/project", WORKFLOW, b"not json")
        .expect_err("schema");
    assert!(error.message.starts_with("invalid built-in release schema: "));
    assert_ne!(Authorization::Authorized, Authorization::CheckReview);
}

#[test]
fn asset_filenames_are_portable() {
    assert!(asset_filename("cargo-rail-x86_64-unknown-linux-gnu.zip"));
    for invalid in ["", ".hidden", "a/b", "name.", "CON.txt", "lpt1", &"a".repeat(201)] {
        assert!(!asset_filename(invalid), "accepted {invalid}");
    }
}

#[test]
fn packages_input_is_a_json_array_of_bounded_package_names() {
    let parsed = to_json(&serde_json::from_str::<serde_json::Value>(r#"["demo", "other_crate"]"#).unwrap());
    assert_eq!(parse_packages(Some(&parsed)).expect("package names"), ["demo", "other_crate"]);
    assert!(parse_packages(Some(&to_json(&serde_json::from_str::<serde_json::Value>(r#"[]"#).unwrap()))).expect("no packages").is_empty());
    for not_array in [None, Some(to_json(&serde_json::from_str::<serde_json::Value>(r#"{"demo": true}"#).unwrap())), Some(to_json(&serde_json::from_str::<serde_json::Value>(r#"[1]"#).unwrap()))] {
        let error = parse_packages(not_array.as_ref()).expect_err("not an array of strings");
        assert_eq!(error.kind, ErrorKind::Rejected);
        assert_eq!(error.message, "packages must be a JSON array");
    }
    let invalid = to_json(&serde_json::from_str::<serde_json::Value>(r#"["bad name"]"#).unwrap());
    assert_eq!(
        parse_packages(Some(&invalid)).expect_err("invalid name").message,
        "packages must contain bounded Cargo package names"
    );
}
