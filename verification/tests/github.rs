use cargo_rail_action::github::{markdown_inline, truncate_utf8, MAX_DIAGNOSTIC_BYTES};

#[test]
fn hostile_text_cannot_create_markdown_structure() {
    assert_eq!(markdown_inline("`x`|a\nb"), "&#96;x&#96;&#124;a b");
    assert_eq!(
        markdown_inline("**[name](url)** _text_ ~text~ \\"),
        "&#42;&#42;&#91;name&#93;(url)&#42;&#42; &#95;text&#95; &#126;text&#126; &#92;"
    );
}

#[test]
fn truncation_keeps_utf8_valid() {
    assert_eq!(truncate_utf8("aé", 2), "a");
    let escaped = "%".repeat(MAX_DIAGNOSTIC_BYTES).replace('%', "%25");
    assert_eq!(
        truncate_utf8(&escaped, MAX_DIAGNOSTIC_BYTES).len(),
        MAX_DIAGNOSTIC_BYTES
    );
}

use cargo_rail_action::github::{
    environment_payload, error_annotation, publication_failure, publication_payloads, redact, EnvironmentValue,
    PublishedPath,
};

#[test]
fn errors_are_redacted_escaped_and_bounded() {
    assert_eq!(
        redact("token abc leaked abc", &vec!["abc".to_string(), String::new()]),
        "token [REDACTED] leaked [REDACTED]"
    );
    assert_eq!(error_annotation("50% done\nnext"), "::error::50%25 done%0Anext");
    let long = error_annotation(&"é".repeat(5000));
    assert!(long.len() <= "::error::".len() + MAX_DIAGNOSTIC_BYTES);
    assert!(long.starts_with("::error::é"));
}

#[test]
fn environment_exports_are_absolute_constant_and_single_line() {
    let values = vec![EnvironmentValue { name: "CARGO_RAIL_REPORT".to_string(), path: Some("/tmp/r".to_string()), absolute: true }];
    assert_eq!(environment_payload(&values).expect("valid"), "CARGO_RAIL_REPORT=/tmp/r\n");
    let relative = vec![EnvironmentValue { name: "X".to_string(), path: Some("r".to_string()), absolute: false }];
    assert_eq!(
        environment_payload(&relative).expect_err("relative").message,
        "report environment must use an absolute path and a constant variable name"
    );
    let broken = vec![EnvironmentValue { name: "X".to_string(), path: Some("/a\nb".to_string()), absolute: true }];
    assert_eq!(environment_payload(&broken).expect_err("line break").message, "report environment path is invalid");
    let lower = vec![EnvironmentValue { name: "x".to_string(), path: Some("/a".to_string()), absolute: true }];
    assert!(environment_payload(&lower).is_err());
}

#[test]
fn publications_validate_paths_and_outputs_before_writing() {
    let paths = vec![PublishedPath { text: Some("/opt/bin".to_string()), display: "/opt/bin".to_string(), absolute: true }];
    let outputs = vec![("plan-file".to_string(), "/tmp/plan.json".to_string())];
    let payloads = publication_payloads(Some("# Summary\n".to_string()), &paths, &outputs).expect("valid");
    assert_eq!(payloads.summary.as_deref(), Some("# Summary\n"));
    assert_eq!(payloads.paths, "/opt/bin\n");
    assert_eq!(payloads.outputs, "plan-file=/tmp/plan.json\n");
    let relative = vec![PublishedPath { text: Some("bin".to_string()), display: "bin".to_string(), absolute: false }];
    assert_eq!(
        publication_payloads(None, &relative, &outputs).err().expect("relative").message,
        "PATH publication must use an absolute directory: bin"
    );
    let bad_name = vec![("Plan".to_string(), "x".to_string())];
    assert_eq!(
        publication_payloads(None, &paths, &bad_name).err().expect("name").message,
        "invalid GitHub output name \"Plan\""
    );
    let multi_line = vec![("plan".to_string(), "a\nb".to_string())];
    assert_eq!(
        publication_payloads(None, &paths, &multi_line).err().expect("value").message,
        "GitHub output plan must be single-line"
    );
    let large = vec![("plan".to_string(), "x".repeat(256 * 1024 + 1))];
    assert_eq!(
        publication_payloads(None, &paths, &large).err().expect("large").message,
        "GitHub output plan exceeds the 256 KiB value bound"
    );
    assert_eq!(
        publication_payloads(Some("x".repeat(256 * 1024 + 1)), &paths, &outputs).err().expect("summary").message,
        "GitHub summary exceeds its 262144-byte bound"
    );
}

#[test]
fn publication_failures_say_whether_a_write_was_attempted() {
    assert_eq!(
        publication_failure("disk full", true).message,
        "cannot publish GitHub action result: disk full; a partial summary or environment-file write may remain, but no output from this failed step is valid authority"
    );
    assert_eq!(publication_failure("denied", false).message, "cannot publish GitHub action result: denied");
}
