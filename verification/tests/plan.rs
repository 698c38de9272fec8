use cargo_rail_action::plan::valid_id;

#[test]
fn identifiers_are_narrow() {
    assert!(valid_id("cargo.test"));
    assert!(!valid_id("-package"));
    assert!(!valid_id("Cargo.test"));
}

use cargo_rail_action::digest::hex_digest;
use cargo_rail_action::error::{ActionError, ErrorKind};
use cargo_rail_action::json::Json;
use cargo_rail_action::plan::ValidatedPlan;
use cargo_rail_action::plan_validation::validate_plan;
use serde_json::Value;

type Fields = serde_json::Map<String, Value>;

fn to_json(value: &Value) -> Json {
    match value {
        Value::Null => Json::Null,
        Value::Bool(b) => Json::Bool(*b),
        Value::Number(n) => {
            if let Some(u) = n.as_u64() {
                Json::UInt(u)
            } else if let Some(i) = n.as_i64() {
                Json::NegInt(i)
            } else {
                Json::Float(n.to_string())
            }
        }
        Value::String(s) => Json::Str(s.clone()),
        Value::Array(items) => Json::Array(items.iter().map(to_json).collect()),
        Value::Object(entries) => Json::Object(entries.iter().map(|(k, v)| (k.clone(), to_json(v))).collect()),
    }
}

fn from_json(value: &Json) -> Value {
    match value {
        Json::Null => Value::Null,
        Json::Bool(b) => Value::Bool(*b),
        Json::UInt(n) => Value::from(*n),
        Json::NegInt(n) => Value::from(*n),
        Json::Float(text) => serde_json::from_str(text).expect("number"),
        Json::Str(s) => Value::String(s.clone()),
        Json::Array(items) => Value::Array(items.iter().map(from_json).collect()),
        Json::Object(entries) => {
            Value::Object(entries.iter().map(|(k, v)| (k.clone(), from_json(v))).collect::<Fields>())
        }
    }
}

fn parse(text: &str) -> Value {
    serde_json::from_str(text).expect("fixture JSON")
}

fn evidence(subject: &str, code: &str, complete: bool) -> (String, Value) {
    let mut portable = Fields::new();
    portable.insert("code".to_string(), Value::from(code));
    portable.insert("subject".to_string(), Value::from(subject));
    portable.insert("input".to_string(), Value::Null);
    portable.insert("complete".to_string(), Value::Bool(complete));
    let identity = format!(
        "evidence:sha256:{}",
        hex_digest(&serde_json::to_vec(&Value::Object(portable)).expect("encode evidence"))
    );
    let mut record = Fields::new();
    record.insert("code".to_string(), Value::from(code));
    record.insert("subject".to_string(), Value::from(subject));
    record.insert("description".to_string(), Value::from(format!("Evidence for {subject}")));
    record.insert("input".to_string(), Value::Null);
    record.insert("complete".to_string(), Value::Bool(complete));
    (identity, Value::Object(record))
}

fn fixture() -> Value {
    let (cargo_evidence_id, cargo_evidence) = evidence("cargo.test", "changed_source", true);
    let (fmt_evidence_id, fmt_evidence) = evidence("cargo.fmt", "unchanged_input", true);
    let (miri_evidence_id, miri_evidence) = evidence("miri", "selected_variants", true);
    let mut evidence = Fields::new();
    evidence.insert(cargo_evidence_id.clone(), cargo_evidence);
    evidence.insert(fmt_evidence_id.clone(), fmt_evidence);
    evidence.insert(miri_evidence_id.clone(), miri_evidence);
    let mut work = Fields::new();
    work.insert(
        "cargo.fmt".to_string(),
        parse(&format!(r#"{{"state": "skipped", "evidence": ["{fmt_evidence_id}"]}}"#)),
    );
    work.insert(
        "cargo.test".to_string(),
        parse(&format!(
            r#"{{"state": "required", "cause": "changed_input", "scope": {{"kind": "cargo", "selection": {{"kind": "packages", "packages": [{{"key": "demo", "name": "demo", "cargo_spec": "demo"}}], "cargo_args": ["-p", "demo"], "targets": [{{"package": "demo", "name": "integration", "kind": ["test"]}}]}}}}, "evidence": ["{cargo_evidence_id}"]}}"#
        )),
    );
    work.insert(
        "miri".to_string(),
        parse(&format!(
            r#"{{"state": "required", "cause": "changed_input", "scope": {{"kind": "variants", "selection": {{"kind": "selected", "variants": [{{"id": "linux", "dimensions": {{"family": "miri", "target": "x86_64"}}}}], "evidence": "{miri_evidence_id}"}}}}, "evidence": ["{miri_evidence_id}"]}}"#
        )),
    );
    let mut value = parse(&format!(
        r#"{{"plan_contract_version": 9, "identity": "", "inputs": {{"base": "base", "head": "head", "head_commit": "aaaaaaaaaaaaaaaaaaaaaaaaaaaaaaaaaaaaaaaa", "capture": null, "cargo": "resolution-universe-v1:sha256:{b}", "configuration": "cargo-configuration-v1:sha256:{c}", "toolchain": "toolchain-v1", "target": "planning-target-v1:sha256:{d}", "platform": "linux-x86_64", "catalog": "work-catalog-v1:sha256:{e}", "evidence": [], "override": "none"}}, "changes": {{"files": [{{"path": "src/lib.rs", "kind": "modified", "provenance": ["committed"]}}], "cargo": [], "config": []}}, "work": null, "attribution": {{"cargo.test": {{"inputs": [{{"kind": "path", "value": "src/lib.rs"}}], "selections": [{{"subject": "demo", "relation": "direct", "origin": null}}]}}, "miri": {{"inputs": [{{"kind": "package", "value": "demo"}}], "selections": [{{"subject": "linux", "relation": "direct", "origin": null}}]}}}}, "required": ["cargo.test", "miri"], "evidence": null}}"#,
        b = "b".repeat(64),
        c = "c".repeat(64),
        d = "d".repeat(64),
        e = "e".repeat(64),
    ));
    value["work"] = Value::Object(work);
    value["evidence"] = Value::Object(evidence);
    set_identity(&mut value);
    value
}

fn set_identity(value: &mut Value) {
    let plan = value.as_object().expect("plan object");
    let mut portable = Fields::new();
    for field in ["plan_contract_version", "inputs", "changes", "work", "required", "attribution"] {
        portable.insert(field.to_string(), plan[field].clone());
    }
    portable.insert(
        "evidence".to_string(),
        Value::Array(plan["evidence"].as_object().expect("evidence").keys().cloned().map(Value::String).collect()),
    );
    value["identity"] = Value::String(format!(
        "plan-v9:sha256:{}",
        hex_digest(&serde_json::to_vec(&Value::Object(portable)).expect("portable plan"))
    ));
}

fn load(value: &Value) -> Result<ValidatedPlan, ActionError> {
    let bytes = serde_json::to_vec(value).expect("encode plan");
    ValidatedPlan::from_parsed(bytes, to_json(value))
}

fn validate(value: &Value) -> Result<(), ActionError> {
    validate_plan(&to_json(value))
}

#[test]
fn attribution_is_bound_and_dependency_details_do_not_hide_direct_work() {
    let mut value = fixture();
    for index in 0..60 {
        let id = format!("direct{index:02}");
        let (reference, proof) = evidence(&id, "changed_input", true);
        value["evidence"][&reference] = proof;
        let mut decision = value["work"]["cargo.test"].clone();
        decision["evidence"] = Value::Array(vec![Value::String(reference)]);
        value["work"][&id] = decision;
        value["attribution"][&id] = value["attribution"]["cargo.test"].clone();
    }
    let (reference, proof) = evidence("dependent", "changed_input", true);
    value["evidence"][&reference] = proof;
    value["work"]["dependent"] = value["work"]["cargo.test"].clone();
    value["work"]["dependent"]["evidence"] = Value::Array(vec![Value::String(reference)]);
    value["attribution"]["dependent"] = value["attribution"]["cargo.test"].clone();
    value["attribution"]["dependent"]["inputs"] = parse(r#"[{"kind": "work", "value": "cargo.test"}]"#);
    value["required"] = Value::Array(
        value["work"]
            .as_object()
            .unwrap()
            .iter()
            .filter(|(_, item)| item["state"] == "required")
            .map(|(id, _)| Value::String(id.clone()))
            .collect(),
    );
    set_identity(&mut value);
    let plan = load(&value).unwrap();
    let summary = plan.render_summary();
    let visible = summary.split("<details>").next().unwrap();
    assert!(visible.contains("direct59"), "direct work was truncated");
    assert!(visible.contains("demo: integration"));
    assert!(!visible.contains("`dependent`"));
    assert!(summary.contains("`dependent`"));
    value["attribution"]["cargo.test"]["selections"][0]["relation"] = "unattributed".into();
    assert!(validate(&value).unwrap_err().message.contains("identity"));
    set_identity(&mut value);
    value["attribution"]["cargo.test"]["selections"] = parse("[]");
    assert!(validate(&value).unwrap_err().message.contains("exactly cover"));
}

#[test]
fn incomplete_scope_reason_stays_visible() {
    let mut value = fixture();
    let (reference, mut proof) = evidence("cargo.test", "compiler_inputs_incomplete", false);
    proof["description"] = "Build-script input evidence is unavailable".into();
    value["evidence"][&reference] = proof;
    value["work"]["cargo.test"]["cause"] = "incomplete_evidence".into();
    value["work"]["cargo.test"]["evidence"] = Value::Array(vec![Value::String(reference)]);
    set_identity(&mut value);
    let plan = load(&value).unwrap();
    let summary = plan.render_summary();
    assert!(summary
        .split("<details>")
        .next()
        .unwrap()
        .contains("Scope expanded:** Build-script input evidence is unavailable"));
}

#[test]
fn missing_decision_evidence_is_rejected_before_indexing() {
    for (work, state) in [("cargo.test", "required"), ("cargo.fmt", "skipped")] {
        let mut value = fixture();
        value["work"][work].as_object_mut().unwrap().remove("evidence");
        let error = match load(&value) {
            Ok(_) => panic!("missing evidence must be rejected"),
            Err(error) => error,
        };
        assert_eq!(error.kind, ErrorKind::Rejected);
        assert_eq!(error.message, format!("{state} work {work} is missing [\"evidence\"]"));
    }
}

#[test]
fn target_arguments_reject_non_cargo_work() {
    for scope in [fixture()["work"]["miri"]["scope"].clone(), parse(r#"{"kind": "repository"}"#)] {
        let mut value = fixture();
        value["work"]["miri"]["scope"] = scope;
        if value["work"]["miri"]["scope"]["kind"] == "repository" {
            value["attribution"]["miri"]["selections"] = parse("[]");
        }
        set_identity(&mut value);
        let plan = load(&value).unwrap();
        let error = plan.target_args("miri").expect_err("non-Cargo scope");
        assert_eq!(error.kind, ErrorKind::Rejected);
        assert_eq!(error.message, "work miri does not have Cargo scope");
    }
}

#[test]
fn head_commit_requires_a_complete_git_object_id() {
    for length in [40, 64] {
        let mut value = fixture();
        value["inputs"]["head_commit"] = "a".repeat(length).into();
        set_identity(&mut value);
        validate(&value).expect("full Git object ID");
    }
    for length in [39, 41, 63, 65] {
        let mut value = fixture();
        value["inputs"]["head_commit"] = "a".repeat(length).into();
        set_identity(&mut value);
        assert_eq!(validate(&value).unwrap_err().message, "plan input head_commit is malformed");
    }
}

#[test]
fn validates_and_projects_every_selector_shape() {
    let value = fixture();
    validate(&value).expect("valid plan");
    let plan = load(&value).expect("validate plan");
    assert_eq!(plan.cargo_args("cargo.test").expect("cargo args"), ["-p", "demo"]);
    assert_eq!(plan.package_names("cargo.test").expect("packages"), ["demo"]);
    assert_eq!(plan.target_args("cargo.test").expect("targets"), ["--test", "integration"]);
    assert!(plan.cargo_args("cargo.fmt").expect("skipped args").is_empty());
    assert_eq!(
        from_json(&plan.matrix("miri", Some("miri")).expect("family matrix")),
        parse(r#"{"include": [{"miri": {"id": "linux", "target": "x86_64"}}]}"#)
    );
    let summary = plan.render_summary();
    assert!(summary.contains("2 required · 1 skipped · 1 changed file"));
    assert!(!summary.contains("plan-v9:sha256:"));
}

#[test]
fn human_description_is_outside_portable_identity() {
    let mut value = fixture();
    let reference = value["evidence"].as_object().expect("evidence").keys().next().cloned().expect("record");
    value["evidence"][&reference]["description"] = Value::String("Improved explanation".to_string());
    validate(&value).expect("description-only change remains valid");
}

#[test]
fn rejects_identity_projection_and_option_inconsistency() {
    let mut identity = fixture();
    identity["identity"] = Value::String(format!("plan-v9:sha256:{}", "0".repeat(64)));
    assert!(validate(&identity).expect_err("identity drift").message.contains("identity"));

    let mut projection = fixture();
    projection["required"] = parse(r#"["miri"]"#);
    set_identity(&mut projection);
    assert!(validate(&projection).expect_err("projection drift").message.contains("projection"));

    let mut option = fixture();
    option["work"]["cargo.test"]["scope"]["selection"]["packages"][0]["cargo_spec"] =
        Value::String("--workspace".to_string());
    option["work"]["cargo.test"]["scope"]["selection"]["cargo_args"] = parse(r#"["-p", "--workspace"]"#);
    set_identity(&mut option);
    assert!(validate(&option).expect_err("option-like package").message.contains("option-like"));
}

#[test]
fn target_args_are_emitted_only_for_all_integration_test_targets() {
    let mut value = fixture();
    value["work"]["cargo.test"]["scope"]["selection"]["targets"]
        .as_array_mut()
        .expect("targets")
        .push(parse(r#"{"package": "demo", "name": "demo", "kind": ["lib"]}"#));
    set_identity(&mut value);
    let plan = load(&value).expect("validate mixed plan");
    assert!(plan.target_args("cargo.test").expect("mixed targets").is_empty());
}

#[test]
fn required_work_is_the_compact_json_array_of_required_ids() {
    let value = fixture();
    let plan = load(&value).expect("validate plan");
    assert_eq!(plan.required_work(), serde_json::to_string(&value["required"]).expect("required"));
}

#[test]
fn malformed_plan_identity_is_named() {
    let mut value = fixture();
    value["identity"] = Value::String("plan-v9:sha256:xyz".to_string());
    assert_eq!(validate(&value).expect_err("malformed").message, "plan identity is missing or malformed");
    let mut value = fixture();
    value["identity"] = Value::String(format!("plan-v9:sha256:{}", "0".repeat(64)));
    assert_eq!(
        validate(&value).expect_err("mismatch").message,
        "plan identity does not match its typed portable content"
    );
}

#[test]
fn nul_values_split_back_into_their_inputs() {
    let values = vec!["-p".to_string(), "demo".to_string(), String::new(), "naïve".to_string()];
    let output = cargo_rail_action::plan::nul_values(values.clone()).expect("NUL-free values");
    let mut pieces: Vec<&[u8]> = output.split(|byte| *byte == 0).collect();
    assert_eq!(pieces.pop(), Some(&[][..]));
    let expected: Vec<&[u8]> = values.iter().map(|v| v.as_bytes()).collect();
    assert_eq!(pieces, expected);
    assert!(cargo_rail_action::plan::nul_values(Vec::new()).expect("no values").is_empty());
    assert!(cargo_rail_action::plan::nul_values(vec!["a\0b".to_string()]).is_err());
}

#[test]
fn empty_plan_names_every_missing_key() {
    let value = parse("{}");
    assert_eq!(
        load(&value).err().expect("empty plan").message,
        r#"plan is missing ["attribution", "changes", "evidence", "identity", "inputs", "plan_contract_version", "required", "work"]"#
    );
    let mut extra = fixture();
    extra["unexpected"] = Value::Bool(true);
    assert_eq!(validate(&extra).expect_err("unknown key").message, r#"plan has unknown fields ["unexpected"]"#);
}
