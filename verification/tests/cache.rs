use cargo_rail_action::cache::{human_bytes, parse_cache_size};

#[test]
fn human_sizes_are_exact() {
    assert_eq!(human_bytes(10 * 1024 * 1024 * 1024), "10 GiB");
    assert_eq!(human_bytes(12), "12 B");
}

#[test]
fn cache_sizes_match_cargo_rail_contract() {
    assert_eq!(parse_cache_size("10GiB").expect("size"), 10 * 1024 * 1024 * 1024);
    for invalid in ["", "10", "01GiB", "0B", "1.5GiB", "1GB", "-1GiB"] {
        assert!(parse_cache_size(invalid).is_err(), "accepted {invalid}");
    }
}

use cargo_rail_action::cache::{require_remote_match, RemoteState};
use cargo_rail_action::cache_status::{
    remote_state, status_projection, validate_probe, validate_setup, validate_status_contract, CacheInputs, CacheReady,
};
use cargo_rail_action::json::Json;

fn to_json(value: &serde_json::Value) -> Json {
    match value {
        serde_json::Value::Null => Json::Null,
        serde_json::Value::Bool(b) => Json::Bool(*b),
        serde_json::Value::Number(n) => {
            if let Some(u) = n.as_u64() {
                Json::UInt(u)
            } else if let Some(i) = n.as_i64() {
                Json::NegInt(i)
            } else {
                Json::Float(n.to_string())
            }
        }
        serde_json::Value::String(s) => Json::Str(s.clone()),
        serde_json::Value::Array(items) => Json::Array(items.iter().map(to_json).collect()),
        serde_json::Value::Object(entries) => {
            Json::Object(entries.iter().map(|(k, v)| (k.clone(), to_json(v))).collect())
        }
    }
}

fn parse(text: &str) -> serde_json::Value {
    serde_json::from_str(text).expect("fixture JSON")
}

fn inputs(mode: &str, portability: &str) -> CacheInputs {
    CacheInputs {
        remote: "s3://example/cache".to_string(),
        mode: mode.to_string(),
        max_size: "10GiB".to_string(),
        max_bytes: 10 * 1024 * 1024 * 1024,
        local_dir: None,
        root_portability: portability.to_string(),
        verify_remote: false,
        version: "0.26.0".to_string(),
    }
}

fn remote(provider: &str, mode: &str) -> serde_json::Value {
    parse(&format!(
        r#"{{"provider": "{provider}", "protocol": "native-v6", "authority": "remote-authority-v1-sha256-{}", "mode": "{mode}", "shared_environment_names": 0, "activation": "direct_transport_selected", "selection_source": "installed_profile"}}"#,
        "a".repeat(64)
    ))
}

fn setup(remote: serde_json::Value, portability: &str) -> serde_json::Value {
    let mut value = parse(&format!(
        r#"{{"schema_version": 1, "command": "cache", "mode": "setup", "result": "success", "exit_code": 0, "changed": true, "config_path": "/cargo/config.toml", "config_field": "build.rustc-wrapper", "config_action": "create", "wrapper_path": "/cargo/wrapper", "receipt_path": "/cargo/receipt", "private_state_action": "install_or_repair", "profile_id": "profile", "cache_base": "/cargo", "max_bytes": 10737418240, "remote": null, "root_portability": "{portability}", "distributed": null, "distributed_policy": null, "pending": false}}"#
    ));
    value["remote"] = remote;
    value
}

fn status(remote: serde_json::Value, portability: &str) -> serde_json::Value {
    let mut value = parse(&format!(
        r#"{{"schema_version": 1, "command": "cache", "mode": "status", "result": "success", "exit_code": 0, "scope": "local", "status": {{"schema_version": 16, "installation": {{"state": "installed", "healthy": true, "cargo_home": "/cargo", "config_path": "/cargo/config.toml", "wrapper_path": "/cargo/wrapper", "profile_id": "profile", "bound_workspace_root": "/workspace", "trust_domain": "trust", "selection_source": "installed_profile", "cache_base": "/cargo", "max_bytes": 10737418240, "root_portability": "{portability}", "cargo_l0": "owned_by_cargo_not_observable_when_rustc_is_not_launched", "usage": {{"recorded_events": 0, "hits": 0, "misses": 0, "bypasses": 0, "failures": 0, "ledger_full": false, "early_bypasses": 0, "early_bypass_reasons": {{}}, "early_bypass_ledger_full": false, "early_bypass_incomplete_tail": false, "failure_reason_counts_available": true, "failure_reasons": {{}}}}, "issues": []}}, "local": {{"present": false, "profile_scoped": true}}, "remote": null}}}}"#
    ));
    value["status"]["remote"] = remote;
    value
}

fn probe(remote: serde_json::Value, marker: &str) -> serde_json::Value {
    let mut value = parse(&format!(
        r#"{{"schema_version": 1, "command": "cache", "mode": "probe", "result": "ready", "exit_code": 0, "ready": true, "protocol_marker": "{marker}", "remote": null}}"#
    ));
    value["remote"] = remote;
    value
}

#[test]
fn public_status_is_flat_and_redacted() {
    let inputs = inputs("read", "physical");
    let ready = CacheReady {
        remote: RemoteState {
            provider: "aws-s3".to_string(),
            authority: format!("remote-authority-v1-sha256-{}", "a".repeat(64)),
            mode: "read".to_string(),
            activation: "direct_transport_selected".to_string(),
        },
        max_bytes: 10 * 1024 * 1024 * 1024,
    };
    let bytes = status_projection(&inputs, &ready, false);
    let value: serde_json::Value = serde_json::from_slice(&bytes).expect("projection");
    assert_eq!(value.as_object().expect("object").len(), 7);
    assert!(value.get("authority").is_none());
    assert!(value.get("remote").is_none());
    assert!(value.get("local_dir").is_none());
}

#[test]
fn setup_status_and_probe_bind_the_same_redacted_authority() {
    for provider in ["aws-s3", "azure-blob", "cloudflare-r2", "s3-compatible"] {
        let inputs = inputs("read", "remap");
        let (from_setup, setup_bytes) = validate_setup(
            &to_json(&setup(remote(provider, "read"), "remap")),
            &inputs.mode,
            &inputs.root_portability,
            inputs.max_bytes,
        )
        .expect("setup contract");
        let (from_status, status_bytes) = validate_status_contract(
            &to_json(&status(remote(provider, "read"), "remap")),
            &inputs.mode,
            &inputs.root_portability,
            inputs.max_bytes,
        )
        .expect("status contract");
        let from_probe = validate_probe(&to_json(&probe(remote(provider, "read"), "initialized"))).expect("probe contract");
        require_remote_match(&from_setup, &from_status, "setup/status").expect("setup/status authority");
        require_remote_match(&from_status, &from_probe, "status/probe").expect("status/probe authority");
        assert_eq!(setup_bytes, status_bytes);
    }
}

#[test]
fn cache_contract_rejects_schema_authority_and_probe_drift() {
    let inputs = inputs("read", "physical");
    let check = |value: &serde_json::Value| {
        validate_status_contract(&to_json(value), &inputs.mode, &inputs.root_portability, inputs.max_bytes)
    };
    let mut wrong_schema = status(remote("aws-s3", "read"), "physical");
    wrong_schema["status"]["schema_version"] = serde_json::Value::from(15);
    assert!(check(&wrong_schema).is_err());

    let mut retired_field = status(remote("aws-s3", "read"), "physical");
    retired_field["status"]["installation"]["unbound_pre_profile_state"] = parse("{}");
    assert!(check(&retired_field).is_err());

    let status_remote = remote_state(Some(&to_json(&remote("aws-s3", "read"))), "status remote").expect("status remote");
    let probe_remote =
        validate_probe(&to_json(&probe(remote("azure-blob", "read"), "existing"))).expect("probe contract");
    assert!(require_remote_match(&status_remote, &probe_remote, "status/probe").is_err());

    let mut leaked = remote("aws-s3", "read");
    leaked["url"] = serde_json::Value::String("s3://secret".to_string());
    assert!(remote_state(Some(&to_json(&leaked)), "remote").is_err());
}

#[test]
fn human_sizes_parse_back_to_the_same_bytes() {
    for value in [1u64, 1023, 1024, 3 * 1024 + 1, 5 * 1024 * 1024, 10 * 1024 * 1024 * 1024, 2 * 1024u64.pow(4)] {
        let text = human_bytes(value);
        assert_eq!(parse_cache_size(&text.replace(' ', "")).expect("parses back"), value, "{text}");
    }
}
