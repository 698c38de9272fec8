use cargo_rail_action::report::{admit_record, render, Configuration, JobRecord, Measurements, RunBinding, Storage};

fn run() -> RunBinding {
    RunBinding {
        repository: "owner/project".into(),
        run_id: "10".into(),
        attempt: "1".into(),
    }
}

fn record(job: &str) -> JobRecord {
    let mut measurements = Measurements::empty();
    measurements.hits = 4;
    measurements.misses = 1;
    measurements.bypasses = 2;
    measurements.bypass_reasons = vec![("unsupported_invocation".into(), 2)];
    JobRecord {
        schema_version: 1,
        run: run(),
        job: job.into(),
        configuration: Configuration {
            schema_version: 1,
            cargo_rail: "0.26.0".into(),
            provider: "aws-s3".into(),
            mode: "read".into(),
            max_bytes: 1024,
            root_portability: "physical".into(),
            remote_verification: "not_requested".into(),
        },
        measurements: Some(measurements),
        storage: Some(Storage {
            bytes: 512,
            max_bytes: 1024,
        }),
        gaps: Vec::new(),
    }
}

fn expected(jobs: &[&str]) -> Vec<String> {
    jobs.iter().map(|job| job.to_string()).collect()
}

#[test]
fn workflow_totals_include_every_job_once_and_show_missing_measurements() {
    let expected = expected(&["linux", "macos", "windows"]);
    let mut records = Vec::new();
    admit_record(&mut records, record("linux"), &run(), &expected).unwrap();
    admit_record(&mut records, record("linux"), &run(), &expected).unwrap();
    admit_record(&mut records, record("macos"), &run(), &expected).unwrap();
    let summary = render(&records, &expected).unwrap();
    assert_eq!(summary.matches("## Cargo-Rail cache").count(), 1);
    assert!(summary.contains("Reused: 8 · Misses: 2 · Bypasses: 4"), "{summary}");
    assert!(summary.contains("2/3 jobs measured"));
    assert!(summary.contains("Missing job reports:** windows"));
    assert!(summary.contains("unsupported invocation: 4"));
    assert!(!summary.contains("s3://"));
    let mut unavailable = record("windows");
    unavailable.measurements = None;
    unavailable.gaps.push("measurements_unavailable".into());
    admit_record(&mut records, unavailable, &run(), &expected).unwrap();
    let summary = render(&records, &expected).unwrap();
    assert!(summary.contains("2/3 jobs measured"));
    assert!(summary.contains("windows:** measurements unavailable"));
    assert!(!summary.contains("Missing job reports"));
}

use cargo_rail_action::collect::{
    check_existing, check_record_entry, job_record, parse_expected_jobs, record_json, storage_of, validate_expected_jobs,
};
use cargo_rail_action::json::{to_bytes, Json};

#[test]
fn conflicting_stale_and_inconsistent_records_are_rejected() {
    let expected = expected(&["linux"]);
    let mut records = Vec::new();
    admit_record(&mut records, record("linux"), &run(), &expected).unwrap();
    let mut conflict = record("linux");
    conflict.measurements.as_mut().unwrap().hits += 1;
    assert!(admit_record(&mut records, conflict, &run(), &expected).is_err());
    let mut stale = record("linux");
    stale.run.attempt = "2".into();
    assert!(admit_record(&mut records, stale, &run(), &expected).is_err());
    let mut missing = record("linux");
    missing.measurements = None;
    assert!(admit_record(&mut records, missing, &run(), &expected).is_err());
}

#[test]
fn record_remains_small_as_invocation_counts_grow() {
    let mut value = record("linux");
    value.measurements.as_mut().unwrap().hits = 1_000_000;
    assert!(to_bytes(&record_json(&value)).len() < 1024);
    let mut totals = Measurements::empty();
    totals.hits = u64::MAX;
    assert!(totals.merge(value.measurements.as_ref().unwrap()).is_err());
}

#[test]
fn record_encoding_is_the_record_file_form() {
    let bytes = to_bytes(&record_json(&record("linux")));
    let text = String::from_utf8(bytes).expect("UTF-8");
    assert_eq!(
        text,
        [
            r#"{"schema_version":1,"run":{"repository":"owner/project","run_id":"10","attempt":"1"},"job":"linux","#,
            r#""configuration":{"schema_version":1,"cargo_rail":"0.26.0","provider":"aws-s3","mode":"read","max_bytes":1024,"root_portability":"physical","remote_verification":"not_requested"},"#,
            r#""measurements":{"hits":4,"misses":1,"bypasses":2,"failures":0,"local_bytes_read":0,"remote_bytes_read":0,"remote_bytes_written":0,"bypass_reasons":{"unsupported_invocation":2},"failure_reasons":{},"incomplete":false},"#,
            r#""storage":{"bytes":512,"max_bytes":1024},"gaps":[]}"#,
        ]
        .concat()
    );
}

#[test]
fn collected_records_name_their_gaps_and_conflicts() {
    let configuration = record("linux").configuration;
    let built = job_record(run(), "linux".to_string(), configuration, None, None);
    assert_eq!(built.gaps, vec!["measurements_unavailable".to_string(), "storage_unavailable".to_string()]);
    let mut incomplete = Measurements::empty();
    incomplete.incomplete = true;
    let built = job_record(run(), "linux".to_string(), record("linux").configuration, Some(incomplete), None);
    assert_eq!(built.gaps, vec!["recording_incomplete".to_string(), "storage_unavailable".to_string()]);
    assert!(check_existing(&record("linux"), &record("linux")).is_ok());
    let mut other = record("linux");
    other.storage = None;
    assert_eq!(
        check_existing(&record("linux"), &other).expect_err("conflict").message,
        "conflicting cache record already exists for this job"
    );
}

#[test]
fn expected_jobs_and_record_files_are_bounded() {
    assert!(validate_expected_jobs(&expected(&["linux", "macos"])).is_ok());
    for invalid in [expected(&[]), expected(&["linux", "linux"]), expected(&["bad label"])] {
        assert_eq!(
            validate_expected_jobs(&invalid).expect_err("invalid").message,
            "expected-jobs must contain unique valid job labels"
        );
    }
    assert!(check_record_entry(0, "linux.json").is_ok());
    assert!(check_record_entry(0, ".json").is_err());
    assert!(check_record_entry(0, "linux.txt").is_err());
    assert_eq!(check_record_entry(512, "linux.json").expect_err("bound").message, "cache record directory exceeds the job bound");
}

#[test]
fn storage_is_read_from_the_local_cache_status() {
    let status = Json::Object(vec![(
        "status".to_string(),
        Json::Object(vec![(
            "local".to_string(),
            Json::Object(vec![(
                "cache".to_string(),
                Json::Object(vec![("bytes".to_string(), Json::UInt(7)), ("max_bytes".to_string(), Json::UInt(1024))]),
            )]),
        )]),
    )]);
    let storage = storage_of(&status, 1024).expect("storage");
    assert_eq!((storage.bytes, storage.max_bytes), (7, 1024));
    assert_eq!(
        storage_of(&status, 2048).expect_err("changed").message,
        "cache storage authority changed during the job"
    );
    assert_eq!(storage_of(&Json::Null, 1024).expect_err("missing").message, "cache storage bytes are unavailable");
}

#[test]
fn expected_jobs_input_is_a_json_array_of_unique_labels() {
    let jobs = Json::Array(vec![Json::Str("linux".to_string()), Json::Str("macos".to_string())]);
    assert_eq!(parse_expected_jobs(Some(&jobs)).expect("jobs"), ["linux", "macos"]);
    for not_array in [None, Some(Json::Str("linux".to_string())), Some(Json::Array(vec![Json::UInt(1)]))] {
        assert_eq!(
            parse_expected_jobs(not_array.as_ref()).expect_err("not an array").message,
            "expected-jobs must be a JSON array"
        );
    }
    let duplicate = Json::Array(vec![Json::Str("linux".to_string()), Json::Str("linux".to_string())]);
    assert_eq!(
        parse_expected_jobs(Some(&duplicate)).expect_err("duplicate").message,
        "expected-jobs must contain unique valid job labels"
    );
    assert!(parse_expected_jobs(Some(&Json::Array(Vec::new()))).is_err());
}

fn counts(hits: u64, bypass: &[(&str, u64)], incomplete: bool) -> Measurements {
    let mut m = Measurements::empty();
    m.hits = hits;
    m.bypass_reasons = bypass.iter().map(|(r, c)| (r.to_string(), *c)).collect();
    m.incomplete = incomplete;
    m
}

#[test]
fn merging_measurements_is_order_independent() {
    let a = counts(3, &[("disabled", 2), ("too_large", 1)], false);
    let b = counts(4, &[("cold_start", 5), ("too_large", 7)], true);
    let mut ab = counts(3, &[("disabled", 2), ("too_large", 1)], false);
    ab.merge(&b).expect("a then b");
    let mut ba = counts(4, &[("cold_start", 5), ("too_large", 7)], true);
    ba.merge(&a).expect("b then a");
    assert!(ab.same(&ba));
    assert_eq!(ab.hits, 7);
    assert_eq!(
        ab.bypass_reasons,
        vec![("cold_start".to_string(), 5), ("disabled".to_string(), 2), ("too_large".to_string(), 8)]
    );
    assert!(ab.incomplete);
    let mut overflow = counts(u64::MAX, &[], false);
    assert_eq!(overflow.merge(&counts(1_000_000, &[], false)).expect_err("overflow").kind, cargo_rail_action::error::ErrorKind::Rejected);
}

#[test]
fn measurement_reasons_must_be_a_sorted_map() {
    assert!(counts(1, &[("a", 1), ("b", 2)], false).validate().is_ok());
    assert_eq!(
        counts(1, &[("b", 1), ("a", 2)], false).validate().expect_err("unsorted").message,
        "invalid cache measurement reasons"
    );
}
