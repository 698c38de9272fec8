use cargo_rail_action::digest::hex_digest;
use cargo_rail_action::package::{
    asset_maximum, asset_record, generate_runtime_manifest, runtime_name, sort_assets, valid_asset_name, AssetRecord,
};

const LICENSE: &[u8] = b"MIT License\n";

fn asset(name: &str, contents: &[u8]) -> AssetRecord {
    asset_record(name, contents, LICENSE).expect("valid asset")
}

fn complete() -> Vec<AssetRecord> {
    vec![
        asset("LICENSE", LICENSE),
        asset("cargo-rail-action-aarch64-apple-darwin", b"darwin"),
        asset("cargo-rail-action-aarch64-unknown-linux-gnu", b"arm"),
        asset("cargo-rail-action-x86_64-pc-windows-msvc.exe", b"windows"),
        asset("cargo-rail-action-x86_64-unknown-linux-gnu", b"linux"),
    ]
}

#[test]
fn asset_names_are_pathless_printable_and_visible() {
    assert!(valid_asset_name("cargo-rail-action-x86_64-unknown-linux-gnu"));
    for invalid in ["", ".hidden", "a/b", "a\\b", "a b", "a\nb", "naïve"] {
        assert!(!valid_asset_name(invalid), "accepted {invalid:?}");
    }
    assert_eq!(runtime_name("x86_64-pc-windows-msvc"), "cargo-rail-action-x86_64-pc-windows-msvc.exe");
    assert_eq!(runtime_name("aarch64-unknown-linux-gnu"), "cargo-rail-action-aarch64-unknown-linux-gnu");
    assert_eq!(runtime_name("riscv64gc-unknown-linux-gnu"), "");
    assert_eq!(asset_maximum("LICENSE"), 64 * 1024);
    assert_eq!(asset_maximum("cargo-rail-action-runtime-v1.tsv"), 64 * 1024);
    assert_eq!(asset_maximum("cargo-rail-action-x86_64-unknown-linux-gnu"), 32 * 1024 * 1024);
}

#[test]
fn assets_are_recorded_with_size_and_digest_and_the_license_must_match() {
    let record = asset("cargo-rail-action-x86_64-unknown-linux-gnu", b"linux");
    assert_eq!(record.bytes, 5);
    assert_eq!(record.sha256, hex_digest(b"linux"));
    assert_eq!(
        hex_digest(b"abc"),
        "ba7816bf8f01cfea414140de5dae2223b00361a396177a9cb410ff61f20015ad"
    );
    assert_eq!(
        asset_record("LICENSE", b"other", LICENSE).expect_err("license").message,
        "release LICENSE does not match the runtime source license"
    );
    assert_eq!(
        asset_record("../escape", b"x", LICENSE).expect_err("name").message,
        "release asset must have one pathless UTF-8 name"
    );
}

#[test]
fn assets_sort_by_name_and_names_are_unique() {
    let mut reversed = complete();
    reversed.reverse();
    let sorted = sort_assets(reversed).expect("unique");
    let names: Vec<&str> = sorted.iter().map(|a| a.name.as_str()).collect();
    assert_eq!(
        names,
        [
            "LICENSE",
            "cargo-rail-action-aarch64-apple-darwin",
            "cargo-rail-action-aarch64-unknown-linux-gnu",
            "cargo-rail-action-x86_64-pc-windows-msvc.exe",
            "cargo-rail-action-x86_64-unknown-linux-gnu"
        ]
    );
    let duplicate = vec![asset("LICENSE", LICENSE), asset("LICENSE", LICENSE)];
    assert_eq!(sort_assets(duplicate).expect_err("duplicate").message, "release asset names must be unique");
}

#[test]
fn runtime_manifest_binds_each_qualified_target_and_the_license() {
    let manifest = generate_runtime_manifest(&complete(), LICENSE, "10.0.0").expect("complete set");
    let text = String::from_utf8(manifest).expect("UTF-8");
    assert_eq!(
        text,
        format!(
            "cargo-rail-action-runtime-v1\t10.0.0\naarch64-apple-darwin\tcargo-rail-action-aarch64-apple-darwin\t6\t{}\naarch64-unknown-linux-gnu\tcargo-rail-action-aarch64-unknown-linux-gnu\t3\t{}\nx86_64-pc-windows-msvc\tcargo-rail-action-x86_64-pc-windows-msvc.exe\t7\t{}\nx86_64-unknown-linux-gnu\tcargo-rail-action-x86_64-unknown-linux-gnu\t5\t{}\n",
            hex_digest(b"darwin"),
            hex_digest(b"arm"),
            hex_digest(b"windows"),
            hex_digest(b"linux")
        )
    );
    let message = "runtime manifest generation requires the exact qualified bounded executables and source LICENSE";
    let mut missing = complete();
    missing.pop();
    assert_eq!(generate_runtime_manifest(&missing, LICENSE, "10.0.0").expect_err("missing").message, message);
    let mut extra = complete();
    extra.push(asset("cargo-rail-action-riscv64gc-unknown-linux-gnu", b"riscv"));
    assert_eq!(generate_runtime_manifest(&extra, LICENSE, "10.0.0").expect_err("extra").message, message);
    assert_eq!(
        generate_runtime_manifest(&complete(), b"Other License\n", "10.0.0").expect_err("license").message,
        message
    );
    let mut empty = complete();
    empty[1] = asset("cargo-rail-action-aarch64-apple-darwin", b"");
    assert_eq!(generate_runtime_manifest(&empty, LICENSE, "10.0.0").expect_err("empty").message, message);
}
