use cargo_rail_action::installation::{publication_wait, PUBLICATION_POLLS};
use cargo_rail_action::archive::{
    checksum_for, inspect_archive, inspect_entries, parse_component_manifest, safe_archive_name,
    validate_zip_entry_compression, Compression, Inventory, ZipEntry,
};
use cargo_rail_action::digest::hex_digest;
use cargo_rail_action::install::{
    cargo_rail_archive_name, parse_manifest_entry, validate_cargo_rail_version, ComponentSet, ManifestEntry,
};
use cargo_rail_action::installation::{
    check_binary_version, check_component, check_installed_inventory, check_qualified_target, check_receipt,
    component_prefix, receipt_text, release_asset_url, runtime_digest, select_installation, selected_component,
    self_check,
};

const QUALIFIED_TARGETS: [&str; 3] = ["aarch64-apple-darwin", "x86_64-pc-windows-msvc", "x86_64-unknown-linux-gnu"];

fn component_manifest(target: &str, name: &str, contents: &[u8]) -> Vec<u8> {
    format!(
        "cargo-rail-components-v1\t0.26.0\t{target}\n{name}\t{}\t{}\tcore\n",
        hex_digest(contents),
        contents.len()
    )
    .into_bytes()
}

fn file(name: &str, size: u64) -> ZipEntry {
    ZipEntry {
        name: name.to_string(),
        is_dir: false,
        is_file: true,
        unix_mode: Some(0o100644),
        compression: Compression::Deflated,
        size,
    }
}

fn entry(name: &str, digest: &str, bytes: u64, capability: &str) -> ManifestEntry {
    ManifestEntry {
        name: name.to_string(),
        digest: digest.to_string(),
        bytes,
        capability: capability.to_string(),
    }
}

#[test]
fn version_contract_accepts_only_stable_026_patches() {
    assert!(validate_cargo_rail_version("0.26.0").is_ok());
    assert!(validate_cargo_rail_version("0.26.19").is_ok());
    for rejected in ["0.25.9", "0.27.0", "0.26.0-rc.1", "0.26.0+build", "00.26.0"] {
        assert!(validate_cargo_rail_version(rejected).is_err(), "accepted {rejected}");
    }
}

#[test]
fn qualified_cargo_rail_archives_use_one_deflated_zip_contract() {
    assert_eq!(
        QUALIFIED_TARGETS.map(cargo_rail_archive_name),
        [
            "cargo-rail-aarch64-apple-darwin.zip".to_string(),
            "cargo-rail-x86_64-pc-windows-msvc.zip".to_string(),
            "cargo-rail-x86_64-unknown-linux-gnu.zip".to_string(),
        ]
    );
    assert!(validate_zip_entry_compression("cargo-rail", false, Compression::Deflated).is_ok());
    assert!(validate_zip_entry_compression("cargo-rail", false, Compression::Stored).is_err());
    assert!(validate_zip_entry_compression("components/", true, Compression::Stored).is_ok());
    assert!(validate_zip_entry_compression("components/", true, Compression::Deflated).is_err());
}

#[test]
fn manifest_rows_are_pathless_and_canonical() {
    let digest = "a".repeat(64);
    let entry = parse_manifest_entry(&format!("cargo-rail\t{digest}\t12\tcore"), "fixture").expect("valid entry");
    assert_eq!(entry.name, "cargo-rail");
    assert_eq!(entry.digest, digest);
    assert_eq!(entry.bytes, 12);
    assert_eq!(entry.capability, "core");
    assert!(parse_manifest_entry(&format!("../cargo-rail\t{digest}\t12\tcore"), "fixture").is_err());
    assert!(parse_manifest_entry(&format!("cargo-rail\t{digest}\t012\tcore"), "fixture").is_err());
}

#[test]
fn archive_paths_are_relative_normal_and_normalized() {
    assert_eq!(safe_archive_name("bundle/cargo-rail").expect("safe"), "bundle/cargo-rail");
    assert_eq!(safe_archive_name("bundle//./cargo-rail/").expect("safe"), "bundle/cargo-rail");
    assert_eq!(
        safe_archive_name("/etc/passwd").expect_err("absolute").message,
        "archive entry path must be relative"
    );
    assert_eq!(safe_archive_name("a\\b").expect_err("backslash").message, "archive entry path is malformed");
    assert_eq!(safe_archive_name("").expect_err("empty").message, "archive entry path is malformed");
    assert_eq!(
        safe_archive_name("bundle/../cargo-rail").expect_err("parent").message,
        "archive entry path is unsafe: bundle/../cargo-rail"
    );
    assert_eq!(safe_archive_name("./cargo-rail").expect_err("current").message, "archive entry path is unsafe: ./cargo-rail");
}

#[test]
fn checksum_manifest_selects_exactly_one_lowercased_row() {
    let upper = "A".repeat(64);
    let lower = "a".repeat(64);
    let other = "b".repeat(64);
    let text = format!("{upper} *cargo-rail-x86_64-unknown-linux-gnu.zip\n\n{other}  other.zip\n");
    assert_eq!(checksum_for(text.as_bytes(), "cargo-rail-x86_64-unknown-linux-gnu.zip").expect("one row"), lower);
    assert_eq!(
        checksum_for(text.as_bytes(), "missing.zip").expect_err("no row").message,
        "release checksum manifest must contain exactly one entry for missing.zip"
    );
    let twice = format!("{lower}  a.zip\n{other}  a.zip\n");
    assert!(checksum_for(twice.as_bytes(), "a.zip").is_err());
    let crlf = format!("{lower}  a.zip\r\n{other}  b.zip\r\n");
    assert_eq!(checksum_for(crlf.as_bytes(), "a.zip").expect("CRLF rows"), lower);
    let embedded = format!("{lower}  a.zip\r\r\n");
    assert_eq!(
        checksum_for(embedded.as_bytes(), "a.zip").expect_err("embedded carriage return").message,
        "release checksum manifest must use LF line endings"
    );
    let inner = format!("{lower} \r a.zip\n");
    assert!(checksum_for(inner.as_bytes(), "a.zip").is_err());
    let pathful = format!("{lower}  dir/a.zip\n");
    assert_eq!(
        checksum_for(pathful.as_bytes(), "a.zip").expect_err("path").message,
        "release checksum manifest contains an invalid row"
    );
    let extra = format!("{lower}  a.zip extra\n");
    assert!(checksum_for(extra.as_bytes(), "a.zip").is_err());
    assert_eq!(
        checksum_for(&[0xff, 0xfe], "a.zip").expect_err("not UTF-8").message,
        "release checksum manifest is not UTF-8"
    );
}

#[test]
fn component_manifest_is_canonical_and_names_each_component_once() {
    let manifest = component_manifest("x86_64-unknown-linux-gnu", "cargo-rail", b"core bytes");
    let entries = parse_component_manifest(&manifest, "0.26.0", "x86_64-unknown-linux-gnu").expect("valid");
    assert_eq!(entries.len(), 1);
    assert_eq!(entries[0].name, "cargo-rail");
    assert_eq!(entries[0].bytes, 10);
    assert_eq!(entries[0].digest, hex_digest(b"core bytes"));
    assert_eq!(
        parse_component_manifest(&manifest, "0.26.1", "x86_64-unknown-linux-gnu").expect_err("version").message,
        "Cargo-Rail component manifest authority is incompatible"
    );
    let mut crlf = manifest.clone();
    crlf.insert(crlf.len() - 1, b'\r');
    assert_eq!(
        parse_component_manifest(&crlf, "0.26.0", "x86_64-unknown-linux-gnu").expect_err("crlf").message,
        "Cargo-Rail component manifest is not canonical LF-only text"
    );
    let header_only = b"cargo-rail-components-v1\t0.26.0\tx86_64-unknown-linux-gnu\n".to_vec();
    assert_eq!(
        parse_component_manifest(&header_only, "0.26.0", "x86_64-unknown-linux-gnu").expect_err("empty").message,
        "Cargo-Rail component manifest has no entries"
    );
    let digest = "c".repeat(64);
    let duplicate = format!(
        "cargo-rail-components-v1\t0.26.0\tx86_64-unknown-linux-gnu\ncargo-rail\t{digest}\t1\tcore\ncargo-rail\t{digest}\t1\tcore\n"
    );
    assert_eq!(
        parse_component_manifest(duplicate.as_bytes(), "0.26.0", "x86_64-unknown-linux-gnu")
            .expect_err("duplicate")
            .message,
        "Cargo-Rail component manifest contains duplicate names"
    );
    let non_ascii = "cargo-rail-components-v1\t0.26.0\tx86_64-unknown-linux-gnu\ncargo-raïl\n";
    assert_eq!(
        parse_component_manifest(non_ascii.as_bytes(), "0.26.0", "x86_64-unknown-linux-gnu")
            .expect_err("non-ASCII")
            .message,
        "Cargo-Rail component manifest must be ASCII"
    );
}

#[test]
fn stored_zip_regular_entries_and_links_are_rejected() {
    let mut stored = file("bundle/cargo-rail", 22);
    stored.compression = Compression::Stored;
    assert!(inspect_entries(&[stored]).expect_err("stored file").message.contains("compression contract"));
    let mut link = file("bundle/cargo-rail", 10);
    link.unix_mode = Some(0o120777);
    assert_eq!(
        inspect_entries(&[link]).expect_err("symlink").message,
        "Cargo-Rail ZIP contains a non-regular entry: bundle/cargo-rail"
    );
    assert_eq!(
        inspect_entries(&[file("a", 1), file("./a", 1)]).expect_err("unsafe").message,
        "archive entry path is unsafe: ./a"
    );
    assert_eq!(
        inspect_entries(&[file("a", 1), file("a/", 1)]).expect_err("duplicate").message,
        "Cargo-Rail archive contains duplicate entry a"
    );
    let many: Vec<ZipEntry> = (0..129).map(|index| file(&format!("f{index}"), 1)).collect();
    assert_eq!(
        inspect_entries(&many).expect_err("too many").message,
        "Cargo-Rail archive exceeds the 128-entry bound"
    );
}

#[test]
fn inspected_entries_list_files_and_manifests() {
    let directory = ZipEntry {
        name: "bundle/".to_string(),
        is_dir: true,
        is_file: false,
        unix_mode: None,
        compression: Compression::Stored,
        size: 0,
    };
    let inventory = inspect_entries(&[
        directory,
        file("bundle/cargo-rail-components-v1.tsv", 100),
        file("bundle/cargo-rail", 7),
    ])
    .expect("valid archive");
    assert_eq!(
        inventory.files,
        vec![("bundle/cargo-rail-components-v1.tsv".to_string(), 100), ("bundle/cargo-rail".to_string(), 7)]
    );
    assert_eq!(inventory.manifests, vec!["bundle/cargo-rail-components-v1.tsv".to_string()]);
    assert_eq!(
        inspect_entries(&[file("cargo-rail-components-v1.tsv", 65537)]).expect_err("large manifest").message,
        "Cargo-Rail component manifest exceeds 64 KiB"
    );
}

#[test]
fn archive_inventory_must_equal_the_declared_components() {
    let target = "x86_64-unknown-linux-gnu";
    let manifest = component_manifest(target, "cargo-rail", b"core bytes");
    let manifest_path = "bundle/cargo-rail-components-v1.tsv".to_string();
    let exact = Inventory {
        files: vec![(manifest_path.clone(), manifest.len() as u64), ("bundle/cargo-rail".to_string(), 10)],
        manifests: vec![manifest_path.clone()],
    };
    let layout = inspect_archive(&exact, &manifest, "0.26.0", target, ComponentSet::Core).expect("exact archive");
    assert_eq!(layout.component_directory, "bundle");
    assert_eq!(layout.entries.len(), 1);
    let undeclared = Inventory {
        files: vec![
            (manifest_path.clone(), manifest.len() as u64),
            ("bundle/cargo-rail".to_string(), 10),
            ("bundle/extra".to_string(), 1),
        ],
        manifests: vec![manifest_path.clone()],
    };
    assert_eq!(
        inspect_archive(&undeclared, &manifest, "0.26.0", target, ComponentSet::Core)
            .expect_err("undeclared file")
            .message,
        "Cargo-Rail archive inventory disagrees with its component manifest"
    );
    let none = Inventory { files: vec![], manifests: vec![] };
    assert_eq!(
        inspect_archive(&none, &manifest, "0.26.0", target, ComponentSet::Core).expect_err("no manifest").message,
        "Cargo-Rail archive must contain exactly one cargo-rail-components-v1.tsv"
    );
}

#[test]
fn receipts_round_trip_and_list_only_requested_components() {
    let target = "x86_64-unknown-linux-gnu";
    let digest = "d".repeat(64);
    let manifest_digest = "e".repeat(64);
    let entries = vec![
        entry("cargo-rail", &digest, 12, "core"),
        entry("cargo-rail-fact-driver", &digest, 5, "surface"),
    ];
    let receipt = receipt_text("0.26.0", target, ComponentSet::Core, &manifest_digest, &entries);
    assert_eq!(
        receipt,
        format!("cargo-rail-action-installed-v1\t0.26.0\t{target}\tcore\t{manifest_digest}\ncargo-rail\t{digest}\t12\tcore\n")
    );
    let parsed = check_receipt(receipt.as_bytes(), "/install", "0.26.0", target, ComponentSet::Core, &manifest_digest)
        .expect("round trip");
    assert_eq!(parsed.len(), 1);
    assert_eq!(parsed[0].name, "cargo-rail");
    assert_eq!(parsed[0].bytes, 12);
    assert_eq!(
        check_receipt(receipt.as_bytes(), "/install", "0.26.1", target, ComponentSet::Core, &manifest_digest)
            .expect_err("other version")
            .message,
        "immutable Cargo-Rail installation '/install' is corrupt (receipt authority is incompatible); remove that exact directory and rerun"
    );
    let header_only = format!("cargo-rail-action-installed-v1\t0.26.0\t{target}\tcore\t{manifest_digest}\n");
    assert!(check_receipt(header_only.as_bytes(), "/install", "0.26.0", target, ComponentSet::Core, &manifest_digest)
        .expect_err("no components")
        .message
        .contains("receipt has no components"));
}

#[test]
fn installed_inventory_and_components_match_the_receipt() {
    let digest = "d".repeat(64);
    let entries = vec![entry("cargo-rail", &digest, 12, "core")];
    let exact = vec!["cargo-rail-action-install-v1.tsv".to_string(), "cargo-rail".to_string()];
    assert!(check_installed_inventory("/install", &entries, &exact).is_ok());
    let extra = vec!["cargo-rail".to_string(), "stray".to_string()];
    assert!(check_installed_inventory("/install", &entries, &extra)
        .expect_err("stray file")
        .message
        .contains("directory inventory disagrees with its receipt"));
    assert!(check_component("/install", &entries[0], Some((true, 12))).is_ok());
    assert_eq!(
        check_component("/install", &entries[0], None).expect_err("missing").message,
        "installed component cargo-rail is missing"
    );
    assert!(check_component("/install", &entries[0], Some((true, 13)))
        .expect_err("changed")
        .message
        .contains("component cargo-rail is missing or changed"));
    assert!(check_binary_version(b"cargo-rail 0.26.0\n", "0.26.0").is_ok());
    assert_eq!(
        check_binary_version(b"cargo-rail 0.26.1\n", "0.26.0").expect_err("other").message,
        "installed Cargo-Rail version disagrees with requested 0.26.0"
    );
}

#[test]
fn one_installation_per_component_set_is_reused() {
    let digest = "f".repeat(64);
    let names = vec![(format!("core-{digest}"), true), ("cache-x".to_string(), true)];
    let (name, found) = select_installation(&names, ComponentSet::Core, "/root").expect("valid").expect("found");
    assert_eq!(name, format!("core-{digest}"));
    assert_eq!(found, digest);
    assert!(select_installation(&names, ComponentSet::Surface, "/root").expect("valid").is_none());
    let two = vec![(format!("core-{digest}"), true), ("core-other".to_string(), true)];
    assert_eq!(
        select_installation(&two, ComponentSet::Core, "/root").expect_err("two").message,
        "multiple immutable core installations exist under '/root'; remove the stale directories explicitly"
    );
    let bad = vec![("core-nothex".to_string(), true)];
    assert_eq!(
        select_installation(&bad, ComponentSet::Core, "/root").expect_err("invalid").message,
        "immutable installation directory has an invalid manifest identity"
    );
}

#[test]
fn runtime_identity_and_download_names_are_exact() {
    let digest = "0".repeat(64);
    let directory = format!("x86_64-unknown-linux-gnu-{digest}");
    assert_eq!(
        runtime_digest(
            Some("cargo-rail-action-x86_64-unknown-linux-gnu"),
            Some(&directory),
            "x86_64-unknown-linux-gnu",
            false
        )
        .expect("valid"),
        digest
    );
    assert_eq!(
        runtime_digest(Some("cargo-rail-action"), Some(&directory), "x86_64-unknown-linux-gnu", false)
            .expect_err("name")
            .message,
        "action runtime executable name is invalid"
    );
    assert_eq!(
        runtime_digest(
            Some("cargo-rail-action-x86_64-pc-windows-msvc.exe"),
            Some("x86_64-pc-windows-msvc-short"),
            "x86_64-pc-windows-msvc",
            true
        )
        .expect_err("identity")
        .message,
        "action runtime directory identity is invalid"
    );
    assert!(check_qualified_target("x86_64-unknown-linux-gnu").is_ok());
    assert!(check_qualified_target("aarch64-unknown-linux-gnu").is_err());
    assert_eq!(
        release_asset_url("0.26.0", "SHA256SUMS"),
        "https://github.com/loadingalias/cargo-rail/releases/download/v0.26.0/SHA256SUMS"
    );
    assert_eq!(component_prefix(""), "");
    assert_eq!(component_prefix("bundle"), "bundle/");
    assert!(self_check("10.0.0", "x86_64-unknown-linux-gnu", "10.0.0", "x86_64-unknown-linux-gnu").is_ok());
    assert_eq!(
        self_check("9.0.0", "x86_64-unknown-linux-gnu", "10.0.0", "x86_64-unknown-linux-gnu")
            .expect_err("version")
            .message,
        "runtime version is 10.0.0, expected 9.0.0"
    );
}

#[test]
fn extraction_selects_only_requested_components() {
    let digest = "d".repeat(64);
    let entries = vec![
        entry("cargo-rail", &digest, 12, "core"),
        entry("cargo-rail-fact-driver", &digest, 5, "surface"),
    ];
    assert_eq!(selected_component(&entries, ComponentSet::Core, "bundle/", "bundle/cargo-rail"), Some(0));
    assert_eq!(selected_component(&entries, ComponentSet::Core, "bundle/", "bundle/cargo-rail-fact-driver"), None);
    assert_eq!(
        selected_component(&entries, ComponentSet::Surface, "bundle/", "bundle/cargo-rail-fact-driver"),
        Some(1)
    );
    assert_eq!(selected_component(&entries, ComponentSet::Core, "bundle/", "other/cargo-rail"), None);
}

#[test]
fn waiting_for_another_installer_is_bounded() {
    assert_eq!(publication_wait(0, true, true, "/lock").expect("published"), true);
    assert_eq!(publication_wait(5, false, true, "/lock").expect("still running"), false);
    assert_eq!(
        publication_wait(5, false, false, "/lock").expect_err("vanished").message,
        "concurrent Cargo-Rail installation ended without publishing its immutable destination"
    );
    let stale = publication_wait(PUBLICATION_POLLS, true, true, "/lock").expect_err("stale");
    assert_eq!(stale.exit_code(), 1);
    assert_eq!(
        stale.message,
        "concurrent Cargo-Rail installation did not finish; remove stale lock '/lock' only after proving no installer is active"
    );
}
