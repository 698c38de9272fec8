use vstd::prelude::*;

use crate::digest::{sha256, sha256_of};
use crate::error::{ActionError, ErrorKind, rejection};
use crate::install::{hex_bytes, spec_hex};
use crate::json::{Json, JsonV, entries_view, items_view, lemma_entries, lemma_items, jv, encode, to_bytes, clone_json, find, has_key};
use crate::plan::{spec_valid_id, spec_valid_hash_id, spec_valid_version_hash, valid_id, valid_hash_id,
    valid_version_hash, hex_range};
use crate::text::{all_lower_hex, chars_of, concat, str_eq};
use crate::validation::{keys_exact, exact_keys, lits_view, str_at, obj_at, arr_at, val_at, strings_of, string_list_ok,
    one_of, strs_view, required_string, field_is, field_str_or_null, field_one_of, field_list, entry, strictly_sorted};

verus! {

/// Fails with a rejection carrying `message` when `condition` is false.
pub fn require(condition: bool, message: &str) -> (r: Result<(), ActionError>)
    ensures
        r is Ok <==> condition,
        r matches Err(e) ==> e.kind == ErrorKind::Rejected && e.message@ == message@,
{
    if condition {
        Ok(())
    } else {
        Err(rejection(message))
    }
}

/// The string under `key` is present and not empty.
pub open spec fn nonempty_str(e: Seq<(Seq<char>, JsonV)>, key: Seq<char>) -> bool {
    str_at(e, key) matches Some(s) && s.len() > 0
}

/// Null, absent or a string.
pub open spec fn str_or_null(v: JsonV) -> bool {
    v is Null || v is Str
}

/// Every string of the list is `prefix` and a SHA-256 digest.
pub open spec fn all_hash_ids(list: Seq<Seq<char>>, prefix: Seq<char>) -> bool {
    forall|i: int| 0 <= i < list.len() ==> spec_valid_hash_id(#[trigger] list[i], prefix)
}

/// Every string of the list is one of `options`.
pub open spec fn all_among(list: Seq<Seq<char>>, options: Seq<Seq<char>>) -> bool {
    forall|i: int| 0 <= i < list.len() ==> options.contains(#[trigger] list[i])
}

/// The keys of the plan inputs.
pub open spec fn input_keys() -> Seq<Seq<char>> {
    seq!["base"@, "head"@, "head_commit"@, "capture"@, "cargo"@, "configuration"@, "toolchain"@, "target"@,
        "platform"@, "catalog"@, "evidence"@, "override"@]
}

/// The plan inputs: exact keys, a full Git object ID, typed identities of the resolution universe,
/// configuration, target, catalog and evidence, and an override of `none` or `all`.
pub open spec fn inputs_ok(e: Seq<(Seq<char>, JsonV)>) -> bool {
    &&& keys_exact(e, input_keys(), seq![])
    &&& str_at(e, "base"@) is Some
    &&& str_at(e, "head"@) is Some
    &&& nonempty_str(e, "toolchain"@)
    &&& nonempty_str(e, "platform"@)
    &&& str_at(e, "head_commit"@) matches Some(h) && all_lower_hex(h) && (h.len() == 40 || h.len() == 64)
    &&& str_at(e, "cargo"@) matches Some(c) && spec_valid_version_hash(c, "resolution-universe-v"@)
    &&& str_at(e, "configuration"@) matches Some(c) && spec_valid_hash_id(c, "cargo-configuration-v1:sha256:"@)
    &&& str_at(e, "target"@) matches Some(c) && spec_valid_hash_id(c, "planning-target-v1:sha256:"@)
    &&& str_at(e, "catalog"@) matches Some(c) && spec_valid_hash_id(c, "work-catalog-v1:sha256:"@)
    &&& str_or_null(val_at(e, "capture"@))
    &&& string_list_ok(val_at(e, "evidence"@), false, true)
    &&& all_hash_ids(strings_of(val_at(e, "evidence"@))->0, "planning-evidence-v1:sha256:"@)
    &&& one_of(val_at(e, "override"@), seq!["none"@, "all"@])
}

/// Requires a string field to hold `prefix` and a SHA-256 digest.
fn hash_field(object: &Vec<(String, Json)>, field: &str, prefix: &str, message: &str) -> (r: Result<(), ActionError>)
    ensures
        r is Ok <==> (str_at(entries_view(object@), field@) matches Some(c) && spec_valid_hash_id(c, prefix@)),
        r matches Err(e) ==> e.kind == ErrorKind::Rejected,
{
    let value = required_string(object, field, "plan inputs")?;
    require(valid_hash_id(value, prefix), message)
}

/// Checks the plan inputs.
#[verifier::loop_isolation(false)]
pub fn validate_inputs(inputs: &Vec<(String, Json)>) -> (r: Result<(), ActionError>)
    ensures
        r is Ok <==> inputs_ok(entries_view(inputs@)),
        r matches Err(e) ==> e.kind == ErrorKind::Rejected,
{
    let keys: [&str; 12] = ["base", "head", "head_commit", "capture", "cargo", "configuration", "toolchain",
        "target", "platform", "catalog", "evidence", "override"];
    let none: [&str; 0] = [];
    proof {
        assert(lits_view(keys@) =~= input_keys());
        assert(lits_view(none@) =~= seq![]);
    }
    exact_keys(inputs, &keys, &none, "plan inputs")?;
    required_string(inputs, "base", "plan inputs")?;
    required_string(inputs, "head", "plan inputs")?;
    let toolchain = required_string(inputs, "toolchain", "plan inputs")?;
    require(!toolchain.is_empty(), "plan input toolchain is empty")?;
    let platform = required_string(inputs, "platform", "plan inputs")?;
    require(!platform.is_empty(), "plan input platform is empty")?;
    let head_commit = required_string(inputs, "head_commit", "plan inputs")?;
    let commit_chars = chars_of(head_commit);
    require(
        (commit_chars.len() == 40 || commit_chars.len() == 64) && hex_range(head_commit, 40, 64),
        "plan input head_commit is malformed",
    )?;
    let cargo = required_string(inputs, "cargo", "plan inputs")?;
    require(valid_version_hash(cargo, "resolution-universe-v"), "plan input cargo is malformed")?;
    hash_field(inputs, "configuration", "cargo-configuration-v1:sha256:", "plan input configuration is malformed")?;
    hash_field(inputs, "target", "planning-target-v1:sha256:", "plan input target is malformed")?;
    hash_field(inputs, "catalog", "work-catalog-v1:sha256:", "plan input catalog is malformed")?;
    require(field_str_or_null(inputs, "capture"), "plan capture is malformed")?;
    let evidence = field_list(inputs, "evidence", "plan evidence identities", false, true)?;
    let mut i: usize = 0;
    while i < evidence.len()
        invariant
            i <= evidence@.len(),
            forall|k: int| 0 <= k < i ==> spec_valid_hash_id(#[trigger] strs_view(evidence@)[k],
                "planning-evidence-v1:sha256:"@),
        decreases evidence@.len() - i,
    {
        if !valid_hash_id(evidence[i].as_str(), "planning-evidence-v1:sha256:") {
            proof {
                assert(!spec_valid_hash_id(strs_view(evidence@)[i as int], "planning-evidence-v1:sha256:"@));
            }
            return Err(rejection("plan evidence identities are malformed"));
        }
        i = i + 1;
    }
    let options: [&str; 2] = ["none", "all"];
    proof {
        assert(lits_view(options@) =~= seq!["none"@, "all"@]);
    }
    require(field_one_of(inputs, "override", &options), "plan override is malformed")
}

/// An optional string field: absent or a string.
pub open spec fn optional_str(e: Seq<(Seq<char>, JsonV)>, key: Seq<char>) -> bool {
    crate::json::find(e, key) matches Some(v) ==> v is Str
}

/// A file change: a non-empty path, a known kind, known provenance, and string extras.
pub open spec fn file_change_ok(v: JsonV) -> bool {
    v matches JsonV::Object(c) && {
        &&& keys_exact(c, seq!["path"@, "kind"@, "provenance"@], seq!["relation"@, "before"@, "after"@])
        &&& nonempty_str(c, "path"@)
        &&& one_of(val_at(c, "kind"@), seq!["added"@, "modified"@, "type_changed"@, "deleted"@])
        &&& string_list_ok(val_at(c, "provenance"@), false, true)
        &&& all_among(strings_of(val_at(c, "provenance"@))->0, seq!["committed"@, "staged"@, "unstaged"@, "untracked"@])
        &&& optional_str(c, "relation"@)
        &&& optional_str(c, "before"@)
        &&& optional_str(c, "after"@)
    }
}

/// A Cargo change: a package, a kind, and a target that is null or a string.
pub open spec fn cargo_change_ok(v: JsonV) -> bool {
    v matches JsonV::Object(c) && {
        &&& keys_exact(c, seq!["package"@, "target"@, "kind"@], seq![])
        &&& str_at(c, "package"@) is Some
        &&& str_at(c, "kind"@) is Some
        &&& str_or_null(val_at(c, "target"@))
    }
}

/// A configuration change with a non-empty path.
pub open spec fn config_change_ok(v: JsonV) -> bool {
    v matches JsonV::Object(c) && {
        &&& keys_exact(c, seq!["path"@, "before"@, "after"@], seq![])
        &&& nonempty_str(c, "path"@)
    }
}

/// Every item is a well-formed file change.
pub open spec fn all_file_changes(a: Seq<JsonV>) -> bool {
    forall|i: int| 0 <= i < a.len() ==> file_change_ok(#[trigger] a[i])
}

/// Every item is a well-formed Cargo change.
pub open spec fn all_cargo_changes(a: Seq<JsonV>) -> bool {
    forall|i: int| 0 <= i < a.len() ==> cargo_change_ok(#[trigger] a[i])
}

/// Every item is a well-formed configuration change.
pub open spec fn all_config_changes(a: Seq<JsonV>) -> bool {
    forall|i: int| 0 <= i < a.len() ==> config_change_ok(#[trigger] a[i])
}

/// The plan changes: file, Cargo and configuration changes, each well formed.
pub open spec fn changes_ok(v: JsonV) -> bool {
    v matches JsonV::Object(c) && {
        &&& keys_exact(c, seq!["files"@, "cargo"@, "config"@], seq![])
        &&& arr_at(c, "files"@) matches Some(a) && all_file_changes(a)
        &&& arr_at(c, "cargo"@) matches Some(a) && all_cargo_changes(a)
        &&& arr_at(c, "config"@) matches Some(a) && all_config_changes(a)
    }
}

/// Requires an optional field to be a string when present.
fn optional_string(object: &Vec<(String, Json)>, field: &str, message: &str) -> (r: Result<(), ActionError>)
    ensures
        r is Ok <==> optional_str(entries_view(object@), field@),
        r matches Err(e) ==> e.kind == ErrorKind::Rejected,
{
    match entry(object, field) {
        Some(value) => require(value.as_str().is_some(), message),
        None => Ok(()),
    }
}

/// Checks one file change.
#[verifier::loop_isolation(false)]
pub fn validate_file_change(value: &Json) -> (r: Result<(), ActionError>)
    ensures
        r is Ok <==> file_change_ok(value@),
        r matches Err(e) ==> e.kind == ErrorKind::Rejected,
{
    let change = match value.as_object() {
        Some(c) => c,
        None => return Err(rejection("file change must be an object")),
    };
    let required: [&str; 3] = ["path", "kind", "provenance"];
    let optional: [&str; 3] = ["relation", "before", "after"];
    proof {
        assert(lits_view(required@) =~= seq!["path"@, "kind"@, "provenance"@]);
        assert(lits_view(optional@) =~= seq!["relation"@, "before"@, "after"@]);
    }
    exact_keys(change, &required, &optional, "file change")?;
    let path = required_string(change, "path", "file change")?;
    require(!path.is_empty(), "file change path is malformed")?;
    let kinds: [&str; 4] = ["added", "modified", "type_changed", "deleted"];
    proof {
        assert(lits_view(kinds@) =~= seq!["added"@, "modified"@, "type_changed"@, "deleted"@]);
    }
    require(field_one_of(change, "kind", &kinds), "file change kind is malformed")?;
    let provenance = field_list(change, "provenance", "file change provenance", false, true)?;
    let sources: [&str; 4] = ["committed", "staged", "unstaged", "untracked"];
    proof {
        assert(lits_view(sources@) =~= seq!["committed"@, "staged"@, "unstaged"@, "untracked"@]);
    }
    let mut i: usize = 0;
    while i < provenance.len()
        invariant
            i <= provenance@.len(),
            lits_view(sources@) =~= seq!["committed"@, "staged"@, "unstaged"@, "untracked"@],
            forall|k: int| 0 <= k < i ==> lits_view(sources@).contains(#[trigger] strs_view(provenance@)[k]),
        decreases provenance@.len() - i,
    {
        proof {
            assert(strs_view(provenance@)[i as int] == provenance@[i as int]@);
        }
        if !crate::validation::lit_in(&sources, provenance[i].as_str()) {
            return Err(rejection("file change provenance is unknown"));
        }
        i = i + 1;
    }
    optional_string(change, "relation", "file change relation must be a string")?;
    optional_string(change, "before", "file change before must be a string")?;
    optional_string(change, "after", "file change after must be a string")
}

/// Checks one Cargo change.
pub fn validate_cargo_change(value: &Json) -> (r: Result<(), ActionError>)
    ensures
        r is Ok <==> cargo_change_ok(value@),
        r matches Err(e) ==> e.kind == ErrorKind::Rejected,
{
    let change = match value.as_object() {
        Some(c) => c,
        None => return Err(rejection("Cargo change must be an object")),
    };
    let required: [&str; 3] = ["package", "target", "kind"];
    let none: [&str; 0] = [];
    proof {
        assert(lits_view(required@) =~= seq!["package"@, "target"@, "kind"@]);
        assert(lits_view(none@) =~= seq![]);
    }
    exact_keys(change, &required, &none, "Cargo change")?;
    required_string(change, "package", "Cargo change")?;
    required_string(change, "kind", "Cargo change")?;
    require(field_str_or_null(change, "target"), "Cargo change target is malformed")
}

/// Checks one configuration change.
pub fn validate_config_change(value: &Json) -> (r: Result<(), ActionError>)
    ensures
        r is Ok <==> config_change_ok(value@),
        r matches Err(e) ==> e.kind == ErrorKind::Rejected,
{
    let change = match value.as_object() {
        Some(c) => c,
        None => return Err(rejection("config change must be an object")),
    };
    let required: [&str; 3] = ["path", "before", "after"];
    let none: [&str; 0] = [];
    proof {
        assert(lits_view(required@) =~= seq!["path"@, "before"@, "after"@]);
        assert(lits_view(none@) =~= seq![]);
    }
    exact_keys(change, &required, &none, "config change")?;
    let path = required_string(change, "path", "config change")?;
    require(!path.is_empty(), "config change path is malformed")
}

/// Checks every file change of a list.
#[verifier::loop_isolation(false)]
fn validate_file_changes(items: &Vec<Json>) -> (r: Result<(), ActionError>)
    ensures
        r is Ok <==> all_file_changes(items_view(items@)),
        r matches Err(e) ==> e.kind == ErrorKind::Rejected,
{
    proof {
        lemma_items(items@, items@.len());
    }
    let mut i: usize = 0;
    while i < items.len()
        invariant
            i <= items@.len(),
            forall|k: int| 0 <= k < i ==> file_change_ok(#[trigger] items_view(items@)[k]),
        decreases items@.len() - i,
    {
        proof {
            assert(items_view(items@)[i as int] == items@[i as int]@);
        }
        validate_file_change(&items[i])?;
        i = i + 1;
    }
    Ok(())
}

/// Checks every Cargo change of a list.
#[verifier::loop_isolation(false)]
fn validate_cargo_changes(items: &Vec<Json>) -> (r: Result<(), ActionError>)
    ensures
        r is Ok <==> all_cargo_changes(items_view(items@)),
        r matches Err(e) ==> e.kind == ErrorKind::Rejected,
{
    proof {
        lemma_items(items@, items@.len());
    }
    let mut i: usize = 0;
    while i < items.len()
        invariant
            i <= items@.len(),
            forall|k: int| 0 <= k < i ==> cargo_change_ok(#[trigger] items_view(items@)[k]),
        decreases items@.len() - i,
    {
        proof {
            assert(items_view(items@)[i as int] == items@[i as int]@);
        }
        validate_cargo_change(&items[i])?;
        i = i + 1;
    }
    Ok(())
}

/// Checks every configuration change of a list.
#[verifier::loop_isolation(false)]
fn validate_config_changes(items: &Vec<Json>) -> (r: Result<(), ActionError>)
    ensures
        r is Ok <==> all_config_changes(items_view(items@)),
        r matches Err(e) ==> e.kind == ErrorKind::Rejected,
{
    proof {
        lemma_items(items@, items@.len());
    }
    let mut i: usize = 0;
    while i < items.len()
        invariant
            i <= items@.len(),
            forall|k: int| 0 <= k < i ==> config_change_ok(#[trigger] items_view(items@)[k]),
        decreases items@.len() - i,
    {
        proof {
            assert(items_view(items@)[i as int] == items@[i as int]@);
        }
        validate_config_change(&items[i])?;
        i = i + 1;
    }
    Ok(())
}

/// Checks the plan changes.
pub fn validate_changes(value: &Json) -> (r: Result<(), ActionError>)
    ensures
        r is Ok <==> changes_ok(value@),
        r matches Err(e) ==> e.kind == ErrorKind::Rejected,
{
    let changes = match value.as_object() {
        Some(c) => c,
        None => return Err(rejection("plan changes must be an object")),
    };
    let required: [&str; 3] = ["files", "cargo", "config"];
    let none: [&str; 0] = [];
    proof {
        assert(lits_view(required@) =~= seq!["files"@, "cargo"@, "config"@]);
        assert(lits_view(none@) =~= seq![]);
    }
    exact_keys(changes, &required, &none, "plan changes")?;
    let files = crate::validation::array_field(changes, "files", "plan changes")?;
    validate_file_changes(files)?;
    let cargo = crate::validation::array_field(changes, "cargo", "plan changes")?;
    validate_cargo_changes(cargo)?;
    let config = crate::validation::array_field(changes, "config", "plan changes")?;
    validate_config_changes(config)?;
    Ok(())
}

/// The value under `field`, or null when there is none, as `object[field].clone()` gives it.
pub fn field_value(object: &Vec<(String, Json)>, field: &str) -> (r: Json)
    ensures
        r@ == val_at(entries_view(object@), field@),
{
    match entry(object, field) {
        Some(value) => clone_json(value),
        None => Json::Null,
    }
}

/// Whether `identity` is `prefix` followed by the lowercase hexadecimal form of `digest`.
pub fn digest_identity_ok(identity: &str, prefix: &str, digest: &[u8]) -> (r: bool)
    ensures
        r == (identity@ == prefix@ + spec_hex(digest@)),
{
    let expected = concat(prefix, hex_bytes(digest).as_str());
    str_eq(identity, expected.as_str())
}

/// The portable part of an evidence record that its identity covers: code, completeness, input
/// and subject, in the key order of a JSON object.
pub open spec fn evidence_portable(r: Seq<(Seq<char>, JsonV)>) -> JsonV {
    JsonV::Object(seq![("code"@, val_at(r, "code"@)), ("complete"@, val_at(r, "complete"@)),
        ("input"@, val_at(r, "input"@)), ("subject"@, val_at(r, "subject"@))])
}

/// An evidence record under its reference: typed fields, a narrow subject, and a reference that is
/// the SHA-256 identity of its portable part.
pub open spec fn evidence_record_ok(reference: Seq<char>, v: JsonV) -> bool {
    &&& spec_valid_hash_id(reference, "evidence:sha256:"@)
    &&& v matches JsonV::Object(r) && {
        &&& keys_exact(r, seq!["code"@, "subject"@, "description"@, "input"@, "complete"@], seq![])
        &&& nonempty_str(r, "code"@)
        &&& nonempty_str(r, "subject"@)
        &&& nonempty_str(r, "description"@)
        &&& str_at(r, "subject"@) matches Some(s) && spec_valid_id(s)
        &&& str_or_null(val_at(r, "input"@))
        &&& val_at(r, "complete"@) is Bool
        &&& reference == "evidence:sha256:"@ + spec_hex(sha256_of(encode(evidence_portable(r))))
    }
}

/// Every evidence record is well formed under its reference.
pub open spec fn evidence_ok(e: Seq<(Seq<char>, JsonV)>) -> bool {
    forall|i: int| 0 <= i < e.len() ==> evidence_record_ok((#[trigger] e[i]).0, e[i].1)
}

/// Checks one evidence record under its reference.
pub fn validate_evidence_record(reference: &str, value: &Json) -> (r: Result<(), ActionError>)
    ensures
        r is Ok <==> evidence_record_ok(reference@, value@),
        r matches Err(e) ==> e.kind == ErrorKind::Rejected,
{
    require(valid_hash_id(reference, "evidence:sha256:"), "plan evidence ID is malformed")?;
    let record = match value.as_object() {
        Some(r) => r,
        None => return Err(rejection("plan evidence must be an object")),
    };
    let required: [&str; 5] = ["code", "subject", "description", "input", "complete"];
    let none: [&str; 0] = [];
    proof {
        assert(lits_view(required@) =~= seq!["code"@, "subject"@, "description"@, "input"@, "complete"@]);
        assert(lits_view(none@) =~= seq![]);
    }
    exact_keys(record, &required, &none, "plan evidence")?;
    let code = required_string(record, "code", "plan evidence")?;
    require(!code.is_empty(), "plan evidence is malformed")?;
    let subject = required_string(record, "subject", "plan evidence")?;
    require(!subject.is_empty(), "plan evidence is malformed")?;
    let description = required_string(record, "description", "plan evidence")?;
    require(!description.is_empty(), "plan evidence is malformed")?;
    require(valid_id(subject), "plan evidence subject is malformed")?;
    require(field_str_or_null(record, "input"), "plan evidence input is malformed")?;
    let complete = match entry(record, "complete") {
        Some(v) => v.as_bool().is_some(),
        None => false,
    };
    require(complete, "plan evidence completeness is malformed")?;
    let portable_entries: Vec<(String, Json)> = vec![
        ("code".to_owned(), field_value(record, "code")),
        ("complete".to_owned(), field_value(record, "complete")),
        ("input".to_owned(), field_value(record, "input")),
        ("subject".to_owned(), field_value(record, "subject")),
    ];
    proof {
        lemma_entries(portable_entries@, 4);
        assert(entries_view(portable_entries@) =~= evidence_portable(entries_view(record@))->Object_0);
    }
    let portable = Json::Object(portable_entries);
    let encoded = to_bytes(&portable);
    let digest = sha256(encoded.as_slice());
    require(digest_identity_ok(reference, "evidence:sha256:", digest.as_slice()), "plan evidence does not match its typed content")
}

/// Checks every evidence record of the plan.
#[verifier::loop_isolation(false)]
pub fn validate_evidence(evidence: &Vec<(String, Json)>) -> (r: Result<(), ActionError>)
    ensures
        r is Ok <==> evidence_ok(entries_view(evidence@)),
        r matches Err(e) ==> e.kind == ErrorKind::Rejected,
{
    proof {
        lemma_entries(evidence@, evidence@.len());
    }
    let mut i: usize = 0;
    while i < evidence.len()
        invariant
            i <= evidence@.len(),
            forall|k: int| 0 <= k < i ==> evidence_record_ok((#[trigger] entries_view(evidence@)[k]).0,
                entries_view(evidence@)[k].1),
        decreases evidence@.len() - i,
    {
        proof {
            assert(entries_view(evidence@)[i as int] == (evidence@[i as int].0@, evidence@[i as int].1@));
        }
        validate_evidence_record(evidence[i].0.as_str(), &evidence[i].1)?;
        i = i + 1;
    }
    Ok(())
}

/// A Cargo target: package, name and unique kinds.
pub open spec fn cargo_target_ok(v: JsonV) -> bool {
    v matches JsonV::Object(t) && {
        &&& keys_exact(t, seq!["package"@, "name"@, "kind"@], seq![])
        &&& nonempty_str(t, "package"@)
        &&& nonempty_str(t, "name"@)
        &&& string_list_ok(val_at(t, "kind"@), false, true)
    }
}

pub open spec fn all_cargo_targets(a: Seq<JsonV>) -> bool {
    forall|i: int| 0 <= i < a.len() ==> cargo_target_ok(#[trigger] a[i])
}

/// A package selector: key, name and a Cargo package spec that is not option-like.
pub open spec fn package_selector_ok(v: JsonV) -> bool {
    v matches JsonV::Object(p) && {
        &&& keys_exact(p, seq!["key"@, "name"@, "cargo_spec"@], seq![])
        &&& nonempty_str(p, "key"@)
        &&& nonempty_str(p, "name"@)
        &&& str_at(p, "cargo_spec"@) matches Some(c) && c.len() > 0 && c[0] != '-'
    }
}

pub open spec fn all_package_selectors(a: Seq<JsonV>) -> bool {
    forall|i: int| 0 <= i < a.len() ==> package_selector_ok(#[trigger] a[i])
}

/// The text under `key` of a value that holds one there.
pub open spec fn text_under(v: JsonV, key: Seq<char>) -> Seq<char> {
    crate::json::at(v, key)->Str_0
}

/// The texts under `key` of each value.
pub open spec fn texts_under(a: Seq<JsonV>, key: Seq<char>) -> Seq<Seq<char>> {
    a.map_values(|v: JsonV| text_under(v, key))
}

/// The Cargo argv that selects the packages: `-p` and the spec of each, in order.
pub open spec fn package_args(a: Seq<JsonV>) -> Seq<Seq<char>>
    decreases a.len(),
{
    if a.len() == 0 {
        seq![]
    } else {
        package_args(a.drop_last()) + seq!["-p"@, text_under(a.last(), "cargo_spec"@)]
    }
}

/// Every target names one of the given package keys.
pub open spec fn targets_within(targets: Seq<JsonV>, keys: Seq<Seq<char>>) -> bool {
    forall|i: int| 0 <= i < targets.len() ==> (crate::json::at(#[trigger] targets[i], "package"@) matches JsonV::Str(p)
        && keys.contains(p))
}

/// The packages of a package selection: non-empty, canonical, and agreeing with the argv and targets.
pub open spec fn packages_selection_ok(sel: Seq<(Seq<char>, JsonV)>) -> bool {
    arr_at(sel, "packages"@) matches Some(pk) && {
        &&& pk.len() > 0
        &&& all_package_selectors(pk)
        &&& strictly_sorted(texts_under(pk, "key"@))
        &&& strings_of(val_at(sel, "cargo_args"@))->0 == package_args(pk)
        &&& targets_within(arr_at(sel, "targets"@)->0, texts_under(pk, "key"@))
    }
}

/// A Cargo selection of the whole workspace, with no narrowing selectors, or of typed packages.
pub open spec fn cargo_selection_ok(sel: Seq<(Seq<char>, JsonV)>, kind: Seq<char>) -> bool {
    &&& kind == "workspace"@ || kind == "packages"@
    &&& keys_exact(sel, if kind == "packages"@ {
            seq!["kind"@, "packages"@, "cargo_args"@, "targets"@]
        } else {
            seq!["kind"@, "cargo_args"@, "targets"@]
        }, seq![])
    &&& string_list_ok(val_at(sel, "cargo_args"@), false, false)
    &&& arr_at(sel, "targets"@) matches Some(t) && all_cargo_targets(t)
    &&& if kind == "packages"@ {
            packages_selection_ok(sel)
        } else {
            strings_of(val_at(sel, "cargo_args"@))->0.len() == 0 && arr_at(sel, "targets"@)->0.len() == 0
        }
}

/// A variant dimension value: a string, a Boolean or an integer.
pub open spec fn dimension_value_ok(v: JsonV) -> bool {
    v is Str || v is Bool || v is UInt || v is NegInt
}

pub open spec fn all_dimension_values(d: Seq<(Seq<char>, JsonV)>) -> bool {
    forall|i: int| 0 <= i < d.len() ==> dimension_value_ok((#[trigger] d[i]).1)
}

/// A selected variant: a narrow ID and scalar dimensions.
pub open spec fn variant_ok(v: JsonV) -> bool {
    v matches JsonV::Object(o) && {
        &&& keys_exact(o, seq!["id"@, "dimensions"@], seq![])
        &&& str_at(o, "id"@) matches Some(id) && spec_valid_id(id)
        &&& obj_at(o, "dimensions"@) matches Some(d) && all_dimension_values(d)
    }
}

pub open spec fn all_variants(a: Seq<JsonV>) -> bool {
    forall|i: int| 0 <= i < a.len() ==> variant_ok(#[trigger] a[i])
}

/// The evidence of a variant selection is known, cited by the decision, and about the same work.
pub open spec fn variant_evidence_ok(sel: Seq<(Seq<char>, JsonV)>, work_id: Seq<char>, evidence: Seq<(Seq<char>, JsonV)>,
    references: Seq<Seq<char>>) -> bool {
    str_at(sel, "evidence"@) matches Some(reference) && {
        &&& obj_at(evidence, reference) matches Some(record) && val_at(record, "subject"@) == JsonV::Str(work_id)
        &&& references.contains(reference)
    }
}

/// A variant selection of all variants or of a non-empty list, with its evidence.
pub open spec fn variant_selection_ok(sel: Seq<(Seq<char>, JsonV)>, kind: Seq<char>, work_id: Seq<char>,
    evidence: Seq<(Seq<char>, JsonV)>, references: Seq<Seq<char>>) -> bool {
    &&& kind == "all"@ || kind == "selected"@
    &&& if kind == "all"@ {
            keys_exact(sel, seq!["kind"@, "evidence"@], seq![])
        } else {
            &&& keys_exact(sel, seq!["kind"@, "variants"@, "evidence"@], seq![])
            &&& arr_at(sel, "variants"@) matches Some(vs) && vs.len() > 0 && all_variants(vs)
        }
    &&& variant_evidence_ok(sel, work_id, evidence, references)
}

/// The scope of required work: the repository, a Cargo selection or a variant selection.
pub open spec fn selection_ok(scope: Seq<(Seq<char>, JsonV)>, work_id: Seq<char>, evidence: Seq<(Seq<char>, JsonV)>,
    references: Seq<Seq<char>>) -> bool {
    str_at(scope, "kind"@) matches Some(kind) && if kind == "repository"@ {
        keys_exact(scope, seq!["kind"@], seq![])
    } else {
        &&& kind == "cargo"@ || kind == "variants"@
        &&& keys_exact(scope, seq!["kind"@, "selection"@], seq![])
        &&& obj_at(scope, "selection"@) matches Some(sel) && str_at(sel, "kind"@) matches Some(sk) && if kind == "cargo"@ {
                cargo_selection_ok(sel, sk)
            } else {
                variant_selection_ok(sel, sk, work_id, evidence, references)
            }
    }
}

/// Checks every Cargo target of a list.
#[verifier::loop_isolation(false)]
fn validate_cargo_targets(items: &Vec<Json>) -> (r: Result<(), ActionError>)
    ensures
        r is Ok <==> all_cargo_targets(items_view(items@)),
        r matches Err(e) ==> e.kind == ErrorKind::Rejected,
{
    proof {
        lemma_items(items@, items@.len());
    }
    let required: [&str; 3] = ["package", "name", "kind"];
    let none: [&str; 0] = [];
    proof {
        assert(lits_view(required@) =~= seq!["package"@, "name"@, "kind"@]);
        assert(lits_view(none@) =~= seq![]);
    }
    let mut i: usize = 0;
    while i < items.len()
        invariant
            i <= items@.len(),
            forall|k: int| 0 <= k < i ==> cargo_target_ok(#[trigger] items_view(items@)[k]),
        decreases items@.len() - i,
    {
        proof {
            assert(items_view(items@)[i as int] == items@[i as int]@);
        }
        let target = match items[i].as_object() {
            Some(t) => t,
            None => return Err(rejection("Cargo target must be an object")),
        };
        exact_keys(target, &required, &none, "Cargo target")?;
        let package = required_string(target, "package", "Cargo target")?;
        require(!package.is_empty(), "Cargo target package is malformed")?;
        let name = required_string(target, "name", "Cargo target")?;
        require(!name.is_empty(), "Cargo target name is malformed")?;
        field_list(target, "kind", "Cargo target kinds", false, true)?;
        i = i + 1;
    }
    Ok(())
}

/// Checks the package selectors and returns their keys and the argv they imply.
#[verifier::loop_isolation(false)]
fn validate_package_selectors(items: &Vec<Json>) -> (r: Result<(Vec<String>, Vec<String>), ActionError>)
    ensures
        r is Ok <==> all_package_selectors(items_view(items@)),
        r matches Ok((keys, args)) ==> strs_view(keys@) == texts_under(items_view(items@), "key"@)
            && strs_view(args@) == package_args(items_view(items@)),
        r matches Err(e) ==> e.kind == ErrorKind::Rejected,
{
    proof {
        lemma_items(items@, items@.len());
    }
    let required: [&str; 3] = ["key", "name", "cargo_spec"];
    let none: [&str; 0] = [];
    proof {
        assert(lits_view(required@) =~= seq!["key"@, "name"@, "cargo_spec"@]);
        assert(lits_view(none@) =~= seq![]);
    }
    let ghost iv = items_view(items@);
    let mut keys: Vec<String> = Vec::new();
    let mut args: Vec<String> = Vec::new();
    let mut i: usize = 0;
    while i < items.len()
        invariant
            i <= items@.len(),
            iv == items_view(items@),
            forall|k: int| 0 <= k < i ==> package_selector_ok(#[trigger] iv[k]),
            strs_view(keys@) == texts_under(iv.take(i as int), "key"@),
            strs_view(args@) == package_args(iv.take(i as int)),
        decreases items@.len() - i,
    {
        proof {
            assert(iv[i as int] == items@[i as int]@);
        }
        let package = match items[i].as_object() {
            Some(p) => p,
            None => return Err(rejection("Cargo package selector must be an object")),
        };
        exact_keys(package, &required, &none, "Cargo package selector")?;
        let key = required_string(package, "key", "Cargo package selector")?;
        require(!key.is_empty(), "Cargo package key is empty")?;
        let name = required_string(package, "name", "Cargo package selector")?;
        require(!name.is_empty(), "Cargo package name is empty")?;
        let spec = required_string(package, "cargo_spec", "Cargo package selector")?;
        let spec_chars = chars_of(spec);
        require(spec_chars.len() > 0 && spec_chars[0] != '-', "Cargo package spec is empty or option-like")?;
        proof {
            assert(iv.take(i + 1).drop_last() == iv.take(i as int));
            assert(iv.take(i + 1).last() == iv[i as int]);
            assert(text_under(iv[i as int], "key"@) == key@);
            assert(text_under(iv[i as int], "cargo_spec"@) == spec@);
        }
        let ghost old_keys = keys@;
        keys.push(key.to_owned());
        args.push("-p".to_owned());
        args.push(spec.to_owned());
        proof {
            assert(strs_view(old_keys) == texts_under(iv.take(i as int), "key"@));
            assert forall|k: int| 0 <= k < i + 1 implies #[trigger] strs_view(keys@)[k] == texts_under(iv.take(i + 1), "key"@)[k] by {
                if k < i {
                    assert(strs_view(old_keys)[k] == texts_under(iv.take(i as int), "key"@)[k]);
                }
            }
            assert(strs_view(keys@) =~= texts_under(iv.take(i + 1), "key"@));
            assert(strs_view(args@) =~= package_args(iv.take(i + 1)));
        }
        i = i + 1;
    }
    proof {
        assert(iv.take(i as int) == iv);
    }
    Ok((keys, args))
}

/// Whether each string sorts strictly after the one before it.
pub fn sorted_strictly(list: &Vec<String>) -> (r: bool)
    ensures
        r == strictly_sorted(strs_view(list@)),
{
    let mut k: usize = 1;
    while k < list.len()
        invariant
            1 <= k,
            k <= list@.len() || list@.len() == 0,
            forall|m: int| 0 < m < k && m < list@.len() ==> crate::validation::text_lt(strs_view(list@)[m - 1],
                #[trigger] strs_view(list@)[m]),
        decreases list@.len() - k,
    {
        if !crate::validation::text_less(list[k - 1].as_str(), list[k].as_str()) {
            proof {
                assert(strs_view(list@)[k as int] == list@[k as int]@);
                assert(strs_view(list@)[k - 1] == list@[k - 1]@);
            }
            return false;
        }
        k = k + 1;
    }
    true
}

/// Whether two lists hold the same strings in the same order.
pub fn strings_equal(a: &Vec<String>, b: &Vec<String>) -> (r: bool)
    ensures
        r == (strs_view(a@) == strs_view(b@)),
{
    if a.len() != b.len() {
        proof {
            assert(strs_view(a@).len() != strs_view(b@).len());
        }
        return false;
    }
    let mut i: usize = 0;
    while i < a.len()
        invariant
            i <= a@.len(),
            a@.len() == b@.len(),
            forall|k: int| 0 <= k < i ==> #[trigger] strs_view(a@)[k] == strs_view(b@)[k],
        decreases a@.len() - i,
    {
        if !str_eq(a[i].as_str(), b[i].as_str()) {
            proof {
                assert(strs_view(a@)[i as int] != strs_view(b@)[i as int]);
            }
            return false;
        }
        i = i + 1;
    }
    proof {
        assert(strs_view(a@) =~= strs_view(b@));
    }
    true
}

/// Whether the list holds the string.
pub fn str_in(list: &Vec<String>, s: &str) -> (r: bool)
    ensures
        r == strs_view(list@).contains(s@),
{
    let mut i: usize = 0;
    while i < list.len()
        invariant
            i <= list@.len(),
            forall|k: int| 0 <= k < i ==> #[trigger] strs_view(list@)[k] != s@,
        decreases list@.len() - i,
    {
        if str_eq(list[i].as_str(), s) {
            proof {
                assert(strs_view(list@)[i as int] == s@);
            }
            return true;
        }
        i = i + 1;
    }
    false
}

/// Whether every target names one of the keys.
#[verifier::loop_isolation(false)]
fn targets_name_keys(targets: &Vec<Json>, keys: &Vec<String>) -> (r: bool)
    ensures
        r == targets_within(items_view(targets@), strs_view(keys@)),
{
    proof {
        lemma_items(targets@, targets@.len());
    }
    let mut i: usize = 0;
    while i < targets.len()
        invariant
            i <= targets@.len(),
            forall|k: int| 0 <= k < i ==> (crate::json::at(#[trigger] items_view(targets@)[k], "package"@) matches JsonV::Str(p)
                && strs_view(keys@).contains(p)),
        decreases targets@.len() - i,
    {
        proof {
            assert(items_view(targets@)[i as int] == targets@[i as int]@);
        }
        let named = match targets[i].get("package") {
            Some(p) => match p.as_str() {
                Some(name) => str_in(keys, name),
                None => false,
            },
            None => false,
        };
        if !named {
            return false;
        }
        i = i + 1;
    }
    true
}

/// The array under `field`, failing with the given message.
fn array_or<'a>(object: &'a Vec<(String, Json)>, field: &str, message: &str) -> (r: Result<&'a Vec<Json>, ActionError>)
    ensures
        r is Ok <==> arr_at(entries_view(object@), field@) is Some,
        r matches Ok(a) ==> arr_at(entries_view(object@), field@) == Some(items_view(a@)),
        r matches Err(e) ==> e.kind == ErrorKind::Rejected,
{
    match entry(object, field) {
        Some(value) => match value.as_array() {
            Some(a) => Ok(a),
            None => Err(rejection(message)),
        },
        None => Err(rejection(message)),
    }
}

/// A rejection about one work item: `work`, its ID and the suffix.
fn work_rejection(work_id: &str, suffix: &str) -> (e: ActionError)
    ensures
        e.kind == ErrorKind::Rejected,
        e.message@ == "work "@ + work_id@ + suffix@,
{
    ActionError::rejected(crate::text::concat3("work ", work_id, suffix))
}

/// Checks a Cargo selection of the given kind.
pub fn validate_cargo_selection(selection: &Vec<(String, Json)>, kind: &str, work_id: &str) -> (r: Result<(), ActionError>)
    ensures
        r is Ok <==> cargo_selection_ok(entries_view(selection@), kind@),
        r matches Err(e) ==> e.kind == ErrorKind::Rejected,
{
    let packages_kind = str_eq(kind, "packages");
    if !packages_kind && !str_eq(kind, "workspace") {
        return Err(work_rejection(work_id, " has an unknown Cargo selection"));
    }
    let none: [&str; 0] = [];
    proof {
        assert(lits_view(none@) =~= seq![]);
    }
    if packages_kind {
        let keys: [&str; 4] = ["kind", "packages", "cargo_args", "targets"];
        proof {
            assert(lits_view(keys@) =~= seq!["kind"@, "packages"@, "cargo_args"@, "targets"@]);
        }
        exact_keys(selection, &keys, &none, "Cargo selection")?;
    } else {
        let keys: [&str; 3] = ["kind", "cargo_args", "targets"];
        proof {
            assert(lits_view(keys@) =~= seq!["kind"@, "cargo_args"@, "targets"@]);
        }
        exact_keys(selection, &keys, &none, "Cargo selection")?;
    }
    let cargo_args = field_list(selection, "cargo_args", "Cargo argv", false, false)?;
    let targets = array_or(selection, "targets", "Cargo targets must be an array")?;
    validate_cargo_targets(targets)?;
    if packages_kind {
        let packages = array_or(selection, "packages", "packages must not be empty");
        let packages = match packages {
            Ok(p) => if p.len() > 0 {
                p
            } else {
                proof {
                    lemma_items(p@, p@.len());
                }
                return Err(work_rejection(work_id, " packages must not be empty"));
            },
            Err(_) => return Err(work_rejection(work_id, " packages must not be empty")),
        };
        proof {
            lemma_items(packages@, packages@.len());
        }
        let (keys, expected_args) = validate_package_selectors(packages)?;
        if !sorted_strictly(&keys) {
            return Err(work_rejection(work_id, " packages are not canonical"));
        }
        if !strings_equal(&cargo_args, &expected_args) {
            return Err(work_rejection(work_id, " Cargo argv disagrees with typed packages"));
        }
        if !targets_name_keys(targets, &keys) {
            return Err(work_rejection(work_id, " target references an unselected package"));
        }
    } else {
        require(cargo_args.len() == 0 && targets.len() == 0, "workspace selection must not carry narrowing selectors")?;
        proof {
            lemma_items(targets@, targets@.len());
        }
    }
    Ok(())
}

/// Checks every selected variant of a list.
#[verifier::loop_isolation(false)]
fn validate_variants(items: &Vec<Json>) -> (r: Result<(), ActionError>)
    ensures
        r is Ok <==> all_variants(items_view(items@)),
        r matches Err(e) ==> e.kind == ErrorKind::Rejected,
{
    proof {
        lemma_items(items@, items@.len());
    }
    let required: [&str; 2] = ["id", "dimensions"];
    let none: [&str; 0] = [];
    proof {
        assert(lits_view(required@) =~= seq!["id"@, "dimensions"@]);
        assert(lits_view(none@) =~= seq![]);
    }
    let mut i: usize = 0;
    while i < items.len()
        invariant
            i <= items@.len(),
            forall|k: int| 0 <= k < i ==> variant_ok(#[trigger] items_view(items@)[k]),
        decreases items@.len() - i,
    {
        proof {
            assert(items_view(items@)[i as int] == items@[i as int]@);
        }
        let variant = match items[i].as_object() {
            Some(v) => v,
            None => return Err(rejection("variant must be an object")),
        };
        exact_keys(variant, &required, &none, "variant")?;
        let id = required_string(variant, "id", "variant")?;
        require(valid_id(id), "variant ID is malformed")?;
        let dimensions = crate::validation::object_field(variant, "dimensions", "variant")?;
        proof {
            lemma_entries(dimensions@, dimensions@.len());
        }
        let mut k: usize = 0;
        while k < dimensions.len()
            invariant
                k <= dimensions@.len(),
                forall|m: int| 0 <= m < k ==> dimension_value_ok((#[trigger] entries_view(dimensions@)[m]).1),
            decreases dimensions@.len() - k,
        {
            proof {
                assert(entries_view(dimensions@)[k as int].1 == dimensions@[k as int].1@);
            }
            let scalar = match &dimensions[k].1 {
                Json::Str(_) => true,
                Json::Bool(_) => true,
                Json::UInt(_) => true,
                Json::NegInt(_) => true,
                _ => false,
            };
            if !scalar {
                return Err(rejection("variant dimensions are malformed"));
            }
            k = k + 1;
        }
        i = i + 1;
    }
    Ok(())
}

/// Checks a variant selection of the given kind and its evidence.
pub fn validate_variant_selection(selection: &Vec<(String, Json)>, kind: &str, work_id: &str,
    evidence: &Vec<(String, Json)>, references: &Vec<String>) -> (r: Result<(), ActionError>)
    ensures
        r is Ok <==> variant_selection_ok(entries_view(selection@), kind@, work_id@, entries_view(evidence@),
            strs_view(references@)),
        r matches Err(e) ==> e.kind == ErrorKind::Rejected,
{
    let all = str_eq(kind, "all");
    if !all && !str_eq(kind, "selected") {
        return Err(work_rejection(work_id, " has an unknown variant selection"));
    }
    let none: [&str; 0] = [];
    proof {
        assert(lits_view(none@) =~= seq![]);
    }
    if all {
        let keys: [&str; 2] = ["kind", "evidence"];
        proof {
            assert(lits_view(keys@) =~= seq!["kind"@, "evidence"@]);
        }
        exact_keys(selection, &keys, &none, "all-variant selection")?;
    } else {
        let keys: [&str; 3] = ["kind", "variants", "evidence"];
        proof {
            assert(lits_view(keys@) =~= seq!["kind"@, "variants"@, "evidence"@]);
        }
        exact_keys(selection, &keys, &none, "selected-variant selection")?;
        let variants = match array_or(selection, "variants", "selected variants must not be empty") {
            Ok(v) => v,
            Err(_) => return Err(work_rejection(work_id, " selected variants must not be empty")),
        };
        proof {
            lemma_items(variants@, variants@.len());
        }
        if variants.len() == 0 {
            return Err(work_rejection(work_id, " selected variants must not be empty"));
        }
        validate_variants(variants)?;
    }
    let reference = required_string(selection, "evidence", "variant selection")?;
    let record = match entry(evidence, reference) {
        Some(v) => match v.as_object() {
            Some(r) => r,
            None => return Err(work_rejection(work_id, " variant evidence is unknown")),
        },
        None => return Err(work_rejection(work_id, " variant evidence is unknown")),
    };
    require(str_in(references, reference), "variant evidence is absent from its decision")?;
    require(field_is(record, "subject", work_id), "variant evidence belongs to another work item")
}

/// Checks the scope of required work.
pub fn validate_selection(scope: &Vec<(String, Json)>, work_id: &str, evidence: &Vec<(String, Json)>,
    references: &Vec<String>) -> (r: Result<(), ActionError>)
    ensures
        r is Ok <==> selection_ok(entries_view(scope@), work_id@, entries_view(evidence@), strs_view(references@)),
        r matches Err(e) ==> e.kind == ErrorKind::Rejected,
        str_at(entries_view(scope@), "kind"@) is None ==> (r matches Err(e) && e.message@
            == "work scope.kind is missing or invalid"@),
        str_at(entries_view(scope@), "kind"@) matches Some(k) && k != "repository"@ && k != "cargo"@ && k
            != "variants"@ ==> (r matches Err(e) && e.message@ == "work "@ + work_id@ + " has an unknown scope kind"@),
        str_at(entries_view(scope@), "kind"@) == Some("repository"@) && !keys_exact(entries_view(scope@), seq!["kind"@],
            seq![]) ==> (r matches Err(e) && crate::validation::keys_message(
            entries_view(scope@),
            seq!["kind"@],
            seq![],
            "work "@ + work_id@ + " repository scope"@,
            e.message@,
        )),
        (str_at(entries_view(scope@), "kind"@) == Some("cargo"@) || str_at(entries_view(scope@), "kind"@) == Some(
            "variants"@,
        )) && !keys_exact(entries_view(scope@), seq!["kind"@, "selection"@], seq![]) ==> (r matches Err(e)
            && crate::validation::keys_message(
            entries_view(scope@),
            seq!["kind"@, "selection"@],
            seq![],
            "work "@ + work_id@ + " scope"@,
            e.message@,
        )),
{
    proof {
        reveal_strlit("work scope");
        reveal_strlit("kind");
        reveal_strlit(" is missing or invalid");
        reveal_strlit("work scope.kind is missing or invalid");
        reveal_strlit("repository");
        reveal_strlit("cargo");
        reveal_strlit("variants");
        assert("repository"@ != "cargo"@ && "repository"@ != "variants"@) by {
            assert("repository"@[0] != "cargo"@[0]);
            assert("repository"@[0] != "variants"@[0]);
        }
        assert("work scope"@ + seq!['.'] + "kind"@ + " is missing or invalid"@ =~= "work scope.kind is missing or invalid"@);
    }
    let kind = required_string(scope, "kind", "work scope")?;
    let none: [&str; 0] = [];
    proof {
        assert(lits_view(none@) =~= seq![]);
    }
    if str_eq(kind, "repository") {
        let keys: [&str; 1] = ["kind"];
        proof {
            assert(lits_view(keys@) =~= seq!["kind"@]);
        }
        let subject = crate::text::concat3("work ", work_id, " repository scope");
        return exact_keys(scope, &keys, &none, subject.as_str());
    }
    let cargo = str_eq(kind, "cargo");
    if !cargo && !str_eq(kind, "variants") {
        return Err(work_rejection(work_id, " has an unknown scope kind"));
    }
    let keys: [&str; 2] = ["kind", "selection"];
    proof {
        assert(lits_view(keys@) =~= seq!["kind"@, "selection"@]);
    }
    let subject = crate::text::concat3("work ", work_id, " scope");
    exact_keys(scope, &keys, &none, subject.as_str())?;
    let selection = crate::validation::object_field(scope, "selection", "work scope")?;
    let selection_kind = required_string(selection, "kind", "work selection")?;
    if cargo {
        validate_cargo_selection(selection, selection_kind, work_id)
    } else {
        validate_variant_selection(selection, selection_kind, work_id, evidence, references)
    }
}

/// Every cited evidence record exists and is about the given work.
pub open spec fn refs_owned(references: Seq<Seq<char>>, evidence: Seq<(Seq<char>, JsonV)>, work_id: Seq<char>) -> bool {
    forall|i: int| 0 <= i < references.len() ==> (obj_at(evidence, #[trigger] references[i]) matches Some(record)
        && val_at(record, "subject"@) == JsonV::Str(work_id))
}

/// The completeness of the evidence under `reference`, as `evidence[reference]["complete"]` reads it.
pub open spec fn completeness(evidence: Seq<(Seq<char>, JsonV)>, reference: Seq<char>) -> JsonV {
    crate::json::at(val_at(evidence, reference), "complete"@)
}

/// Some cited evidence is incomplete.
pub open spec fn any_incomplete(references: Seq<Seq<char>>, evidence: Seq<(Seq<char>, JsonV)>) -> bool {
    exists|i: int| 0 <= i < references.len() && completeness(evidence, #[trigger] references[i]) == JsonV::Bool(false)
}

/// All cited evidence is complete.
pub open spec fn all_complete(references: Seq<Seq<char>>, evidence: Seq<(Seq<char>, JsonV)>) -> bool {
    forall|i: int| 0 <= i < references.len() ==> completeness(evidence, #[trigger] references[i]) == JsonV::Bool(true)
}

/// A required decision: a known cause, a valid scope, and incomplete evidence behind an
/// incomplete-evidence cause.
pub open spec fn required_decision_ok(d: Seq<(Seq<char>, JsonV)>, work_id: Seq<char>, evidence: Seq<(Seq<char>, JsonV)>,
    references: Seq<Seq<char>>) -> bool {
    str_at(d, "cause"@) matches Some(cause) && {
        &&& seq!["changed_input"@, "incomplete_evidence"@, "forced_all"@].contains(cause)
        &&& obj_at(d, "scope"@) matches Some(scope) && selection_ok(scope, work_id, evidence, references)
        &&& cause == "incomplete_evidence"@ ==> any_incomplete(references, evidence)
    }
}

/// The fields of a decision in the given state.
pub open spec fn decision_keys(state: Seq<char>) -> Seq<Seq<char>> {
    if state == "required"@ {
        seq!["state"@, "cause"@, "scope"@, "evidence"@]
    } else {
        seq!["state"@, "evidence"@]
    }
}

/// A work decision: a narrow ID, a state of `required` or `skipped`, its own non-empty unique
/// evidence, a valid required decision, and only complete evidence behind a skip.
pub open spec fn decision_ok(work_id: Seq<char>, v: JsonV, evidence: Seq<(Seq<char>, JsonV)>) -> bool {
    &&& spec_valid_id(work_id)
    &&& v matches JsonV::Object(d) && str_at(d, "state"@) matches Some(state) && {
        &&& state == "required"@ || state == "skipped"@
        &&& keys_exact(d, decision_keys(state), seq![])
        &&& string_list_ok(val_at(d, "evidence"@), true, true)
        &&& refs_owned(strings_of(val_at(d, "evidence"@))->0, evidence, work_id)
        &&& if state == "required"@ {
                required_decision_ok(d, work_id, evidence, strings_of(val_at(d, "evidence"@))->0)
            } else {
                all_complete(strings_of(val_at(d, "evidence"@))->0, evidence)
            }
    }
}

/// Whether the evidence under `reference` has the given completeness.
fn completeness_is(evidence: &Vec<(String, Json)>, reference: &str, expected: bool) -> (r: bool)
    ensures
        r == (completeness(entries_view(evidence@), reference@) == JsonV::Bool(expected)),
{
    match entry(evidence, reference) {
        Some(record) => match record.get("complete") {
            Some(c) => match c.as_bool() {
                Some(b) => b == expected,
                None => false,
            },
            None => false,
        },
        None => false,
    }
}

/// Checks one work decision and tells whether the work is required.
#[verifier::loop_isolation(false)]
pub fn validate_decision(work_id: &str, value: &Json, evidence: &Vec<(String, Json)>) -> (r: Result<bool, ActionError>)
    ensures
        r is Ok <==> decision_ok(work_id@, value@, entries_view(evidence@)),
        r matches Ok(required) ==> required == (crate::json::at(value@, "state"@) == JsonV::Str("required"@)),
        r matches Err(e) ==> e.kind == ErrorKind::Rejected,
{
    require(valid_id(work_id), "plan work ID is malformed")?;
    let decision = match value.as_object() {
        Some(d) => d,
        None => return Err(work_rejection(work_id, " decision must be an object")),
    };
    let subject = crate::text::concat("work ", work_id);
    let state = required_string(decision, "state", subject.as_str())?;
    let required = str_eq(state, "required");
    if !required && !str_eq(state, "skipped") {
        return Err(work_rejection(work_id, " has an invalid state"));
    }
    let none: [&str; 0] = [];
    proof {
        assert(lits_view(none@) =~= seq![]);
    }
    let mut kind_subject = owned_str(state);
    crate::text::push_str(&mut kind_subject, " work ");
    crate::text::push_str(&mut kind_subject, work_id);
    if required {
        let keys: [&str; 4] = ["state", "cause", "scope", "evidence"];
        proof {
            assert(lits_view(keys@) =~= decision_keys(state@));
        }
        exact_keys(decision, &keys, &none, kind_subject.as_str())?;
    } else {
        let keys: [&str; 2] = ["state", "evidence"];
        proof {
            assert(lits_view(keys@) =~= decision_keys(state@));
        }
        exact_keys(decision, &keys, &none, kind_subject.as_str())?;
    }
    let references = field_list(decision, "evidence", "work evidence", true, true)?;
    let ghost refs = strs_view(references@);
    let mut i: usize = 0;
    while i < references.len()
        invariant
            i <= references@.len(),
            refs == strs_view(references@),
            forall|k: int| 0 <= k < i ==> (obj_at(entries_view(evidence@), #[trigger] refs[k]) matches Some(record)
                && val_at(record, "subject"@) == JsonV::Str(work_id@)),
        decreases references@.len() - i,
    {
        proof {
            assert(refs[i as int] == references@[i as int]@);
        }
        let record = match entry(evidence, references[i].as_str()) {
            Some(v) => match v.as_object() {
                Some(r) => r,
                None => return Err(work_rejection(work_id, " references unknown evidence")),
            },
            None => return Err(work_rejection(work_id, " references unknown evidence")),
        };
        if !field_is(record, "subject", work_id) {
            return Err(work_rejection(work_id, " references another work item's evidence"));
        }
        i = i + 1;
    }
    if required {
        let cause = required_string(decision, "cause", subject.as_str())?;
        let causes: [&str; 3] = ["changed_input", "incomplete_evidence", "forced_all"];
        proof {
            assert(lits_view(causes@) =~= seq!["changed_input"@, "incomplete_evidence"@, "forced_all"@]);
        }
        if !crate::validation::lit_in(&causes, cause) {
            return Err(work_rejection(work_id, " cause is malformed"));
        }
        let scope = crate::validation::object_field(decision, "scope", subject.as_str())?;
        validate_selection(scope, work_id, evidence, &references)?;
        if str_eq(cause, "incomplete_evidence") {
            let mut j: usize = 0;
            let mut found = false;
            while j < references.len()
                invariant
                    j <= references@.len(),
                    refs == strs_view(references@),
                    found ==> any_incomplete(refs, entries_view(evidence@)),
                    !found ==> forall|k: int| 0 <= k < j ==> completeness(entries_view(evidence@), #[trigger] refs[k])
                        != JsonV::Bool(false),
                decreases references@.len() - j,
            {
                proof {
                    assert(refs[j as int] == references@[j as int]@);
                }
                if completeness_is(evidence, references[j].as_str(), false) {
                    found = true;
                }
                j = j + 1;
            }
            if !found {
                return Err(work_rejection(work_id, " incomplete decision has no incomplete evidence"));
            }
        }
    } else {
        let mut j: usize = 0;
        while j < references.len()
            invariant
                j <= references@.len(),
                refs == strs_view(references@),
                forall|k: int| 0 <= k < j ==> completeness(entries_view(evidence@), #[trigger] refs[k]) == JsonV::Bool(true),
            decreases references@.len() - j,
        {
            proof {
                assert(refs[j as int] == references@[j as int]@);
            }
            if !completeness_is(evidence, references[j].as_str(), true) {
                return Err(ActionError::rejected(crate::text::concat3("skipped work ", work_id,
                    " cites incomplete evidence")));
            }
            j = j + 1;
        }
    }
    Ok(required)
}

/// An owned copy of a string slice.
fn owned_str(s: &str) -> (r: String)
    ensures
        r@ == s@,
{
    s.to_owned()
}

/// The kinds of attribution input.
pub open spec fn input_kinds() -> Seq<Seq<char>> {
    seq!["path"@, "configuration"@, "package"@, "dependency"@, "work"@, "prerequisite"@]
}

/// An attribution input: a known kind and a non-empty value; a `work` input names required work.
pub open spec fn attribution_input_ok(v: JsonV, work: Seq<(Seq<char>, JsonV)>) -> bool {
    v matches JsonV::Object(i) && {
        &&& keys_exact(i, seq!["kind"@, "value"@], seq![])
        &&& str_at(i, "kind"@) matches Some(k) && input_kinds().contains(k)
        &&& str_at(i, "value"@) matches Some(x) && x.len() > 0
        &&& text_under(v, "kind"@) == "work"@ ==> (crate::json::find(work, text_under(v, "value"@)) matches Some(item)
            && crate::json::at(item, "state"@) == JsonV::Str("required"@))
    }
}

pub open spec fn all_attribution_inputs(a: Seq<JsonV>, work: Seq<(Seq<char>, JsonV)>) -> bool {
    forall|i: int| 0 <= i < a.len() ==> attribution_input_ok(#[trigger] a[i], work)
}

/// No two inputs have the same kind and value.
pub open spec fn inputs_distinct(a: Seq<JsonV>) -> bool {
    forall|i: int, j: int| 0 <= i < j < a.len() ==> (text_under(#[trigger] a[i], "kind"@), text_under(a[i], "value"@))
        != (text_under(#[trigger] a[j], "kind"@), text_under(a[j], "value"@))
}

/// A selection attribution: a subject, a known relation, and an origin exactly for dependencies.
pub open spec fn selection_attribution_ok(v: JsonV) -> bool {
    v matches JsonV::Object(s) && {
        &&& keys_exact(s, seq!["subject"@, "relation"@, "origin"@], seq![])
        &&& str_at(s, "subject"@) matches Some(x) && x.len() > 0
        &&& str_at(s, "relation"@) matches Some(r) && seq!["direct"@, "dependency"@, "unattributed"@].contains(r)
        &&& if text_under(v, "relation"@) == "dependency"@ {
                str_at(s, "origin"@) matches Some(o) && o.len() > 0 && o != text_under(v, "subject"@)
            } else {
                val_at(s, "origin"@) is Null
            }
    }
}

pub open spec fn all_selection_attributions(a: Seq<JsonV>) -> bool {
    forall|i: int| 0 <= i < a.len() ==> selection_attribution_ok(#[trigger] a[i])
}

/// Every value has a string under `key`.
pub open spec fn all_have_text(a: Seq<JsonV>, key: Seq<char>) -> bool {
    forall|i: int| 0 <= i < a.len() ==> crate::json::at(#[trigger] a[i], key) is Str
}

/// The subjects that the attribution of a decision must cover: its package keys, its selected
/// variant IDs, or none; `None` where one of them is not a string.
pub open spec fn expected_subjects(decision: JsonV) -> Option<Seq<Seq<char>>> {
    let sel = crate::json::at(crate::json::at(decision, "scope"@), "selection"@);
    match crate::json::at(sel, "packages"@) {
        JsonV::Array(pk) => if all_have_text(pk, "key"@) {
            Some(texts_under(pk, "key"@))
        } else {
            None
        },
        _ => match crate::json::at(sel, "variants"@) {
            JsonV::Array(vs) => if all_have_text(vs, "id"@) {
                Some(texts_under(vs, "id"@))
            } else {
                None
            },
            _ => Some(seq![]),
        },
    }
}

/// The two lists hold the same strings, as sets.
pub open spec fn same_elements(a: Seq<Seq<char>>, b: Seq<Seq<char>>) -> bool {
    forall|x: Seq<char>| a.contains(x) <==> b.contains(x)
}

/// The attribution of one required work item.
pub open spec fn attribution_report_ok(id: Seq<char>, v: JsonV, work: Seq<(Seq<char>, JsonV)>) -> bool {
    v matches JsonV::Object(r) && {
        &&& keys_exact(r, seq!["inputs"@, "selections"@], seq![])
        &&& arr_at(r, "inputs"@) matches Some(ins) && all_attribution_inputs(ins, work) && inputs_distinct(ins)
        &&& crate::json::find(work, id) matches Some(decision) && expected_subjects(decision) matches Some(expected)
            && arr_at(r, "selections"@) matches Some(sels) && all_selection_attributions(sels)
            && strictly_sorted(texts_under(sels, "subject"@)) && crate::validation::distinct(texts_under(sels, "subject"@))
            && same_elements(texts_under(sels, "subject"@), expected)
    }
}

/// The keys of an object, in order.
pub open spec fn entry_keys(e: Seq<(Seq<char>, JsonV)>) -> Seq<Seq<char>> {
    e.map_values(|p: (Seq<char>, JsonV)| p.0)
}

pub open spec fn all_reports(attribution: Seq<(Seq<char>, JsonV)>, work: Seq<(Seq<char>, JsonV)>) -> bool {
    forall|i: int| 0 <= i < attribution.len() ==> attribution_report_ok((#[trigger] attribution[i]).0, attribution[i].1, work)
}

/// The attribution covers exactly the required work, in order, and each report is well formed.
pub open spec fn attribution_ok(plan: Seq<(Seq<char>, JsonV)>) -> bool {
    obj_at(plan, "attribution"@) matches Some(attribution) && obj_at(plan, "work"@) matches Some(work) && {
        &&& string_list_ok(val_at(plan, "required"@), false, true)
        &&& entry_keys(attribution) == strings_of(val_at(plan, "required"@))->0
        &&& all_reports(attribution, work)
    }
}

/// The value under `key`, or `null` when there is none, as `value[key]` reads it.
pub fn at_key<'a>(value: &'a Json, key: &str, null: &'a Json) -> (r: &'a Json)
    requires
        null@ == JsonV::Null,
    ensures
        r@ == crate::json::at(value@, key@),
{
    match value.get(key) {
        Some(v) => v,
        None => null,
    }
}

/// Checks the inputs of one attribution report.
#[verifier::loop_isolation(false)]
fn validate_attribution_inputs(inputs: &Vec<Json>, work: &Vec<(String, Json)>) -> (r: Result<(), ActionError>)
    ensures
        r is Ok <==> all_attribution_inputs(items_view(inputs@), entries_view(work@)) && inputs_distinct(items_view(inputs@)),
        r matches Err(e) ==> e.kind == ErrorKind::Rejected,
{
    proof {
        lemma_items(inputs@, inputs@.len());
    }
    let ghost iv = items_view(inputs@);
    let required: [&str; 2] = ["kind", "value"];
    let none: [&str; 0] = [];
    let kinds: [&str; 6] = ["path", "configuration", "package", "dependency", "work", "prerequisite"];
    proof {
        assert(lits_view(required@) =~= seq!["kind"@, "value"@]);
        assert(lits_view(none@) =~= seq![]);
        assert(lits_view(kinds@) =~= input_kinds());
    }
    let mut pairs: Vec<(&str, &str)> = Vec::new();
    let mut i: usize = 0;
    while i < inputs.len()
        invariant
            i <= inputs@.len(),
            iv == items_view(inputs@),
            pairs@.len() == i,
            forall|k: int| 0 <= k < i ==> attribution_input_ok(#[trigger] iv[k], entries_view(work@)),
            forall|k: int| 0 <= k < i ==> (#[trigger] pairs@[k]).0@ == text_under(iv[k], "kind"@)
                && pairs@[k].1@ == text_under(iv[k], "value"@),
        decreases inputs@.len() - i,
    {
        proof {
            assert(iv[i as int] == inputs@[i as int]@);
        }
        let input = match inputs[i].as_object() {
            Some(o) => o,
            None => return Err(rejection("attribution input must be an object")),
        };
        exact_keys(input, &required, &none, "attribution input")?;
        let kind = required_string(input, "kind", "attribution input")?;
        let value = required_string(input, "value", "attribution input")?;
        if !crate::validation::lit_in(&kinds, kind) {
            return Err(rejection("unknown attribution input kind"));
        }
        if value.is_empty() {
            return Err(rejection("attribution input is empty or duplicated"));
        }
        if str_eq(kind, "work") {
            let null = Json::Null;
            let named = match entry(work, value) {
                Some(item) => {
                    let state = at_key(item, "state", &null);
                    match state.as_str() {
                        Some(s) => str_eq(s, "required"),
                        None => false,
                    }
                },
                None => false,
            };
            if !named {
                return Err(rejection("attribution references non-required work"));
            }
        }
        pairs.push((kind, value));
        i = i + 1;
    }
    let mut a: usize = 0;
    while a < pairs.len()
        invariant
            pairs@.len() == iv.len(),
            a <= pairs@.len(),
            forall|k: int| 0 <= k < iv.len() ==> (#[trigger] pairs@[k]).0@ == text_under(iv[k], "kind"@)
                && pairs@[k].1@ == text_under(iv[k], "value"@),
            forall|x: int, y: int| 0 <= x < y < iv.len() && x < a ==> (text_under(#[trigger] iv[x], "kind"@),
                text_under(iv[x], "value"@)) != (text_under(#[trigger] iv[y], "kind"@), text_under(iv[y], "value"@)),
        decreases pairs@.len() - a,
    {
        let mut b: usize = a + 1;
        while b < pairs.len()
            invariant
                pairs@.len() == iv.len(),
                a < pairs@.len(),
                a + 1 <= b <= pairs@.len(),
                forall|k: int| 0 <= k < iv.len() ==> (#[trigger] pairs@[k]).0@ == text_under(iv[k], "kind"@)
                    && pairs@[k].1@ == text_under(iv[k], "value"@),
                forall|x: int, y: int| 0 <= x < y < iv.len() && x < a ==> (text_under(#[trigger] iv[x], "kind"@),
                    text_under(iv[x], "value"@)) != (text_under(#[trigger] iv[y], "kind"@), text_under(iv[y], "value"@)),
                forall|y: int| a < y < b ==> (text_under(iv[a as int], "kind"@), text_under(iv[a as int], "value"@))
                    != (text_under(#[trigger] iv[y], "kind"@), text_under(iv[y], "value"@)),
            decreases pairs@.len() - b,
        {
            let same = str_eq(pairs[a].0, pairs[b].0) && str_eq(pairs[a].1, pairs[b].1);
            proof {
                assert(pairs@[a as int].0@ == text_under(iv[a as int], "kind"@));
                assert(pairs@[b as int].0@ == text_under(iv[b as int], "kind"@));
            }
            if same {
                return Err(rejection("attribution input is empty or duplicated"));
            }
            b = b + 1;
        }
        a = a + 1;
    }
    Ok(())
}

/// The strings under `key` of each item, or `None` where one is not a string.
#[verifier::loop_isolation(false)]
fn texts_of(items: &Vec<Json>, key: &str) -> (r: Option<Vec<String>>)
    ensures
        r is Some <==> all_have_text(items_view(items@), key@),
        r matches Some(v) ==> strs_view(v@) == texts_under(items_view(items@), key@),
{
    proof {
        lemma_items(items@, items@.len());
    }
    let ghost iv = items_view(items@);
    let null = Json::Null;
    let mut out: Vec<String> = Vec::new();
    let mut i: usize = 0;
    while i < items.len()
        invariant
            i <= items@.len(),
            iv == items_view(items@),
            out@.len() == i,
            forall|k: int| 0 <= k < i ==> crate::json::at(#[trigger] iv[k], key@) is Str,
            forall|k: int| 0 <= k < i ==> #[trigger] out@[k]@ == text_under(iv[k], key@),
        decreases items@.len() - i,
    {
        proof {
            assert(iv[i as int] == items@[i as int]@);
        }
        match at_key(&items[i], key, &null).as_str() {
            Some(s) => out.push(s.to_owned()),
            None => return None,
        }
        i = i + 1;
    }
    proof {
        assert(strs_view(out@) =~= texts_under(iv, key@));
    }
    Some(out)
}

/// The subjects that the attribution of a decision must cover.
pub fn expected_subject_list(decision: &Json) -> (r: Option<Vec<String>>)
    ensures
        r is Some <==> expected_subjects(decision@) is Some,
        r matches Some(v) ==> Some(strs_view(v@)) == expected_subjects(decision@),
{
    let null = Json::Null;
    let scope = at_key(decision, "scope", &null);
    let selection = at_key(scope, "selection", &null);
    match at_key(selection, "packages", &null).as_array() {
        Some(packages) => texts_of(packages, "key"),
        None => match at_key(selection, "variants", &null).as_array() {
            Some(variants) => texts_of(variants, "id"),
            None => {
                let empty: Vec<String> = Vec::new();
                proof {
                    assert(strs_view(empty@) =~= seq![]);
                }
                Some(empty)
            },
        },
    }
}

/// Checks the selection attributions of one report and returns their subjects.
#[verifier::loop_isolation(false)]
fn validate_selection_attributions(selections: &Vec<Json>) -> (r: Result<Vec<String>, ActionError>)
    ensures
        r is Ok <==> all_selection_attributions(items_view(selections@)),
        r matches Ok(v) ==> strs_view(v@) == texts_under(items_view(selections@), "subject"@),
        r matches Err(e) ==> e.kind == ErrorKind::Rejected,
{
    proof {
        lemma_items(selections@, selections@.len());
    }
    let ghost iv = items_view(selections@);
    let required: [&str; 3] = ["subject", "relation", "origin"];
    let none: [&str; 0] = [];
    let relations: [&str; 3] = ["direct", "dependency", "unattributed"];
    proof {
        assert(lits_view(required@) =~= seq!["subject"@, "relation"@, "origin"@]);
        assert(lits_view(none@) =~= seq![]);
        assert(lits_view(relations@) =~= seq!["direct"@, "dependency"@, "unattributed"@]);
    }
    let mut subjects: Vec<String> = Vec::new();
    let mut i: usize = 0;
    while i < selections.len()
        invariant
            i <= selections@.len(),
            iv == items_view(selections@),
            subjects@.len() == i,
            forall|k: int| 0 <= k < i ==> selection_attribution_ok(#[trigger] iv[k]),
            forall|k: int| 0 <= k < i ==> #[trigger] subjects@[k]@ == text_under(iv[k], "subject"@),
        decreases selections@.len() - i,
    {
        proof {
            assert(iv[i as int] == selections@[i as int]@);
        }
        let selection = match selections[i].as_object() {
            Some(o) => o,
            None => return Err(rejection("selection attribution must be an object")),
        };
        exact_keys(selection, &required, &none, "selection attribution")?;
        let subject = required_string(selection, "subject", "selection attribution")?;
        let relation = required_string(selection, "relation", "selection attribution")?;
        if !crate::validation::lit_in(&relations, relation) {
            return Err(rejection("unknown selection relation"));
        }
        if subject.is_empty() {
            return Err(rejection("selection attribution must be unique and sorted"));
        }
        if str_eq(relation, "dependency") {
            let origin = required_string(selection, "origin", "selection attribution")?;
            if origin.is_empty() || str_eq(origin, subject) {
                return Err(rejection("dependency attribution requires a distinct origin"));
            }
        } else {
            let null = match entry(selection, "origin") {
                Some(v) => v.is_null(),
                None => true,
            };
            if !null {
                return Err(rejection("only dependency attribution can name an origin"));
            }
        }
        subjects.push(subject.to_owned());
        i = i + 1;
    }
    proof {
        assert(strs_view(subjects@) =~= texts_under(iv, "subject"@));
    }
    Ok(subjects)
}

/// Whether two lists hold the same strings, as sets.
fn same_strings(a: &Vec<String>, b: &Vec<String>) -> (r: bool)
    ensures
        r == same_elements(strs_view(a@), strs_view(b@)),
{
    let mut i: usize = 0;
    while i < a.len()
        invariant
            i <= a@.len(),
            forall|k: int| 0 <= k < i ==> strs_view(b@).contains(#[trigger] strs_view(a@)[k]),
        decreases a@.len() - i,
    {
        if !str_in(b, a[i].as_str()) {
            proof {
                assert(strs_view(a@)[i as int] == a@[i as int]@);
                assert(strs_view(a@).contains(strs_view(a@)[i as int]));
            }
            return false;
        }
        proof {
            assert(strs_view(a@)[i as int] == a@[i as int]@);
        }
        i = i + 1;
    }
    let mut j: usize = 0;
    while j < b.len()
        invariant
            j <= b@.len(),
            forall|k: int| 0 <= k < a@.len() ==> strs_view(b@).contains(#[trigger] strs_view(a@)[k]),
            forall|k: int| 0 <= k < j ==> strs_view(a@).contains(#[trigger] strs_view(b@)[k]),
        decreases b@.len() - j,
    {
        if !str_in(a, b[j].as_str()) {
            proof {
                assert(strs_view(b@)[j as int] == b@[j as int]@);
                assert(strs_view(b@).contains(strs_view(b@)[j as int]));
            }
            return false;
        }
        proof {
            assert(strs_view(b@)[j as int] == b@[j as int]@);
        }
        j = j + 1;
    }
    proof {
        assert forall|x: Seq<char>| strs_view(a@).contains(x) <==> strs_view(b@).contains(x) by {
            if strs_view(a@).contains(x) {
                let k = choose|k: int| 0 <= k < strs_view(a@).len() && strs_view(a@)[k] == x;
                assert(strs_view(b@).contains(strs_view(a@)[k]));
            }
            if strs_view(b@).contains(x) {
                let k = choose|k: int| 0 <= k < strs_view(b@).len() && strs_view(b@)[k] == x;
                assert(strs_view(a@).contains(strs_view(b@)[k]));
            }
        }
    }
    true
}

/// Checks the attribution report of one required work item.
pub fn validate_attribution_report(id: &str, report: &Json, work: &Vec<(String, Json)>) -> (r: Result<(), ActionError>)
    ensures
        r is Ok <==> attribution_report_ok(id@, report@, entries_view(work@)),
        r matches Err(e) ==> e.kind == ErrorKind::Rejected,
{
    let report = match report.as_object() {
        Some(o) => o,
        None => return Err(rejection("work attribution must be an object")),
    };
    let required: [&str; 2] = ["inputs", "selections"];
    let none: [&str; 0] = [];
    proof {
        assert(lits_view(required@) =~= seq!["inputs"@, "selections"@]);
        assert(lits_view(none@) =~= seq![]);
    }
    exact_keys(report, &required, &none, "work attribution")?;
    let inputs = crate::validation::array_field(report, "inputs", "attribution")?;
    validate_attribution_inputs(inputs, work)?;
    let decision = match entry(work, id) {
        Some(d) => d,
        None => return Err(rejection("attribution references unknown work")),
    };
    let expected = match expected_subject_list(decision) {
        Some(e) => e,
        None => return Err(rejection("attribution scope is malformed")),
    };
    let selections = crate::validation::array_field(report, "selections", "attribution")?;
    let subjects = validate_selection_attributions(selections)?;
    if !sorted_strictly(&subjects) || crate::validation::has_duplicate(&subjects) {
        return Err(rejection("selection attribution must be unique and sorted"));
    }
    require(same_strings(&subjects, &expected), "attribution selections must exactly cover executable scope")
}

/// Checks that the attribution covers exactly the required work and that each report is well formed.
#[verifier::loop_isolation(false)]
pub fn validate_attribution(plan: &Vec<(String, Json)>) -> (r: Result<(), ActionError>)
    ensures
        r is Ok <==> attribution_ok(entries_view(plan@)),
        r matches Err(e) ==> e.kind == ErrorKind::Rejected,
{
    let attribution = crate::validation::object_field(plan, "attribution", "plan")?;
    let work = crate::validation::object_field(plan, "work", "plan")?;
    let required = field_list(plan, "required", "required", false, true)?;
    proof {
        lemma_entries(attribution@, attribution@.len());
    }
    let ghost av = entries_view(attribution@);
    let mut same = attribution.len() == required.len();
    proof {
        assert(entry_keys(av).len() == attribution@.len());
        assert(strs_view(required@).len() == required@.len());
    }
    let mut k: usize = 0;
    while k < attribution.len() && same
        invariant
            k <= attribution@.len(),
            av == entries_view(attribution@),
            same ==> attribution@.len() == required@.len(),
            same ==> forall|m: int| 0 <= m < k ==> #[trigger] av[m].0 == strs_view(required@)[m],
            !same ==> entry_keys(av) != strs_view(required@),
        decreases attribution@.len() - k,
    {
        proof {
            assert(av[k as int].0 == attribution@[k as int].0@);
        }
        if !str_eq(attribution[k].0.as_str(), required[k].as_str()) {
            proof {
                assert(entry_keys(av)[k as int] != strs_view(required@)[k as int]);
            }
            same = false;
        }
        k = k + 1;
    }
    if !same {
        return Err(rejection("plan attribution must cover exactly required work"));
    }
    proof {
        assert(entry_keys(av) =~= strs_view(required@));
    }
    let mut i: usize = 0;
    while i < attribution.len()
        invariant
            i <= attribution@.len(),
            av == entries_view(attribution@),
            forall|m: int| 0 <= m < i ==> attribution_report_ok((#[trigger] av[m]).0, av[m].1, entries_view(work@)),
        decreases attribution@.len() - i,
    {
        proof {
            assert(av[i as int] == (attribution@[i as int].0@, attribution@[i as int].1@));
        }
        validate_attribution_report(attribution[i].0.as_str(), &attribution[i].1, work)?;
        i = i + 1;
    }
    Ok(())
}

/// The top-level keys of a plan.
pub open spec fn plan_keys() -> Seq<Seq<char>> {
    seq!["plan_contract_version"@, "identity"@, "inputs"@, "changes"@, "work"@, "required"@, "evidence"@,
        "attribution"@]
}

/// The IDs of the work decided `required`, in the order of the work map.
pub open spec fn required_ids(work: Seq<(Seq<char>, JsonV)>) -> Seq<Seq<char>>
    decreases work.len(),
{
    if work.len() == 0 {
        seq![]
    } else if crate::json::at(work.last().1, "state"@) == JsonV::Str("required"@) {
        required_ids(work.drop_last()).push(work.last().0)
    } else {
        required_ids(work.drop_last())
    }
}

pub open spec fn all_decisions(work: Seq<(Seq<char>, JsonV)>, evidence: Seq<(Seq<char>, JsonV)>) -> bool {
    forall|i: int| 0 <= i < work.len() ==> decision_ok((#[trigger] work[i]).0, work[i].1, evidence)
}

/// The strings of a list as JSON strings.
pub open spec fn as_json_strings(l: Seq<Seq<char>>) -> Seq<JsonV> {
    l.map_values(|k: Seq<char>| JsonV::Str(k))
}

/// The portable content that a plan identity covers: everything but the identity itself and the
/// human descriptions of evidence, which it names by reference only; keys in JSON object order.
pub open spec fn portable_plan(p: Seq<(Seq<char>, JsonV)>) -> JsonV {
    JsonV::Object(seq![
        ("attribution"@, val_at(p, "attribution"@)),
        ("changes"@, val_at(p, "changes"@)),
        ("evidence"@, JsonV::Array(as_json_strings(entry_keys(obj_at(p, "evidence"@)->0)))),
        ("inputs"@, val_at(p, "inputs"@)),
        ("plan_contract_version"@, val_at(p, "plan_contract_version"@)),
        ("required"@, val_at(p, "required"@)),
        ("work"@, val_at(p, "work"@)),
    ])
}

/// A valid plan of contract version 9: every part well formed, the required list sorted and equal
/// to the required decisions, the attribution exact, and the identity the SHA-256 of the portable
/// content.
pub open spec fn plan_ok(v: JsonV) -> bool {
    v matches JsonV::Object(p) && {
        &&& keys_exact(p, plan_keys(), seq![])
        &&& val_at(p, "plan_contract_version"@) == JsonV::UInt(9)
        &&& str_at(p, "identity"@) matches Some(id) && spec_valid_hash_id(id, "plan-v9:sha256:"@)
        &&& obj_at(p, "inputs"@) matches Some(i) && inputs_ok(i)
        &&& changes_ok(val_at(p, "changes"@))
        &&& obj_at(p, "evidence"@) matches Some(ev) && evidence_ok(ev)
        &&& string_list_ok(val_at(p, "required"@), false, true)
        &&& strictly_sorted(strings_of(val_at(p, "required"@))->0)
        &&& obj_at(p, "work"@) matches Some(w) && all_decisions(w, obj_at(p, "evidence"@)->0)
            && strings_of(val_at(p, "required"@))->0 == required_ids(w)
        &&& attribution_ok(p)
        &&& str_at(p, "identity"@)->0 == "plan-v9:sha256:"@ + spec_hex(sha256_of(encode(portable_plan(p))))
    }
}

/// Every check of a plan before its content identity holds: everything `plan_ok` asks but that
/// the identity is the digest of the portable content.
pub open spec fn plan_checked(p: Seq<(Seq<char>, JsonV)>) -> bool {
    &&& keys_exact(p, plan_keys(), seq![])
    &&& val_at(p, "plan_contract_version"@) == JsonV::UInt(9)
    &&& str_at(p, "identity"@) matches Some(id) && spec_valid_hash_id(id, "plan-v9:sha256:"@)
    &&& obj_at(p, "inputs"@) matches Some(i) && inputs_ok(i)
    &&& changes_ok(val_at(p, "changes"@))
    &&& obj_at(p, "evidence"@) matches Some(ev) && evidence_ok(ev)
    &&& string_list_ok(val_at(p, "required"@), false, true)
    &&& strictly_sorted(strings_of(val_at(p, "required"@))->0)
    &&& obj_at(p, "work"@) matches Some(w) && all_decisions(w, obj_at(p, "evidence"@)->0)
        && strings_of(val_at(p, "required"@))->0 == required_ids(w)
    &&& attribution_ok(p)
}

/// The keys of an object as JSON strings.
fn key_strings(entries: &Vec<(String, Json)>) -> (r: Vec<Json>)
    ensures
        items_view(r@) == as_json_strings(entry_keys(entries_view(entries@))),
{
    proof {
        lemma_entries(entries@, entries@.len());
    }
    let mut out: Vec<Json> = Vec::new();
    let mut i: usize = 0;
    while i < entries.len()
        invariant
            i <= entries@.len(),
            out@.len() == i,
            entries_view(entries@).len() == entries@.len(),
            forall|k: int| 0 <= k < entries@.len() ==> #[trigger] entries_view(entries@)[k]
                == (entries@[k].0@, jv(entries@[k].1)),
            forall|k: int| 0 <= k < i ==> #[trigger] jv(out@[k]) == JsonV::Str(entries@[k].0@),
        decreases entries@.len() - i,
    {
        out.push(Json::Str(entries[i].0.as_str().to_owned()));
        i = i + 1;
    }
    proof {
        lemma_items(out@, out@.len());
        assert(items_view(out@) =~= as_json_strings(entry_keys(entries_view(entries@))));
    }
    out
}

/// Checks every work decision and returns the IDs of the required work, in order.
#[verifier::loop_isolation(false)]
fn validate_decisions(work: &Vec<(String, Json)>, evidence: &Vec<(String, Json)>) -> (r: Result<Vec<String>, ActionError>)
    ensures
        r is Ok <==> all_decisions(entries_view(work@), entries_view(evidence@)),
        r matches Ok(ids) ==> strs_view(ids@) == required_ids(entries_view(work@)),
        r matches Err(e) ==> e.kind == ErrorKind::Rejected,
{
    proof {
        lemma_entries(work@, work@.len());
    }
    let ghost wv = entries_view(work@);
    let mut projected: Vec<String> = Vec::new();
    let mut i: usize = 0;
    while i < work.len()
        invariant
            i <= work@.len(),
            wv == entries_view(work@),
            forall|k: int| 0 <= k < i ==> decision_ok((#[trigger] wv[k]).0, wv[k].1, entries_view(evidence@)),
            strs_view(projected@) == required_ids(wv.take(i as int)),
        decreases work@.len() - i,
    {
        proof {
            assert(wv[i as int] == (work@[i as int].0@, work@[i as int].1@));
            assert(wv.take(i + 1).drop_last() == wv.take(i as int));
            assert(wv.take(i + 1).last() == wv[i as int]);
        }
        let required = validate_decision(work[i].0.as_str(), &work[i].1, evidence)?;
        let ghost before = projected@;
        if required {
            projected.push(work[i].0.as_str().to_owned());
        }
        proof {
            assert(strs_view(projected@) =~= required_ids(wv.take(i + 1)));
        }
        i = i + 1;
    }
    proof {
        assert(wv.take(i as int) == wv);
    }
    Ok(projected)
}

/// What the rejection of a plan says, in the order of the checks: not an object; its keys not
/// exact (the missing or unknown keys); its contract version; a missing or malformed identity;
/// and, when everything else holds, an identity that is not the digest of its portable content.
pub open spec fn plan_message(v: JsonV, message: Seq<char>) -> bool {
    &&& !(v is Object) ==> message == "plan must be an object"@
    &&& v matches JsonV::Object(p) ==> {
        &&& !keys_exact(p, plan_keys(), seq![]) ==> crate::validation::keys_message(
            p,
            plan_keys(),
            seq![],
            "plan"@,
            message,
        )
        &&& keys_exact(p, plan_keys(), seq![]) && val_at(p, "plan_contract_version"@) != JsonV::UInt(9) ==> message
            == "plan contract version must be 9"@
        &&& keys_exact(p, plan_keys(), seq![]) && val_at(p, "plan_contract_version"@) == JsonV::UInt(9) && str_at(
            p,
            "identity"@,
        ) is None ==> message == "plan.identity is missing or invalid"@
        &&& keys_exact(p, plan_keys(), seq![]) && val_at(p, "plan_contract_version"@) == JsonV::UInt(9) && (str_at(
            p,
            "identity"@,
        ) matches Some(id) && !spec_valid_hash_id(id, "plan-v9:sha256:"@)) ==> message
            == "plan identity is missing or malformed"@
        &&& plan_checked(p) && str_at(p, "identity"@)->0 != "plan-v9:sha256:"@ + spec_hex(
            sha256_of(encode(portable_plan(p))),
        ) ==> message == "plan identity does not match its typed portable content"@
    }
}

/// Checks a plan: its shape, every part, the required projection, the attribution, and its
/// content identity.
pub fn validate_plan(value: &Json) -> (r: Result<(), ActionError>)
    ensures
        r is Ok <==> plan_ok(value@),
        r matches Err(e) ==> e.kind == ErrorKind::Rejected,
        r matches Err(e) ==> plan_message(value@, e.message@),
{
    let plan = match value.as_object() {
        Some(p) => p,
        None => return Err(rejection("plan must be an object")),
    };
    let keys: [&str; 8] = ["plan_contract_version", "identity", "inputs", "changes", "work", "required", "evidence",
        "attribution"];
    let none: [&str; 0] = [];
    proof {
        assert(lits_view(keys@) =~= plan_keys());
        assert(lits_view(none@) =~= seq![]);
    }
    exact_keys(plan, &keys, &none, "plan")?;
    let version_ok = match entry(plan, "plan_contract_version") {
        Some(v) => match v.as_u64() {
            Some(n) => n == 9,
            None => false,
        },
        None => false,
    };
    require(version_ok, "plan contract version must be 9")?;
    proof {
        reveal_strlit("plan");
        reveal_strlit("identity");
        reveal_strlit(" is missing or invalid");
        reveal_strlit("plan.identity is missing or invalid");
        assert("plan"@ + seq!['.'] + "identity"@ + " is missing or invalid"@ =~= "plan.identity is missing or invalid"@);
    }
    let identity = required_string(plan, "identity", "plan")?;
    require(valid_hash_id(identity, "plan-v9:sha256:"), "plan identity is missing or malformed")?;
    let inputs = crate::validation::object_field(plan, "inputs", "plan")?;
    validate_inputs(inputs)?;
    match entry(plan, "changes") {
        Some(changes) => validate_changes(changes)?,
        None => validate_changes(&Json::Null)?,
    }
    let evidence = crate::validation::object_field(plan, "evidence", "plan")?;
    validate_evidence(evidence)?;
    let required = field_list(plan, "required", "plan required work", false, true)?;
    require(sorted_strictly(&required), "plan required work must be sorted")?;
    let work = crate::validation::object_field(plan, "work", "plan")?;
    let projected = validate_decisions(work, evidence)?;
    require(strings_equal(&required, &projected), "required work projection disagrees with work decisions")?;
    validate_attribution(plan)?;
    let portable_entries: Vec<(String, Json)> = vec![
        ("attribution".to_owned(), field_value(plan, "attribution")),
        ("changes".to_owned(), field_value(plan, "changes")),
        ("evidence".to_owned(), Json::Array(key_strings(evidence))),
        ("inputs".to_owned(), field_value(plan, "inputs")),
        ("plan_contract_version".to_owned(), field_value(plan, "plan_contract_version")),
        ("required".to_owned(), field_value(plan, "required")),
        ("work".to_owned(), field_value(plan, "work")),
    ];
    proof {
        lemma_entries(portable_entries@, 7);
        assert(entries_view(portable_entries@) =~= portable_plan(entries_view(plan@))->Object_0);
    }
    let portable = Json::Object(portable_entries);
    let encoded = to_bytes(&portable);
    let digest = sha256(encoded.as_slice());
    require(digest_identity_ok(identity, "plan-v9:sha256:", digest.as_slice()),
        "plan identity does not match its typed portable content")
}


/// Two objects with the same keys in the same order, whose values agree under every key but `f`.
pub open spec fn agree_except(r1: Seq<(Seq<char>, JsonV)>, r2: Seq<(Seq<char>, JsonV)>, f: Seq<char>) -> bool {
    &&& r1.len() == r2.len()
    &&& forall|j: int| 0 <= j < r1.len() ==> (#[trigger] r1[j]).0 == r2[j].0 && (r1[j].0 != f ==> r1[j].1 == r2[j].1)
}

/// Objects that agree but under `f` give the same value under every other key, and have the same
/// keys.
proof fn lemma_find_agree(r1: Seq<(Seq<char>, JsonV)>, r2: Seq<(Seq<char>, JsonV)>, f: Seq<char>, key: Seq<char>)
    requires
        agree_except(r1, r2, f),
    ensures
        key != f ==> find(r1, key) == find(r2, key),
        (find(r1, key) is Some) == (find(r2, key) is Some),
        has_key(r1, key) == has_key(r2, key),
    decreases r1.len(),
{
    if r1.len() > 0 {
        assert(r1[0].0 == r2[0].0);
        assert(agree_except(r1.drop_first(), r2.drop_first(), f)) by {
            assert forall|j: int| 0 <= j < r1.drop_first().len() implies (#[trigger] r1.drop_first()[j]).0
                == r2.drop_first()[j].0 && (r1.drop_first()[j].0 != f ==> r1.drop_first()[j].1 == r2.drop_first()[j].1) by {
                assert(r1.drop_first()[j] == r1[j + 1]);
                assert(r2.drop_first()[j] == r2[j + 1]);
            }
        }
        lemma_find_agree(r1.drop_first(), r2.drop_first(), f, key);
    }
    if has_key(r1, key) {
        let i = choose|i: int| 0 <= i < r1.len() && (#[trigger] r1[i]).0 == key;
        assert(r2[i].0 == key);
    }
    if has_key(r2, key) {
        let i = choose|i: int| 0 <= i < r2.len() && (#[trigger] r2[i]).0 == key;
        assert(r1[i].0 == key);
    }
}

/// Objects that agree but under one key have exact keys together.
proof fn lemma_keys_agree(r1: Seq<(Seq<char>, JsonV)>, r2: Seq<(Seq<char>, JsonV)>, f: Seq<char>,
    required: Seq<Seq<char>>, optional: Seq<Seq<char>>)
    requires
        agree_except(r1, r2, f),
        keys_exact(r1, required, optional),
    ensures
        keys_exact(r2, required, optional),
{
    assert forall|k: int| 0 <= k < required.len() implies has_key(r2, #[trigger] required[k]) by {
        lemma_find_agree(r1, r2, f, required[k]);
    }
    assert forall|i: int| 0 <= i < r2.len() implies required.contains((#[trigger] r2[i]).0) || optional.contains(r2[i].0) by {
        assert(r1[i].0 == r2[i].0);
    }
}

/// Evidence maps that differ at most in the descriptions of their records: the same references in
/// the same order, each record an object agreeing with the other but under `description`, whose
/// new description is a non-empty string.
pub open spec fn descriptions_only(e1: Seq<(Seq<char>, JsonV)>, e2: Seq<(Seq<char>, JsonV)>) -> bool {
    &&& e1.len() == e2.len()
    &&& forall|i: int| 0 <= i < e1.len() ==> {
        &&& (#[trigger] e1[i]).0 == e2[i].0
        &&& e1[i].1 matches JsonV::Object(r1) && e2[i].1 matches JsonV::Object(r2) && agree_except(
            r1,
            r2,
            "description"@,
        ) && nonempty_str(r2, "description"@)
    }
}

/// Under a reference, evidence maps that differ only in descriptions hold records that agree but
/// under `description`.
proof fn lemma_find_records(e1: Seq<(Seq<char>, JsonV)>, e2: Seq<(Seq<char>, JsonV)>, reference: Seq<char>)
    requires
        descriptions_only(e1, e2),
    ensures
        (find(e1, reference) is Some) == (find(e2, reference) is Some),
        find(e1, reference) matches Some(v1) ==> (find(e2, reference) matches Some(v2) && v1 matches JsonV::Object(r1)
            && v2 matches JsonV::Object(r2) && agree_except(r1, r2, "description"@) && nonempty_str(r2, "description"@)),
    decreases e1.len(),
{
    if e1.len() > 0 {
        assert(e1[0].0 == e2[0].0);
        assert(descriptions_only(e1.drop_first(), e2.drop_first())) by {
            assert forall|i: int| 0 <= i < e1.drop_first().len() implies {
                &&& (#[trigger] e1.drop_first()[i]).0 == e2.drop_first()[i].0
                &&& e1.drop_first()[i].1 matches JsonV::Object(r1) && e2.drop_first()[i].1 matches JsonV::Object(r2)
                    && agree_except(r1, r2, "description"@) && nonempty_str(r2, "description"@)
            } by {
                assert(e1.drop_first()[i] == e1[i + 1]);
                assert(e2.drop_first()[i] == e2[i + 1]);
            }
        }
        lemma_find_records(e1.drop_first(), e2.drop_first(), reference);
    }
}

/// What the decisions read of the evidence is the same in two maps: which references exist, and
/// each record's subject and completeness.
pub open spec fn evidence_equiv(e1: Seq<(Seq<char>, JsonV)>, e2: Seq<(Seq<char>, JsonV)>) -> bool {
    forall|r: Seq<char>| #![trigger find(e1, r)] #![trigger find(e2, r)]
        (obj_at(e1, r) is Some) == (obj_at(e2, r) is Some) && (obj_at(e1, r) matches Some(a) ==> (obj_at(e2, r)
        matches Some(b) && val_at(a, "subject"@) == val_at(b, "subject"@))) && completeness(e1, r) == completeness(e2, r)
}

proof fn lemma_evidence_equiv(e1: Seq<(Seq<char>, JsonV)>, e2: Seq<(Seq<char>, JsonV)>)
    requires
        descriptions_only(e1, e2),
    ensures
        evidence_equiv(e1, e2),
{
    reveal_strlit("description");
    reveal_strlit("subject");
    reveal_strlit("complete");
    assert("subject"@ != "description"@) by {
        assert("subject"@[0] != "description"@[0]);
    }
    assert("complete"@ != "description"@) by {
        assert("complete"@[0] != "description"@[0]);
    }
    assert forall|r: Seq<char>| #![trigger find(e1, r)] #![trigger find(e2, r)]
        (obj_at(e1, r) is Some) == (obj_at(e2, r) is Some) && (obj_at(e1, r) matches Some(a) ==> (obj_at(e2, r)
        matches Some(b) && val_at(a, "subject"@) == val_at(b, "subject"@))) && completeness(e1, r) == completeness(e2, r) by {
        lemma_find_records(e1, e2, r);
        match find(e1, r) {
            Some(v1) => {
                let r1 = v1->Object_0;
                let r2 = find(e2, r)->0->Object_0;
                lemma_find_agree(r1, r2, "description"@, "subject"@);
                lemma_find_agree(r1, r2, "description"@, "complete"@);
            },
            None => {},
        }
    }
}

proof fn lemma_selection_transfer(scope: Seq<(Seq<char>, JsonV)>, work_id: Seq<char>, e1: Seq<(Seq<char>, JsonV)>,
    e2: Seq<(Seq<char>, JsonV)>, references: Seq<Seq<char>>)
    requires
        evidence_equiv(e1, e2),
        selection_ok(scope, work_id, e1, references),
    ensures
        selection_ok(scope, work_id, e2, references),
{
    match obj_at(scope, "selection"@) {
        Some(sel) => match str_at(sel, "evidence"@) {
            Some(reference) => {
                assert(find(e1, reference) == find(e1, reference));
                assert(find(e2, reference) == find(e2, reference));
            },
            None => {},
        },
        None => {},
    }
}

proof fn lemma_decision_transfer(work_id: Seq<char>, v: JsonV, e1: Seq<(Seq<char>, JsonV)>, e2: Seq<(Seq<char>, JsonV)>)
    requires
        evidence_equiv(e1, e2),
        decision_ok(work_id, v, e1),
    ensures
        decision_ok(work_id, v, e2),
{
    let d = v->Object_0;
    let refs = strings_of(val_at(d, "evidence"@))->0;
    assert forall|i: int| 0 <= i < refs.len() implies (obj_at(e2, #[trigger] refs[i]) matches Some(record)
        && val_at(record, "subject"@) == JsonV::Str(work_id)) by {
        assert(find(e1, refs[i]) == find(e1, refs[i]));
        assert(obj_at(e1, refs[i]) matches Some(record) && val_at(record, "subject"@) == JsonV::Str(work_id));
    }
    assert forall|i: int| 0 <= i < refs.len() implies #[trigger] completeness(e1, refs[i]) == completeness(e2, refs[i]) by {
        assert(find(e1, refs[i]) == find(e1, refs[i]));
    }
    if str_at(d, "state"@) == Some("required"@) {
        let scope = obj_at(d, "scope"@)->0;
        lemma_selection_transfer(scope, work_id, e1, e2, refs);
        if any_incomplete(refs, e1) {
            let i = choose|i: int| 0 <= i < refs.len() && completeness(e1, #[trigger] refs[i]) == JsonV::Bool(false);
            assert(completeness(e2, refs[i]) == JsonV::Bool(false));
        }
    }
}

proof fn lemma_decisions_transfer(work: Seq<(Seq<char>, JsonV)>, e1: Seq<(Seq<char>, JsonV)>, e2: Seq<(Seq<char>, JsonV)>)
    requires
        evidence_equiv(e1, e2),
        all_decisions(work, e1),
    ensures
        all_decisions(work, e2),
{
    assert forall|i: int| 0 <= i < work.len() implies decision_ok((#[trigger] work[i]).0, work[i].1, e2) by {
        lemma_decision_transfer(work[i].0, work[i].1, e1, e2);
    }
}

proof fn lemma_evidence_transfer(e1: Seq<(Seq<char>, JsonV)>, e2: Seq<(Seq<char>, JsonV)>)
    requires
        descriptions_only(e1, e2),
        evidence_ok(e1),
    ensures
        evidence_ok(e2),
        entry_keys(e2) == entry_keys(e1),
{
    reveal_strlit("description");
    reveal_strlit("code");
    reveal_strlit("subject");
    reveal_strlit("input");
    reveal_strlit("complete");
    assert("code"@[0] != "description"@[0]);
    assert("subject"@[0] != "description"@[0]);
    assert("input"@[0] != "description"@[0]);
    assert("complete"@[0] != "description"@[0]);
    assert forall|i: int| 0 <= i < e2.len() implies evidence_record_ok((#[trigger] e2[i]).0, e2[i].1) by {
        assert(evidence_record_ok(e1[i].0, e1[i].1));
        let r1 = e1[i].1->Object_0;
        let r2 = e2[i].1->Object_0;
        lemma_find_agree(r1, r2, "description"@, "code"@);
        lemma_find_agree(r1, r2, "description"@, "subject"@);
        lemma_find_agree(r1, r2, "description"@, "input"@);
        lemma_find_agree(r1, r2, "description"@, "complete"@);
        lemma_keys_agree(r1, r2, "description"@, seq!["code"@, "subject"@, "description"@, "input"@, "complete"@], seq![]);
        assert(evidence_portable(r2) == evidence_portable(r1));
    }
    assert(entry_keys(e2) =~= entry_keys(e1)) by {
        assert forall|i: int| 0 <= i < e1.len() implies entry_keys(e2)[i] == entry_keys(e1)[i] by {
            assert(e1[i].0 == e2[i].0);
        }
    }
}

/// Law: the descriptions of evidence lie outside a plan's identity. A valid plan whose evidence
/// records change only their descriptions (each to another non-empty string), all else unchanged,
/// is still valid, and its portable content, which the identity digests, is the same.
pub proof fn law_descriptions_outside_identity(
    p: Seq<(Seq<char>, JsonV)>,
    q: Seq<(Seq<char>, JsonV)>,
    e1: Seq<(Seq<char>, JsonV)>,
    e2: Seq<(Seq<char>, JsonV)>,
)
    requires
        plan_ok(JsonV::Object(p)),
        agree_except(p, q, "evidence"@),
        obj_at(p, "evidence"@) == Some(e1),
        obj_at(q, "evidence"@) == Some(e2),
        descriptions_only(e1, e2),
    ensures
        plan_ok(JsonV::Object(q)),
        portable_plan(q) == portable_plan(p),
{
    reveal_strlit("evidence");
    reveal_strlit("plan_contract_version");
    reveal_strlit("identity");
    reveal_strlit("inputs");
    reveal_strlit("changes");
    reveal_strlit("work");
    reveal_strlit("required");
    reveal_strlit("attribution");
    assert("plan_contract_version"@[0] != "evidence"@[0]);
    assert("identity"@[0] != "evidence"@[0]);
    assert("inputs"@[0] != "evidence"@[0]);
    assert("changes"@[0] != "evidence"@[0]);
    assert("work"@[0] != "evidence"@[0]);
    assert("required"@[0] != "evidence"@[0]);
    assert("attribution"@[0] != "evidence"@[0]);
    lemma_find_agree(p, q, "evidence"@, "plan_contract_version"@);
    lemma_find_agree(p, q, "evidence"@, "identity"@);
    lemma_find_agree(p, q, "evidence"@, "inputs"@);
    lemma_find_agree(p, q, "evidence"@, "changes"@);
    lemma_find_agree(p, q, "evidence"@, "work"@);
    lemma_find_agree(p, q, "evidence"@, "required"@);
    lemma_find_agree(p, q, "evidence"@, "attribution"@);
    lemma_keys_agree(p, q, "evidence"@, plan_keys(), seq![]);
    lemma_evidence_transfer(e1, e2);
    lemma_evidence_equiv(e1, e2);
    lemma_decisions_transfer(obj_at(p, "work"@)->0, e1, e2);
    assert(portable_plan(q) == portable_plan(p));
    assert(attribution_ok(q));
}

} // verus!
