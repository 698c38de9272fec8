use vstd::prelude::*;

use crate::cache::{RemoteState, spec_valid_authority, valid_authority};
use crate::error::{ActionError, ErrorKind, rejection};
use crate::json::{Json, JsonV, entries_view, find, items_view, lemma_entries, lemma_items};
use crate::plan_validation::{nonempty_str, text_under};
use crate::text::{concat, concat3, push_str, str_eq};
use crate::validation::{keys_exact, exact_keys, lits_view, str_at, obj_at, val_at, one_of, entry, field_is,
    field_one_of, lit_in};

verus! {

/// Every key holds a non-negative integer.
pub open spec fn uint_fields(e: Seq<(Seq<char>, JsonV)>, keys: Seq<Seq<char>>) -> bool {
    forall|i: int| 0 <= i < keys.len() ==> val_at(e, #[trigger] keys[i]) is UInt
}

/// Every key holds a Boolean.
pub open spec fn bool_fields(e: Seq<(Seq<char>, JsonV)>, keys: Seq<Seq<char>>) -> bool {
    forall|i: int| 0 <= i < keys.len() ==> val_at(e, #[trigger] keys[i]) is Bool
}

/// Every key holds a non-empty string.
pub open spec fn string_fields(e: Seq<(Seq<char>, JsonV)>, keys: Seq<Seq<char>>) -> bool {
    forall|i: int| 0 <= i < keys.len() ==> nonempty_str(e, #[trigger] keys[i])
}

/// An optional value: absent, null, or one of the allowed strings.
pub open spec fn optional_enum_ok(o: Option<JsonV>, allowed: Seq<Seq<char>>) -> bool {
    o matches Some(v) ==> (v is Null || one_of(v, allowed))
}

/// An optional value: absent, null, or a non-negative integer.
pub open spec fn optional_uint_ok(o: Option<JsonV>) -> bool {
    o matches Some(v) ==> (v is Null || v is UInt)
}

/// Requires every key to hold a non-negative integer; the message names the first that does not.
fn require_uint_fields(object: &Vec<(String, Json)>, keys: &[&str], subject: &str) -> (r: Result<(), ActionError>)
    ensures
        r is Ok <==> uint_fields(entries_view(object@), lits_view(keys@)),
        r matches Err(e) ==> e.kind == ErrorKind::Rejected,
{
    let mut i: usize = 0;
    while i < keys.len()
        invariant
            i <= keys@.len(),
            forall|k: int| 0 <= k < i ==> val_at(entries_view(object@), #[trigger] lits_view(keys@)[k]) is UInt,
        decreases keys@.len() - i,
    {
        proof {
            assert(lits_view(keys@)[i as int] == keys@[i as int]@);
        }
        let ok = match entry(object, keys[i]) {
            Some(v) => v.as_u64().is_some(),
            None => false,
        };
        if !ok {
            let mut message = concat3(subject, ".", keys[i]);
            push_str(&mut message, " is invalid");
            return Err(ActionError::rejected(message));
        }
        i = i + 1;
    }
    Ok(())
}

/// Requires every key to hold a Boolean; the message names the first that does not.
fn require_bool_fields(object: &Vec<(String, Json)>, keys: &[&str], subject: &str) -> (r: Result<(), ActionError>)
    ensures
        r is Ok <==> bool_fields(entries_view(object@), lits_view(keys@)),
        r matches Err(e) ==> e.kind == ErrorKind::Rejected,
{
    let mut i: usize = 0;
    while i < keys.len()
        invariant
            i <= keys@.len(),
            forall|k: int| 0 <= k < i ==> val_at(entries_view(object@), #[trigger] lits_view(keys@)[k]) is Bool,
        decreases keys@.len() - i,
    {
        proof {
            assert(lits_view(keys@)[i as int] == keys@[i as int]@);
        }
        let ok = match entry(object, keys[i]) {
            Some(v) => v.as_bool().is_some(),
            None => false,
        };
        if !ok {
            let mut message = concat3(subject, ".", keys[i]);
            push_str(&mut message, " is invalid");
            return Err(ActionError::rejected(message));
        }
        i = i + 1;
    }
    Ok(())
}

/// The non-empty string under `field`.
pub fn string_field<'a>(object: &'a Vec<(String, Json)>, field: &str, subject: &str) -> (r: Result<&'a str, ActionError>)
    ensures
        r is Ok <==> nonempty_str(entries_view(object@), field@),
        r matches Ok(s) ==> str_at(entries_view(object@), field@) == Some(s@),
        r matches Err(e) ==> e.kind == ErrorKind::Rejected,
{
    let missing = {
        let mut message = concat3(subject, ".", field);
        push_str(&mut message, " is missing or invalid");
        message
    };
    match entry(object, field) {
        Some(v) => match v.as_str() {
            Some(s) => if s.is_empty() {
                Err(ActionError::rejected(missing))
            } else {
                Ok(s)
            },
            None => Err(ActionError::rejected(missing)),
        },
        None => Err(ActionError::rejected(missing)),
    }
}

/// Requires every key to hold a non-empty string; the message names the first that does not.
fn require_string_fields(object: &Vec<(String, Json)>, keys: &[&str], subject: &str) -> (r: Result<(), ActionError>)
    ensures
        r is Ok <==> string_fields(entries_view(object@), lits_view(keys@)),
        r matches Err(e) ==> e.kind == ErrorKind::Rejected,
{
    let mut i: usize = 0;
    while i < keys.len()
        invariant
            i <= keys@.len(),
            forall|k: int| 0 <= k < i ==> nonempty_str(entries_view(object@), #[trigger] lits_view(keys@)[k]),
        decreases keys@.len() - i,
    {
        proof {
            assert(lits_view(keys@)[i as int] == keys@[i as int]@);
        }
        string_field(object, keys[i], subject)?;
        i = i + 1;
    }
    Ok(())
}

/// Requires an optional value to be absent, null, or one of the allowed strings.
pub fn require_optional_enum(value: Option<&Json>, allowed: &[&str], subject: &str) -> (r: Result<(), ActionError>)
    ensures
        r is Ok <==> optional_enum_ok(match value {
            Some(v) => Some(v@),
            None => None,
        }, lits_view(allowed@)),
        r matches Err(e) ==> e.kind == ErrorKind::Rejected,
{
    let ok = match value {
        None => true,
        Some(v) => v.is_null() || match v.as_str() {
            Some(s) => lit_in(allowed, s),
            None => false,
        },
    };
    if ok {
        Ok(())
    } else {
        Err(ActionError::rejected(concat(subject, " is invalid")))
    }
}

/// Requires an optional value to be absent, null, or a non-negative integer.
pub fn require_optional_u64(value: Option<&Json>, subject: &str) -> (r: Result<(), ActionError>)
    ensures
        r is Ok <==> optional_uint_ok(match value {
            Some(v) => Some(v@),
            None => None,
        }),
        r matches Err(e) ==> e.kind == ErrorKind::Rejected,
{
    let ok = match value {
        None => true,
        Some(v) => v.is_null() || v.as_u64().is_some(),
    };
    if ok {
        Ok(())
    } else {
        Err(ActionError::rejected(concat(subject, " is invalid")))
    }
}

/// A machine envelope of schema 1 for the given command, mode and result, with exit code 0.
pub open spec fn envelope_ok(v: JsonV, command: Seq<char>, mode: Seq<char>, result: Seq<char>) -> bool {
    v matches JsonV::Object(o) && {
        &&& find(o, "schema_version"@) == Some(JsonV::UInt(1))
        &&& find(o, "command"@) == Some(JsonV::Str(command))
        &&& find(o, "mode"@) == Some(JsonV::Str(mode))
        &&& find(o, "result"@) == Some(JsonV::Str(result))
        &&& find(o, "exit_code"@) == Some(JsonV::UInt(0))
    }
}

/// Whether the value under `field` is the given integer.
fn field_is_uint(object: &Vec<(String, Json)>, field: &str, n: u64) -> (r: bool)
    ensures
        r == (find(entries_view(object@), field@) == Some(JsonV::UInt(n))),
{
    match entry(object, field) {
        Some(v) => match v.as_u64() {
            Some(x) => x == n,
            None => false,
        },
        None => false,
    }
}

/// Whether the value under `field` is the given string.
fn field_is_str(object: &Vec<(String, Json)>, field: &str, s: &str) -> (r: bool)
    ensures
        r == (find(entries_view(object@), field@) == Some(JsonV::Str(s@))),
{
    match entry(object, field) {
        Some(v) => match v.as_str() {
            Some(x) => str_eq(x, s),
            None => false,
        },
        None => false,
    }
}

/// Fails naming the invalid field of an envelope.
fn envelope_rejection(subject: &str, field: &str) -> (e: ActionError)
    ensures
        e.kind == ErrorKind::Rejected,
{
    let mut message = concat3(subject, ".", field);
    push_str(&mut message, " is invalid");
    ActionError::rejected(message)
}

/// The object of a machine envelope of schema 1 for the command, mode and result, exit code 0.
pub fn machine_envelope<'a>(value: &'a Json, command: &str, mode: &str, result: &str, subject: &str)
    -> (r: Result<&'a Vec<(String, Json)>, ActionError>)
    ensures
        r is Ok <==> envelope_ok(value@, command@, mode@, result@),
        r matches Ok(o) ==> value@ == JsonV::Object(entries_view(o@)),
        r matches Err(e) ==> e.kind == ErrorKind::Rejected,
{
    let object = match value.as_object() {
        Some(o) => o,
        None => return Err(ActionError::rejected(concat(subject, " must be an object"))),
    };
    if !field_is_uint(object, "schema_version", 1) {
        return Err(envelope_rejection(subject, "schema_version"));
    }
    if !field_is_str(object, "command", command) {
        return Err(envelope_rejection(subject, "command"));
    }
    if !field_is_str(object, "mode", mode) {
        return Err(envelope_rejection(subject, "mode"));
    }
    if !field_is_str(object, "result", result) {
        return Err(envelope_rejection(subject, "result"));
    }
    if !field_is_uint(object, "exit_code", 0) {
        return Err(envelope_rejection(subject, "exit_code"));
    }
    Ok(object)
}

/// The keys of a remote cache description.
pub open spec fn remote_keys() -> Seq<Seq<char>> {
    seq!["provider"@, "protocol"@, "authority"@, "mode"@, "shared_environment_names"@, "activation"@,
        "selection_source"@]
}

/// A remote cache description: a supported provider, a redacted authority, a mode, an activation,
/// a count of shared environment names, protocol `native-v6` and a selection source.
pub open spec fn remote_ok(v: JsonV) -> bool {
    v matches JsonV::Object(r) && {
        &&& keys_exact(r, remote_keys(), seq![])
        &&& nonempty_str(r, "provider"@)
        &&& seq!["aws-s3"@, "azure-blob"@, "cloudflare-r2"@, "s3-compatible"@].contains(text_under(v, "provider"@))
        &&& nonempty_str(r, "authority"@) && spec_valid_authority(text_under(v, "authority"@))
        &&& nonempty_str(r, "mode"@) && seq!["read"@, "read-write"@].contains(text_under(v, "mode"@))
        &&& nonempty_str(r, "activation"@)
        &&& val_at(r, "shared_environment_names"@) is UInt
        &&& nonempty_str(r, "protocol"@) && text_under(v, "protocol"@) == "native-v6"@
        &&& nonempty_str(r, "selection_source"@)
    }
}

/// The remote state a remote cache description names.
pub open spec fn remote_matches(state: RemoteState, v: JsonV) -> bool {
    &&& state.provider@ == text_under(v, "provider"@)
    &&& state.authority@ == text_under(v, "authority"@)
    &&& state.mode@ == text_under(v, "mode"@)
    &&& state.activation@ == text_under(v, "activation"@)
}

/// The remote cache state of a description.
pub fn remote_state(value: Option<&Json>, subject: &str) -> (r: Result<RemoteState, ActionError>)
    ensures
        r is Ok <==> (value matches Some(v) && remote_ok(v@)),
        r matches Ok(state) ==> (value matches Some(v) && remote_matches(state, v@)),
        r matches Err(e) ==> e.kind == ErrorKind::Rejected,
{
    let remote = match value {
        Some(v) => match v.as_object() {
            Some(o) => o,
            None => return Err(ActionError::rejected(concat(subject, " is missing or invalid"))),
        },
        None => return Err(ActionError::rejected(concat(subject, " is missing or invalid"))),
    };
    let keys: [&str; 7] = ["provider", "protocol", "authority", "mode", "shared_environment_names", "activation",
        "selection_source"];
    let none: [&str; 0] = [];
    let providers: [&str; 4] = ["aws-s3", "azure-blob", "cloudflare-r2", "s3-compatible"];
    let modes: [&str; 2] = ["read", "read-write"];
    proof {
        assert(lits_view(keys@) =~= remote_keys());
        assert(lits_view(none@) =~= seq![]);
        assert(lits_view(providers@) =~= seq!["aws-s3"@, "azure-blob"@, "cloudflare-r2"@, "s3-compatible"@]);
        assert(lits_view(modes@) =~= seq!["read"@, "read-write"@]);
    }
    exact_keys(remote, &keys, &none, subject)?;
    let provider = string_field(remote, "provider", subject)?;
    if !lit_in(&providers, provider) {
        return Err(ActionError::rejected(concat(subject, ".provider is unsupported")));
    }
    let authority = string_field(remote, "authority", subject)?;
    if !valid_authority(authority) {
        return Err(ActionError::rejected(concat(subject, ".authority is malformed")));
    }
    let mode = string_field(remote, "mode", subject)?;
    if !lit_in(&modes, mode) {
        return Err(ActionError::rejected(concat(subject, ".mode is invalid")));
    }
    let activation = string_field(remote, "activation", subject)?;
    let shared = match entry(remote, "shared_environment_names") {
        Some(v) => v.as_u64().is_some(),
        None => false,
    };
    if !shared {
        return Err(rejection("remote shared_environment_names is invalid"));
    }
    let protocol = string_field(remote, "protocol", subject)?;
    if !str_eq(protocol, "native-v6") {
        return Err(ActionError::rejected(concat(subject, ".protocol is incompatible")));
    }
    string_field(remote, "selection_source", subject)?;
    Ok(RemoteState {
        provider: provider.to_owned(),
        authority: authority.to_owned(),
        mode: mode.to_owned(),
        activation: activation.to_owned(),
    })
}

/// An object of non-negative integer counters.
pub open spec fn counters_ok(v: JsonV) -> bool {
    v matches JsonV::Object(c) && forall|i: int| 0 <= i < c.len() ==> (#[trigger] c[i]).1 is UInt
}

pub open spec fn usage_keys() -> Seq<Seq<char>> {
    seq!["recorded_events"@, "hits"@, "misses"@, "bypasses"@, "failures"@, "ledger_full"@, "early_bypasses"@,
        "early_bypass_reasons"@, "early_bypass_ledger_full"@, "early_bypass_incomplete_tail"@,
        "failure_reason_counts_available"@, "failure_reasons"@]
}

pub open spec fn usage_counts() -> Seq<Seq<char>> {
    seq!["recorded_events"@, "hits"@, "misses"@, "bypasses"@, "failures"@, "early_bypasses"@]
}

pub open spec fn usage_flags() -> Seq<Seq<char>> {
    seq!["ledger_full"@, "early_bypass_ledger_full"@, "early_bypass_incomplete_tail"@,
        "failure_reason_counts_available"@]
}

/// The usage of the cache installation: exact keys, integer counts, Boolean flags and counter maps.
pub open spec fn usage_ok(u: Seq<(Seq<char>, JsonV)>) -> bool {
    &&& keys_exact(u, usage_keys(), seq![])
    &&& uint_fields(u, usage_counts())
    &&& bool_fields(u, usage_flags())
    &&& counters_ok(val_at(u, "early_bypass_reasons"@))
    &&& counters_ok(val_at(u, "failure_reasons"@))
}

/// Whether a value is an object of integer counters.
#[verifier::loop_isolation(false)]
fn counters_valid(value: Option<&Json>) -> (r: bool)
    ensures
        r == counters_ok(match value {
            Some(v) => v@,
            None => JsonV::Null,
        }),
{
    let counters = match value {
        Some(v) => match v.as_object() {
            Some(o) => o,
            None => return false,
        },
        None => return false,
    };
    proof {
        lemma_entries(counters@, counters@.len());
    }
    let mut i: usize = 0;
    while i < counters.len()
        invariant
            i <= counters@.len(),
            forall|k: int| 0 <= k < i ==> (#[trigger] entries_view(counters@)[k]).1 is UInt,
        decreases counters@.len() - i,
    {
        proof {
            assert(entries_view(counters@)[i as int].1 == counters@[i as int].1@);
        }
        if counters[i].1.as_u64().is_none() {
            return false;
        }
        i = i + 1;
    }
    true
}

/// Checks the usage of the cache installation.
pub fn validate_usage(usage: &Vec<(String, Json)>) -> (r: Result<(), ActionError>)
    ensures
        r is Ok <==> usage_ok(entries_view(usage@)),
        r matches Err(e) ==> e.kind == ErrorKind::Rejected,
{
    let keys: [&str; 12] = ["recorded_events", "hits", "misses", "bypasses", "failures", "ledger_full",
        "early_bypasses", "early_bypass_reasons", "early_bypass_ledger_full", "early_bypass_incomplete_tail",
        "failure_reason_counts_available", "failure_reasons"];
    let counts: [&str; 6] = ["recorded_events", "hits", "misses", "bypasses", "failures", "early_bypasses"];
    let flags: [&str; 4] = ["ledger_full", "early_bypass_ledger_full", "early_bypass_incomplete_tail",
        "failure_reason_counts_available"];
    let none: [&str; 0] = [];
    proof {
        assert(lits_view(keys@) =~= usage_keys());
        assert(lits_view(counts@) =~= usage_counts());
        assert(lits_view(flags@) =~= usage_flags());
        assert(lits_view(none@) =~= seq![]);
    }
    exact_keys(usage, &keys, &none, "cache status usage")?;
    require_uint_fields(usage, &counts, "cache status usage")?;
    require_bool_fields(usage, &flags, "cache status usage")?;
    let early = entry(usage, "early_bypass_reasons");
    match early {
        Some(v) => if v.as_object().is_none() {
            return Err(rejection("cache status usage.early_bypass_reasons is invalid"));
        },
        None => return Err(rejection("cache status usage.early_bypass_reasons is invalid")),
    }
    if !counters_valid(early) {
        return Err(rejection("cache status counter is invalid"));
    }
    let failures = entry(usage, "failure_reasons");
    match failures {
        Some(v) => if v.as_object().is_none() {
            return Err(rejection("cache status usage.failure_reasons is invalid"));
        },
        None => return Err(rejection("cache status usage.failure_reasons is invalid")),
    }
    if !counters_valid(failures) {
        return Err(rejection("cache status counter is invalid"));
    }
    Ok(())
}

pub open spec fn cas_keys() -> Seq<Seq<char>> {
    seq!["root"@, "trust_domain"@, "bytes"@, "max_bytes"@, "committed_result_bytes"@, "results"@, "pins"@,
        "native_actions"@, "native_unique"@, "native_conflicted"@, "native_quarantined"@, "native_local_origins"@,
        "native_remote_origins"@, "native_ledger_bytes"@, "native_ledger_max_bytes"@, "native_ledger_disabled"@,
        "objects"@, "active_leases"@, "stale_leases"@, "native_restore_lock_files"@, "staging_entries"@,
        "staging_bytes"@, "index_files"@, "reclaimable_bytes"@]
}

pub open spec fn cas_counts() -> Seq<Seq<char>> {
    seq!["bytes"@, "max_bytes"@, "committed_result_bytes"@, "results"@, "pins"@, "native_actions"@,
        "native_unique"@, "native_conflicted"@, "native_quarantined"@, "native_local_origins"@,
        "native_remote_origins"@, "native_ledger_bytes"@, "native_ledger_max_bytes"@, "objects"@,
        "active_leases"@, "stale_leases"@, "native_restore_lock_files"@, "staging_entries"@, "staging_bytes"@,
        "index_files"@, "reclaimable_bytes"@]
}

/// The local content-addressed store: exact keys, root and trust domain, integer counts, a ledger
/// flag, and optional use times.
pub open spec fn cas_ok(v: JsonV) -> bool {
    v matches JsonV::Object(c) && {
        &&& keys_exact(c, cas_keys(), seq!["oldest_used_unix_ms"@, "newest_used_unix_ms"@])
        &&& string_fields(c, seq!["root"@, "trust_domain"@])
        &&& uint_fields(c, cas_counts())
        &&& val_at(c, "native_ledger_disabled"@) is Bool
        &&& optional_uint_ok(find(c, "oldest_used_unix_ms"@))
        &&& optional_uint_ok(find(c, "newest_used_unix_ms"@))
    }
}

/// The local cache: presence flags and an optional store.
pub open spec fn local_ok(l: Seq<(Seq<char>, JsonV)>) -> bool {
    &&& keys_exact(l, seq!["present"@, "profile_scoped"@], seq!["cache"@])
    &&& val_at(l, "present"@) is Bool && val_at(l, "profile_scoped"@) is Bool
    &&& find(l, "cache"@) matches Some(c) ==> cas_ok(c)
}

/// Checks the local cache of a status.
pub fn validate_local(local: &Vec<(String, Json)>) -> (r: Result<(), ActionError>)
    ensures
        r is Ok <==> local_ok(entries_view(local@)),
        r matches Err(e) ==> e.kind == ErrorKind::Rejected,
{
    let keys: [&str; 2] = ["present", "profile_scoped"];
    let optional: [&str; 1] = ["cache"];
    proof {
        assert(lits_view(keys@) =~= seq!["present"@, "profile_scoped"@]);
        assert(lits_view(optional@) =~= seq!["cache"@]);
    }
    exact_keys(local, &keys, &optional, "cache status local")?;
    let flags = match (entry(local, "present"), entry(local, "profile_scoped")) {
        (Some(a), Some(b)) => a.as_bool().is_some() && b.as_bool().is_some(),
        _ => false,
    };
    if !flags {
        return Err(rejection("cache status local flags are invalid"));
    }
    match entry(local, "cache") {
        Some(value) => {
            let cache = match value.as_object() {
                Some(c) => c,
                None => return Err(rejection("cache status local.cache is invalid")),
            };
            let keys: [&str; 24] = ["root", "trust_domain", "bytes", "max_bytes", "committed_result_bytes", "results",
                "pins", "native_actions", "native_unique", "native_conflicted", "native_quarantined",
                "native_local_origins", "native_remote_origins", "native_ledger_bytes", "native_ledger_max_bytes",
                "native_ledger_disabled", "objects", "active_leases", "stale_leases", "native_restore_lock_files",
                "staging_entries", "staging_bytes", "index_files", "reclaimable_bytes"];
            let optional: [&str; 2] = ["oldest_used_unix_ms", "newest_used_unix_ms"];
            let strings: [&str; 2] = ["root", "trust_domain"];
            let counts: [&str; 21] = ["bytes", "max_bytes", "committed_result_bytes", "results", "pins",
                "native_actions", "native_unique", "native_conflicted", "native_quarantined", "native_local_origins",
                "native_remote_origins", "native_ledger_bytes", "native_ledger_max_bytes", "objects", "active_leases",
                "stale_leases", "native_restore_lock_files", "staging_entries", "staging_bytes", "index_files",
                "reclaimable_bytes"];
            proof {
                assert(lits_view(keys@) =~= cas_keys());
                assert(lits_view(optional@) =~= seq!["oldest_used_unix_ms"@, "newest_used_unix_ms"@]);
                assert(lits_view(strings@) =~= seq!["root"@, "trust_domain"@]);
                assert(lits_view(counts@) =~= cas_counts());
            }
            exact_keys(cache, &keys, &optional, "cache status local CAS")?;
            require_string_fields(cache, &strings, "cache status local CAS")?;
            require_uint_fields(cache, &counts, "cache status local CAS")?;
            let disabled = match entry(cache, "native_ledger_disabled") {
                Some(v) => v.as_bool().is_some(),
                None => false,
            };
            if !disabled {
                return Err(rejection("cache status local CAS.native_ledger_disabled is invalid"));
            }
            require_optional_u64(entry(cache, "oldest_used_unix_ms"), "cache status local CAS.oldest_used_unix_ms")?;
            require_optional_u64(entry(cache, "newest_used_unix_ms"), "cache status local CAS.newest_used_unix_ms")?;
            Ok(())
        },
        None => Ok(()),
    }
}

pub open spec fn placement_keys() -> Seq<Seq<char>> {
    seq!["state"@, "classes"@, "local_classes"@, "local_observations"@, "remote_classes"@, "remote_observations"@,
        "remote_failures"@, "active_backoffs"@]
}

pub open spec fn placement_counts() -> Seq<Seq<char>> {
    seq!["classes"@, "local_classes"@, "local_observations"@, "remote_classes"@, "remote_observations"@,
        "remote_failures"@, "active_backoffs"@]
}

/// The distributed placement history: a state of `empty` or `ready`, integer counts and an optional
/// newest observation time.
pub open spec fn placement_ok(p: Seq<(Seq<char>, JsonV)>) -> bool {
    &&& keys_exact(p, placement_keys(), seq!["newest_observation_unix_secs"@])
    &&& one_of(val_at(p, "state"@), seq!["empty"@, "ready"@])
    &&& uint_fields(p, placement_counts())
    &&& optional_uint_ok(find(p, "newest_observation_unix_secs"@))
}

/// Checks the distributed placement history of an installation.
pub fn validate_placement_history(value: &Vec<(String, Json)>) -> (r: Result<(), ActionError>)
    ensures
        r is Ok <==> placement_ok(entries_view(value@)),
        r matches Err(e) ==> e.kind == ErrorKind::Rejected,
{
    let keys: [&str; 8] = ["state", "classes", "local_classes", "local_observations", "remote_classes",
        "remote_observations", "remote_failures", "active_backoffs"];
    let optional: [&str; 1] = ["newest_observation_unix_secs"];
    let states: [&str; 2] = ["empty", "ready"];
    let counts: [&str; 7] = ["classes", "local_classes", "local_observations", "remote_classes",
        "remote_observations", "remote_failures", "active_backoffs"];
    proof {
        assert(lits_view(keys@) =~= placement_keys());
        assert(lits_view(optional@) =~= seq!["newest_observation_unix_secs"@]);
        assert(lits_view(states@) =~= seq!["empty"@, "ready"@]);
        assert(lits_view(counts@) =~= placement_counts());
    }
    exact_keys(value, &keys, &optional, "cache status distributed placement history")?;
    if !field_one_of(value, "state", &states) {
        return Err(rejection("cache status placement history state is invalid"));
    }
    require_uint_fields(value, &counts, "cache status placement history")?;
    require_optional_u64(entry(value, "newest_observation_unix_secs"),
        "cache status placement history.newest_observation_unix_secs")
}

pub open spec fn setup_keys() -> Seq<Seq<char>> {
    seq!["schema_version"@, "command"@, "mode"@, "result"@, "exit_code"@, "changed"@, "config_path"@,
        "config_field"@, "config_action"@, "wrapper_path"@, "receipt_path"@, "private_state_action"@,
        "profile_id"@, "cache_base"@, "max_bytes"@, "remote"@, "root_portability"@, "distributed"@,
        "distributed_policy"@, "pending"@]
}

pub open spec fn setup_strings() -> Seq<Seq<char>> {
    seq!["config_path"@, "config_action"@, "wrapper_path"@, "receipt_path"@, "private_state_action"@,
        "profile_id"@, "cache_base"@]
}

pub open spec fn distributed_modes() -> Seq<Seq<char>> {
    seq!["local_process_qualification_v1"@, "mutual_tls_direct_v1"@]
}

pub open spec fn distributed_policies() -> Seq<Seq<char>> {
    seq!["automatic"@, "qualification"@]
}

/// A remote description whose mode is the requested one and whose direct transport is active.
pub open spec fn active_remote(o: Seq<(Seq<char>, JsonV)>, mode: Seq<char>) -> bool {
    find(o, "remote"@) matches Some(r) && remote_ok(r) && text_under(r, "mode"@) == mode
        && text_under(r, "activation"@) == "direct_transport_selected"@
}

/// An applied cache setup: nothing pending, the wrapper configured, the requested root portability,
/// mode and positive byte bound, and an active remote transport.
pub open spec fn setup_ok(v: JsonV, mode: Seq<char>, root_portability: Seq<char>, max_bytes: u64) -> bool {
    &&& envelope_ok(v, "cache"@, "setup"@, "success"@)
    &&& v matches JsonV::Object(o) && {
        &&& keys_exact(o, setup_keys(), seq![])
        &&& val_at(o, "pending"@) == JsonV::Bool(false)
        &&& val_at(o, "changed"@) is Bool
        &&& string_fields(o, setup_strings())
        &&& val_at(o, "config_field"@) == JsonV::Str("build.rustc-wrapper"@)
        &&& optional_enum_ok(find(o, "distributed"@), distributed_modes())
        &&& optional_enum_ok(find(o, "distributed_policy"@), distributed_policies())
        &&& val_at(o, "root_portability"@) == JsonV::Str(root_portability)
        &&& active_remote(o, mode)
        &&& val_at(o, "max_bytes"@) == JsonV::UInt(max_bytes) && max_bytes > 0
    }
}

/// The remote state of a document's `remote` entry, with the requested mode and active transport.
fn active_remote_state(object: &Vec<(String, Json)>, mode: &str, subject: &str, mode_message: &str)
    -> (r: Result<RemoteState, ActionError>)
    ensures
        r is Ok <==> active_remote(entries_view(object@), mode@),
        r matches Ok(state) ==> (find(entries_view(object@), "remote"@) matches Some(v) && remote_matches(state, v)),
        r matches Err(e) ==> e.kind == ErrorKind::Rejected,
{
    let remote = remote_state(entry(object, "remote"), subject)?;
    if !str_eq(remote.mode.as_str(), mode) {
        return Err(rejection(mode_message));
    }
    if !str_eq(remote.activation.as_str(), "direct_transport_selected") {
        return Err(rejection("Cargo-Rail remote cache transport is not active"));
    }
    Ok(remote)
}

/// Checks the response of an applied cache setup against the requested mode, root portability and
/// byte bound, and returns its remote state and byte bound.
pub fn validate_setup(value: &Json, mode: &str, root_portability: &str, max_bytes: u64)
    -> (r: Result<(RemoteState, u64), ActionError>)
    ensures
        r is Ok <==> setup_ok(value@, mode@, root_portability@, max_bytes),
        r matches Ok((state, bytes)) ==> bytes == max_bytes && (find(value@->Object_0, "remote"@) matches Some(v)
            && remote_matches(state, v)),
        r matches Err(e) ==> e.kind == ErrorKind::Rejected,
{
    let object = machine_envelope(value, "cache", "setup", "success", "cache setup")?;
    let keys: [&str; 20] = ["schema_version", "command", "mode", "result", "exit_code", "changed", "config_path",
        "config_field", "config_action", "wrapper_path", "receipt_path", "private_state_action", "profile_id",
        "cache_base", "max_bytes", "remote", "root_portability", "distributed", "distributed_policy", "pending"];
    let strings: [&str; 7] = ["config_path", "config_action", "wrapper_path", "receipt_path", "private_state_action",
        "profile_id", "cache_base"];
    let modes: [&str; 2] = ["local_process_qualification_v1", "mutual_tls_direct_v1"];
    let policies: [&str; 2] = ["automatic", "qualification"];
    let none: [&str; 0] = [];
    proof {
        assert(lits_view(keys@) =~= setup_keys());
        assert(lits_view(strings@) =~= setup_strings());
        assert(lits_view(modes@) =~= distributed_modes());
        assert(lits_view(policies@) =~= distributed_policies());
        assert(lits_view(none@) =~= seq![]);
    }
    exact_keys(object, &keys, &none, "cache setup envelope")?;
    let pending_false = match entry(object, "pending") {
        Some(v) => match v.as_bool() {
            Some(b) => !b,
            None => false,
        },
        None => false,
    };
    if !pending_false {
        return Err(rejection("cache setup reported pending changes after apply"));
    }
    let changed = match entry(object, "changed") {
        Some(v) => v.as_bool().is_some(),
        None => false,
    };
    if !changed {
        return Err(rejection("cache setup changed flag is invalid"));
    }
    require_string_fields(object, &strings, "cache setup")?;
    if !field_is(object, "config_field", "build.rustc-wrapper") {
        return Err(rejection("cache setup config field is invalid"));
    }
    require_optional_enum(entry(object, "distributed"), &modes, "cache setup distributed mode")?;
    require_optional_enum(entry(object, "distributed_policy"), &policies, "cache setup distributed policy")?;
    if !field_is(object, "root_portability", root_portability) {
        return Err(rejection("cache setup root portability disagrees with input"));
    }
    let remote = active_remote_state(object, mode, "cache setup remote", "cache setup remote mode disagrees with input")?;
    let bytes = match entry(object, "max_bytes") {
        Some(v) => match v.as_u64() {
            Some(n) => if n > 0 {
                n
            } else {
                return Err(rejection("cache setup max_bytes is missing or invalid"));
            },
            None => return Err(rejection("cache setup max_bytes is missing or invalid")),
        },
        None => return Err(rejection("cache setup max_bytes is missing or invalid")),
    };
    if bytes != max_bytes {
        return Err(rejection("cache setup byte bound disagrees with input"));
    }
    Ok((remote, bytes))
}

pub open spec fn installation_required() -> Seq<Seq<char>> {
    seq!["state"@, "healthy"@, "cargo_home"@, "config_path"@, "selection_source"@, "cargo_l0"@, "usage"@, "issues"@]
}

pub open spec fn installation_optional() -> Seq<Seq<char>> {
    seq!["wrapper_path"@, "profile_id"@, "bound_workspace_root"@, "trust_domain"@, "cache_base"@, "max_bytes"@,
        "root_portability"@, "distributed"@, "distributed_policy"@, "distributed_placement_history"@]
}

pub open spec fn installation_strings() -> Seq<Seq<char>> {
    seq!["cargo_home"@, "config_path"@, "wrapper_path"@, "profile_id"@, "bound_workspace_root"@, "trust_domain"@,
        "selection_source"@, "cache_base"@, "cargo_l0"@]
}

/// Every item is a string.
pub open spec fn all_strings(v: JsonV) -> bool {
    v matches JsonV::Array(a) && forall|i: int| 0 <= i < a.len() ==> (#[trigger] a[i]) is Str
}

/// The byte bound of an installation, when it is a positive integer.
pub open spec fn installation_bound(ins: Seq<(Seq<char>, JsonV)>) -> Option<u64> {
    match find(ins, "max_bytes"@) {
        Some(JsonV::UInt(n)) => if n > 0 { Some(n) } else { None },
        _ => None,
    }
}

/// A healthy installed cache integration with the requested root portability, a positive byte
/// bound, valid usage, string issues and valid distributed settings.
pub open spec fn installation_ok(ins: Seq<(Seq<char>, JsonV)>, root_portability: Seq<char>) -> bool {
    &&& keys_exact(ins, installation_required(), installation_optional())
    &&& val_at(ins, "state"@) == JsonV::Str("installed"@)
    &&& val_at(ins, "healthy"@) == JsonV::Bool(true)
    &&& string_fields(ins, installation_strings())
    &&& find(ins, "root_portability"@) == Some(JsonV::Str(root_portability))
    &&& installation_bound(ins) is Some
    &&& obj_at(ins, "usage"@) matches Some(u) && usage_ok(u)
    &&& all_strings(val_at(ins, "issues"@))
    &&& optional_enum_ok(find(ins, "distributed"@), distributed_modes())
    &&& optional_enum_ok(find(ins, "distributed_policy"@), distributed_policies())
    &&& find(ins, "distributed_placement_history"@) matches Some(h) ==> (h is Null || (h matches JsonV::Object(p)
        && placement_ok(p)))
}

/// A local cache status of schema 16: a valid installation, local cache and active remote, with the
/// requested mode and byte bound.
pub open spec fn status_ok(v: JsonV, mode: Seq<char>, root_portability: Seq<char>, max_bytes: u64) -> bool {
    &&& envelope_ok(v, "cache"@, "status"@, "success"@)
    &&& v matches JsonV::Object(o) && {
        &&& keys_exact(o, seq!["schema_version"@, "command"@, "mode"@, "result"@, "exit_code"@, "scope"@, "status"@],
            seq![])
        &&& val_at(o, "scope"@) == JsonV::Str("local"@)
        &&& obj_at(o, "status"@) matches Some(st) && {
            &&& keys_exact(st, seq!["schema_version"@, "installation"@, "local"@, "remote"@], seq![])
            &&& val_at(st, "schema_version"@) == JsonV::UInt(16)
            &&& obj_at(st, "installation"@) matches Some(ins) && installation_ok(ins, root_portability)
                && installation_bound(ins) == Some(max_bytes)
            &&& obj_at(st, "local"@) matches Some(l) && local_ok(l)
            &&& active_remote(st, mode)
        }
    }
}

/// Everything a local cache status must be but its byte bound: the bound it gives, whatever it is.
pub open spec fn status_bound(v: JsonV, mode: Seq<char>, root_portability: Seq<char>) -> Option<u64> {
    match v {
        JsonV::Object(o) => match obj_at(o, "status"@) {
            Some(st) => match obj_at(st, "installation"@) {
                Some(ins) => if envelope_ok(v, "cache"@, "status"@, "success"@) && keys_exact(
                    o,
                    seq!["schema_version"@, "command"@, "mode"@, "result"@, "exit_code"@, "scope"@, "status"@],
                    seq![],
                ) && val_at(o, "scope"@) == JsonV::Str("local"@) && keys_exact(
                    st,
                    seq!["schema_version"@, "installation"@, "local"@, "remote"@],
                    seq![],
                ) && val_at(st, "schema_version"@) == JsonV::UInt(16) && installation_ok(ins, root_portability) && (
                obj_at(st, "local"@) matches Some(l) && local_ok(l)) && active_remote(st, mode) {
                    installation_bound(ins)
                } else {
                    None
                },
                None => None,
            },
            None => None,
        },
        _ => None,
    }
}

/// Whether every item of the array under `field` is a string.
#[verifier::loop_isolation(false)]
fn strings_only(object: &Vec<(String, Json)>, field: &str) -> (r: bool)
    ensures
        r == all_strings(val_at(entries_view(object@), field@)),
{
    let items = match entry(object, field) {
        Some(v) => match v.as_array() {
            Some(a) => a,
            None => return false,
        },
        None => return false,
    };
    proof {
        lemma_items(items@, items@.len());
    }
    let mut i: usize = 0;
    while i < items.len()
        invariant
            i <= items@.len(),
            forall|k: int| 0 <= k < i ==> (#[trigger] items_view(items@)[k]) is Str,
        decreases items@.len() - i,
    {
        proof {
            assert(items_view(items@)[i as int] == items@[i as int]@);
        }
        if items[i].as_str().is_none() {
            return false;
        }
        i = i + 1;
    }
    true
}

/// Checks the installation of a status and returns its byte bound.
fn validate_installation(installation: &Vec<(String, Json)>, root_portability: &str) -> (r: Result<u64, ActionError>)
    ensures
        r is Ok <==> installation_ok(entries_view(installation@), root_portability@),
        r matches Ok(n) ==> installation_bound(entries_view(installation@)) == Some(n),
        r matches Err(e) ==> e.kind == ErrorKind::Rejected,
{
    let required: [&str; 8] = ["state", "healthy", "cargo_home", "config_path", "selection_source", "cargo_l0", "usage",
        "issues"];
    let optional: [&str; 10] = ["wrapper_path", "profile_id", "bound_workspace_root", "trust_domain", "cache_base",
        "max_bytes", "root_portability", "distributed", "distributed_policy", "distributed_placement_history"];
    let strings: [&str; 9] = ["cargo_home", "config_path", "wrapper_path", "profile_id", "bound_workspace_root",
        "trust_domain", "selection_source", "cache_base", "cargo_l0"];
    let modes: [&str; 2] = ["local_process_qualification_v1", "mutual_tls_direct_v1"];
    let policies: [&str; 2] = ["automatic", "qualification"];
    proof {
        assert(lits_view(required@) =~= installation_required());
        assert(lits_view(optional@) =~= installation_optional());
        assert(lits_view(strings@) =~= installation_strings());
        assert(lits_view(modes@) =~= distributed_modes());
        assert(lits_view(policies@) =~= distributed_policies());
    }
    exact_keys(installation, &required, &optional, "cache status installation")?;
    if !field_is(installation, "state", "installed") {
        return Err(rejection("Cargo-Rail cache integration is not installed"));
    }
    let healthy = match entry(installation, "healthy") {
        Some(v) => match v.as_bool() {
            Some(b) => b,
            None => false,
        },
        None => false,
    };
    if !healthy {
        return Err(rejection("Cargo-Rail cache integration is unhealthy"));
    }
    require_string_fields(installation, &strings, "cache status installation")?;
    if !field_is_str(installation, "root_portability", root_portability) {
        return Err(rejection("cache status root portability disagrees with input"));
    }
    let max_bytes = match entry(installation, "max_bytes") {
        Some(v) => match v.as_u64() {
            Some(n) => if n > 0 {
                n
            } else {
                return Err(rejection("cache status max_bytes is missing or invalid"));
            },
            None => return Err(rejection("cache status max_bytes is missing or invalid")),
        },
        None => return Err(rejection("cache status max_bytes is missing or invalid")),
    };
    let usage = crate::validation::object_field(installation, "usage", "cache status installation")?;
    validate_usage(usage)?;
    if !strings_only(installation, "issues") {
        return Err(rejection("cache status issues must be an array of strings"));
    }
    require_optional_enum(entry(installation, "distributed"), &modes, "cache status installation.distributed")?;
    require_optional_enum(entry(installation, "distributed_policy"), &policies,
        "cache status installation.distributed_policy")?;
    match entry(installation, "distributed_placement_history") {
        None => {},
        Some(history) => {
            if !history.is_null() {
                match history.as_object() {
                    Some(p) => validate_placement_history(p)?,
                    None => return Err(rejection("cache status distributed placement history is invalid")),
                }
            }
        },
    }
    Ok(max_bytes)
}

/// Checks a local cache status against the requested mode, root portability and byte bound, and
/// returns its remote state and byte bound.
pub fn validate_status_contract(value: &Json, mode: &str, root_portability: &str, expected_max_bytes: u64)
    -> (r: Result<(RemoteState, u64), ActionError>)
    ensures
        r is Ok <==> status_ok(value@, mode@, root_portability@, expected_max_bytes),
        r matches Ok((state, bytes)) ==> bytes == expected_max_bytes && (find(obj_at(value@->Object_0,
            "status"@)->0, "remote"@) matches Some(v) && remote_matches(state, v)),
        r matches Err(e) ==> e.kind == ErrorKind::Rejected,
        envelope_ok(value@, "cache"@, "status"@, "success"@) && keys_exact(value@->Object_0, seq!["schema_version"@,
            "command"@, "mode"@, "result"@, "exit_code"@, "scope"@, "status"@], seq![]) && val_at(value@->Object_0,
            "scope"@) != JsonV::Str("local"@) ==> (r matches Err(e) && e.message@ == "cache status scope is not local"@),
        envelope_ok(value@, "cache"@, "status"@, "success"@) && keys_exact(value@->Object_0, seq!["schema_version"@,
            "command"@, "mode"@, "result"@, "exit_code"@, "scope"@, "status"@], seq![]) && val_at(value@->Object_0,
            "scope"@) == JsonV::Str("local"@) && (obj_at(value@->Object_0, "status"@) matches Some(st) && keys_exact(
            st,
            seq!["schema_version"@, "installation"@, "local"@, "remote"@],
            seq![],
        ) && val_at(st, "schema_version"@) != JsonV::UInt(16)) ==> (r matches Err(e) && e.message@
            == "cache status schema_version must be 16"@),
        envelope_ok(value@, "cache"@, "status"@, "success"@) && !keys_exact(value@->Object_0, seq!["schema_version"@,
            "command"@, "mode"@, "result"@, "exit_code"@, "scope"@, "status"@], seq![]) ==> (r matches Err(e)
            && crate::validation::keys_message(
            value@->Object_0,
            seq!["schema_version"@, "command"@, "mode"@, "result"@, "exit_code"@, "scope"@, "status"@],
            seq![],
            "cache status envelope"@,
            e.message@,
        )),
        envelope_ok(value@, "cache"@, "status"@, "success"@) && keys_exact(value@->Object_0, seq!["schema_version"@,
            "command"@, "mode"@, "result"@, "exit_code"@, "scope"@, "status"@], seq![]) && val_at(value@->Object_0,
            "scope"@) == JsonV::Str("local"@) && (obj_at(value@->Object_0, "status"@) matches Some(st) && !keys_exact(
            st,
            seq!["schema_version"@, "installation"@, "local"@, "remote"@],
            seq![],
        )) ==> (r matches Err(e) && crate::validation::keys_message(
            obj_at(value@->Object_0, "status"@)->0,
            seq!["schema_version"@, "installation"@, "local"@, "remote"@],
            seq![],
            "cache status"@,
            e.message@,
        )),
        status_bound(value@, mode@, root_portability@) matches Some(n) && n != expected_max_bytes ==> (r matches Err(
            e,
        ) && e.message@ == "cache status byte bound disagrees with input"@),
{
    let object = machine_envelope(value, "cache", "status", "success", "cache status")?;
    let keys: [&str; 7] = ["schema_version", "command", "mode", "result", "exit_code", "scope", "status"];
    let status_keys: [&str; 4] = ["schema_version", "installation", "local", "remote"];
    let none: [&str; 0] = [];
    proof {
        assert(lits_view(keys@) =~= seq!["schema_version"@, "command"@, "mode"@, "result"@, "exit_code"@, "scope"@,
            "status"@]);
        assert(lits_view(status_keys@) =~= seq!["schema_version"@, "installation"@, "local"@, "remote"@]);
        assert(lits_view(none@) =~= seq![]);
    }
    exact_keys(object, &keys, &none, "cache status envelope")?;
    if !field_is(object, "scope", "local") {
        return Err(rejection("cache status scope is not local"));
    }
    let status = crate::validation::object_field(object, "status", "cache status")?;
    exact_keys(status, &status_keys, &none, "cache status")?;
    if !field_is_uint(status, "schema_version", 16) {
        return Err(rejection("cache status schema_version must be 16"));
    }
    let installation = crate::validation::object_field(status, "installation", "cache status")?;
    let max_bytes = validate_installation(installation, root_portability)?;
    let local = crate::validation::object_field(status, "local", "cache status")?;
    validate_local(local)?;
    let remote = active_remote_state(status, mode, "cache status remote", "cache status remote mode disagrees with input")?;
    if max_bytes != expected_max_bytes {
        return Err(rejection("cache status byte bound disagrees with input"));
    }
    Ok((remote, max_bytes))
}

/// A ready remote cache probe with a known protocol marker and a valid remote.
pub open spec fn probe_ok(v: JsonV) -> bool {
    &&& envelope_ok(v, "cache"@, "probe"@, "ready"@)
    &&& v matches JsonV::Object(o) && {
        &&& keys_exact(o, seq!["schema_version"@, "command"@, "mode"@, "result"@, "exit_code"@, "ready"@,
            "protocol_marker"@, "remote"@], seq![])
        &&& val_at(o, "ready"@) == JsonV::Bool(true)
        &&& one_of(val_at(o, "protocol_marker"@), seq!["existing"@, "initialized"@])
        &&& find(o, "remote"@) matches Some(r) && remote_ok(r)
    }
}

/// Checks a remote cache probe and returns its remote state.
pub fn validate_probe(value: &Json) -> (r: Result<RemoteState, ActionError>)
    ensures
        r is Ok <==> probe_ok(value@),
        r matches Ok(state) ==> (find(value@->Object_0, "remote"@) matches Some(v) && remote_matches(state, v)),
        r matches Err(e) ==> e.kind == ErrorKind::Rejected,
{
    let object = machine_envelope(value, "cache", "probe", "ready", "cache probe")?;
    let keys: [&str; 8] = ["schema_version", "command", "mode", "result", "exit_code", "ready", "protocol_marker",
        "remote"];
    let markers: [&str; 2] = ["existing", "initialized"];
    let none: [&str; 0] = [];
    proof {
        assert(lits_view(keys@) =~= seq!["schema_version"@, "command"@, "mode"@, "result"@, "exit_code"@, "ready"@,
            "protocol_marker"@, "remote"@]);
        assert(lits_view(markers@) =~= seq!["existing"@, "initialized"@]);
        assert(lits_view(none@) =~= seq![]);
    }
    exact_keys(object, &keys, &none, "cache probe envelope")?;
    let ready = match entry(object, "ready") {
        Some(v) => match v.as_bool() {
            Some(b) => b,
            None => false,
        },
        None => false,
    };
    if !ready {
        return Err(rejection("cache probe is not ready"));
    }
    if !field_one_of(object, "protocol_marker", &markers) {
        return Err(rejection("cache probe protocol marker is invalid"));
    }
    remote_state(entry(object, "remote"), "cache probe remote")
}

/// The inputs of the cache action.
pub struct CacheInputs {
    pub remote: String,
    pub mode: String,
    pub max_size: String,
    pub max_bytes: u64,
    pub local_dir: Option<String>,
    pub root_portability: String,
    pub verify_remote: bool,
    pub version: String,
}

/// One line of at most 4 KiB with no NUL byte.
pub open spec fn one_bounded_line(s: Seq<char>) -> bool {
    &&& crate::text::byte_len(s) <= 4096
    &&& !crate::text::has_char(s, '\r')
    &&& !crate::text::has_char(s, '\n')
    &&& !crate::text::has_char(s, '\0')
}

/// Valid cache action inputs: a remote URL line, a mode, a cache size, an optional local directory
/// line, a root portability, `true` or `false` for remote verification, and a Cargo-Rail 0.26
/// release.
pub open spec fn cache_inputs_ok(remote: Seq<char>, mode: Seq<char>, max_size: Seq<char>, local_dir: Seq<char>,
    root_portability: Seq<char>, verify_remote: Seq<char>, version: Seq<char>) -> bool {
    &&& remote.len() > 0 && one_bounded_line(remote)
    &&& seq!["read"@, "read-write"@].contains(mode)
    &&& crate::cache::spec_parse_cache_size(max_size) is Ok
    &&& one_bounded_line(local_dir)
    &&& seq!["physical"@, "remap"@].contains(root_portability)
    &&& seq!["true"@, "false"@].contains(verify_remote)
    &&& crate::install::spec_valid_cargo_rail_version(version)
}

/// Whether a text is one line of at most 4 KiB with no NUL byte.
fn bounded_line(s: &str) -> (r: bool)
    ensures
        r == one_bounded_line(s@),
{
    let chars = crate::text::chars_of(s);
    s.as_bytes().len() <= 4096 && !crate::text::contains_char(&chars, '\r') && !crate::text::contains_char(&chars, '\n')
        && !crate::text::contains_char(&chars, '\0')
}

impl CacheInputs {
    /// The cache action inputs from the values the runner gives; an empty local directory means
    /// none.
    pub fn load(remote: String, mode: String, max_size: String, local_dir: String, root_portability: String,
        verify_remote: String, version: String) -> (r: Result<CacheInputs, ActionError>)
        ensures
            r is Ok <==> cache_inputs_ok(remote@, mode@, max_size@, local_dir@, root_portability@, verify_remote@,
                version@),
            r matches Ok(i) ==> i.remote@ == remote@ && i.mode@ == mode@ && i.max_size@ == max_size@
                && crate::cache::spec_parse_cache_size(max_size@) == Ok::<u64, Seq<char>>(i.max_bytes)
                && (if local_dir@.len() == 0 { i.local_dir is None } else { i.local_dir matches Some(d) && d@ == local_dir@ })
                && i.root_portability@ == root_portability@ && i.verify_remote == (verify_remote@ == "true"@)
                && i.version@ == version@,
            r matches Err(e) ==> e.kind == ErrorKind::Rejected,
    {
        let modes: [&str; 2] = ["read", "read-write"];
        let portability: [&str; 2] = ["physical", "remap"];
        proof {
            assert(lits_view(modes@) =~= seq!["read"@, "read-write"@]);
            assert(lits_view(portability@) =~= seq!["physical"@, "remap"@]);
        }
        if remote.as_str().is_empty() || !bounded_line(remote.as_str()) {
            return Err(rejection("remote must be one non-empty URL no longer than 4 KiB"));
        }
        if !lit_in(&modes, mode.as_str()) {
            return Err(rejection("mode must be explicitly set to read or read-write"));
        }
        let max_bytes = crate::cache::parse_cache_size(max_size.as_str())?;
        if !bounded_line(local_dir.as_str()) {
            return Err(rejection("local-dir must be one path no longer than 4 KiB"));
        }
        if !lit_in(&portability, root_portability.as_str()) {
            return Err(rejection("root-portability must be physical or remap"));
        }
        let verify = if str_eq(verify_remote.as_str(), "true") {
            true
        } else if str_eq(verify_remote.as_str(), "false") {
            false
        } else {
            proof {
                assert(!seq!["true"@, "false"@].contains(verify_remote@)) by {
                    if seq!["true"@, "false"@].contains(verify_remote@) {
                        let k = choose|k: int| 0 <= k < 2 && seq!["true"@, "false"@][k] == verify_remote@;
                    }
                }
            }
            return Err(rejection("verify-remote must be true or false"));
        };
        crate::install::validate_cargo_rail_version(version.as_str())?;
        let local = if local_dir.as_str().is_empty() { None } else { Some(local_dir) };
        Ok(CacheInputs {
            remote,
            mode,
            max_size,
            max_bytes,
            local_dir: local,
            root_portability,
            verify_remote: verify,
            version,
        })
    }
}

/// A working directory: one non-empty line of at most 4 KiB.
pub open spec fn working_directory_ok(s: Seq<char>) -> bool {
    &&& s.len() > 0
    &&& crate::text::byte_len(s) <= 4096
    &&& !crate::text::has_char(s, '\r')
    &&& !crate::text::has_char(s, '\n')
}

/// Rejects a working directory that is empty, longer than 4 KiB or more than one line.
pub fn validate_working_directory(working: &str) -> (r: Result<(), ActionError>)
    ensures
        r is Ok <==> working_directory_ok(working@),
        r matches Err(e) ==> e.kind == ErrorKind::Rejected,
{
    let chars = crate::text::chars_of(working);
    if working.is_empty() || working.as_bytes().len() > 4096 || crate::text::contains_char(&chars, '\r')
        || crate::text::contains_char(&chars, '\n') {
        return Err(rejection("working-directory must be one path no longer than 4 KiB"));
    }
    Ok(())
}

/// The argv of `cargo rail` that applies the cache setup.
pub open spec fn setup_argv(i: CacheInputs) -> Seq<Seq<char>> {
    seq!["rail"@, "cache"@, "setup"@, "--remote"@, i.remote@, "--remote-mode"@, i.mode@, "--max-size"@, i.max_size@,
        "--root-portability"@, i.root_portability@] + match i.local_dir {
        Some(d) => seq!["--local-dir"@, d@],
        None => seq![],
    } + seq!["-f"@, "json"@]
}

/// The argv of `cargo rail` that applies the cache setup.
pub fn setup_arguments(inputs: &CacheInputs) -> (r: Vec<String>)
    ensures
        crate::validation::strs_view(r@) == setup_argv(*inputs),
{
    let mut args: Vec<String> = vec!["rail".to_owned(), "cache".to_owned(), "setup".to_owned(), "--remote".to_owned(),
        inputs.remote.as_str().to_owned(), "--remote-mode".to_owned(), inputs.mode.as_str().to_owned(),
        "--max-size".to_owned(), inputs.max_size.as_str().to_owned(), "--root-portability".to_owned(),
        inputs.root_portability.as_str().to_owned()];
    match &inputs.local_dir {
        Some(d) => {
            args.push("--local-dir".to_owned());
            args.push(d.as_str().to_owned());
        },
        None => {},
    }
    args.push("-f".to_owned());
    args.push("json".to_owned());
    proof {
        assert(crate::validation::strs_view(args@) =~= setup_argv(*inputs));
    }
    args
}

/// The state of the cache action after setup and status agree: the remote and the byte bound.
pub struct CacheReady {
    pub remote: RemoteState,
    pub max_bytes: u64,
}

/// The cache setup and status agree on the remote and on the byte bound.
pub open spec fn setup_status_agree(setup: JsonV, status: JsonV) -> bool {
    let a = find(setup->Object_0, "remote"@)->0;
    let b = find(obj_at(status->Object_0, "status"@)->0, "remote"@)->0;
    &&& text_under(a, "provider"@) == text_under(b, "provider"@)
    &&& text_under(a, "authority"@) == text_under(b, "authority"@)
    &&& text_under(a, "mode"@) == text_under(b, "mode"@)
    &&& text_under(a, "activation"@) == text_under(b, "activation"@)
}

/// Checks the setup and status responses of the cache action and correlates them; every failure is
/// an operational failure after setup.
pub fn settle_setup_and_status(inputs: &CacheInputs, setup: &Json, status: &Json) -> (r: Result<CacheReady, ActionError>)
    ensures
        r is Ok <==> setup_ok(setup@, inputs.mode@, inputs.root_portability@, inputs.max_bytes)
            && status_ok(status@, inputs.mode@, inputs.root_portability@, inputs.max_bytes)
            && setup_status_agree(setup@, status@),
        r matches Ok(ready) ==> ready.max_bytes == inputs.max_bytes && remote_matches(ready.remote,
            find(obj_at(status@->Object_0, "status"@)->0, "remote"@)->0),
        r matches Err(e) ==> e.kind == ErrorKind::Operational,
{
    let (setup_remote, setup_bytes) = match validate_setup(setup, inputs.mode.as_str(), inputs.root_portability.as_str(),
        inputs.max_bytes) {
        Ok(v) => v,
        Err(e) => return Err(crate::cache::after_setup(e, "cache setup response validation")),
    };
    let (status_remote, status_bytes) = match validate_status_contract(status, inputs.mode.as_str(),
        inputs.root_portability.as_str(), inputs.max_bytes) {
        Ok(v) => v,
        Err(e) => return Err(crate::cache::after_setup(e, "cache status validation")),
    };
    if let Err(e) = crate::cache::require_remote_match(&setup_remote, &status_remote, "cache setup and status") {
        return Err(crate::cache::after_setup(e, "cache authority correlation"));
    }
    if setup_bytes != status_bytes {
        return Err(crate::cache::after_setup(rejection("cache setup and status disagree on the local byte bound"),
            "cache byte-bound correlation"));
    }
    Ok(CacheReady { remote: status_remote, max_bytes: status_bytes })
}

/// Checks the remote probe against the remote the status reported; every failure is an
/// operational failure after setup.
pub fn settle_probe(ready: &CacheReady, probe: &Json) -> (r: Result<(), ActionError>)
    ensures
        r is Ok <==> probe_ok(probe@) && ({
            let v = find(probe@->Object_0, "remote"@)->0;
            &&& ready.remote.provider@ == text_under(v, "provider"@)
            &&& ready.remote.authority@ == text_under(v, "authority"@)
            &&& ready.remote.mode@ == text_under(v, "mode"@)
            &&& ready.remote.activation@ == text_under(v, "activation"@)
        }),
        r matches Err(e) ==> e.kind == ErrorKind::Operational,
{
    let probe_remote = match validate_probe(probe) {
        Ok(v) => v,
        Err(e) => return Err(crate::cache::after_setup(e, "remote cache verification")),
    };
    match crate::cache::require_remote_match(&ready.remote, &probe_remote, "cache status and probe") {
        Ok(()) => Ok(()),
        Err(e) => Err(crate::cache::after_setup(e, "remote cache verification")),
    }
}

/// The public status of the cache action: schema, Cargo-Rail version, provider, mode, byte bound,
/// root portability and whether the remote was verified, in that field order.
pub open spec fn projection(inputs: CacheInputs, ready: CacheReady, verified: bool) -> JsonV {
    JsonV::Object(seq![("schema_version"@, JsonV::UInt(1)), ("cargo_rail"@, JsonV::Str(inputs.version@)),
        ("provider"@, JsonV::Str(ready.remote.provider@)), ("mode"@, JsonV::Str(ready.remote.mode@)),
        ("max_bytes"@, JsonV::UInt(ready.max_bytes)), ("root_portability"@, JsonV::Str(inputs.root_portability@)),
        ("remote_verification"@, JsonV::Str(if verified { "verified"@ } else { "not_requested"@ }))])
}

/// The compact JSON of the public status of the cache action.
pub fn status_projection(inputs: &CacheInputs, ready: &CacheReady, verified: bool) -> (r: Vec<u8>)
    ensures
        r@ == crate::json::encode(projection(*inputs, *ready, verified)),
{
    let verification = if verified { "verified" } else { "not_requested" };
    let entries: Vec<(String, Json)> = vec![
        ("schema_version".to_owned(), Json::UInt(1)),
        ("cargo_rail".to_owned(), Json::Str(inputs.version.as_str().to_owned())),
        ("provider".to_owned(), Json::Str(ready.remote.provider.as_str().to_owned())),
        ("mode".to_owned(), Json::Str(ready.remote.mode.as_str().to_owned())),
        ("max_bytes".to_owned(), Json::UInt(ready.max_bytes)),
        ("root_portability".to_owned(), Json::Str(inputs.root_portability.as_str().to_owned())),
        ("remote_verification".to_owned(), Json::Str(verification.to_owned())),
    ];
    proof {
        lemma_entries(entries@, 7);
        assert(entries_view(entries@) =~= projection(*inputs, *ready, verified)->Object_0);
    }
    crate::json::to_bytes(&Json::Object(entries))
}

/// The line the cache action prints once ready.
pub open spec fn ready_text(ready: CacheReady, verified: bool) -> Seq<char> {
    "Cargo-Rail cache ready: "@ + crate::cache::spec_provider_display(ready.remote.provider@) + ", "@
        + (if ready.remote.mode@ == "read"@ { "read-only"@ } else { "read-write"@ }) + ", "@
        + crate::cache::spec_human_bytes(ready.max_bytes) + " local, remote "@
        + (if verified { "verified"@ } else { "not checked"@ })
}

/// The line the cache action prints once ready.
pub fn ready_line(ready: &CacheReady, verified: bool) -> (r: String)
    ensures
        r@ == ready_text(*ready, verified),
{
    let mut line = "Cargo-Rail cache ready: ".to_owned();
    push_str(&mut line, crate::cache::provider_display(ready.remote.provider.as_str()));
    push_str(&mut line, ", ");
    push_str(&mut line, if str_eq(ready.remote.mode.as_str(), "read") { "read-only" } else { "read-write" });
    push_str(&mut line, ", ");
    push_str(&mut line, crate::cache::human_bytes(ready.max_bytes).as_str());
    push_str(&mut line, " local, remote ");
    push_str(&mut line, if verified { "verified" } else { "not checked" });
    line
}


/// `flag` stands in the argv directly followed by `value`.
pub open spec fn passes_flag(argv: Seq<Seq<char>>, flag: Seq<char>, value: Seq<char>) -> bool {
    exists|k: int| 0 <= k && k + 1 < argv.len() && #[trigger] argv[k] == flag && argv[k + 1] == value
}

/// Every cache input reaches the setup argv: the remote, the remote mode, the size limit and
/// the root portability each follow their flag, and so does the local directory when one is
/// given. The argv starts with `rail cache setup` and ends asking for JSON.
pub proof fn law_setup_argv_passes_every_input(i: CacheInputs)
    ensures
        setup_argv(i).take(3) == seq!["rail"@, "cache"@, "setup"@],
        setup_argv(i).skip(setup_argv(i).len() - 2) == seq!["-f"@, "json"@],
        passes_flag(setup_argv(i), "--remote"@, i.remote@),
        passes_flag(setup_argv(i), "--remote-mode"@, i.mode@),
        passes_flag(setup_argv(i), "--max-size"@, i.max_size@),
        passes_flag(setup_argv(i), "--root-portability"@, i.root_portability@),
        i.local_dir matches Some(d) ==> passes_flag(setup_argv(i), "--local-dir"@, d@),
{
    let a = setup_argv(i);
    let head = seq!["rail"@, "cache"@, "setup"@, "--remote"@, i.remote@, "--remote-mode"@, i.mode@, "--max-size"@,
        i.max_size@, "--root-portability"@, i.root_portability@];
    let mid: Seq<Seq<char>> = match i.local_dir {
        Some(d) => seq!["--local-dir"@, d@],
        None => seq![],
    };
    assert(a == head + mid + seq!["-f"@, "json"@]);
    assert(a.take(3) =~= seq!["rail"@, "cache"@, "setup"@]);
    assert(a.skip(a.len() - 2) =~= seq!["-f"@, "json"@]);
    assert(a[3] == "--remote"@ && a[4] == i.remote@);
    assert(a[5] == "--remote-mode"@ && a[6] == i.mode@);
    assert(a[7] == "--max-size"@ && a[8] == i.max_size@);
    assert(a[9] == "--root-portability"@ && a[10] == i.root_portability@);
    match i.local_dir {
        Some(d) => {
            assert(a[11] == "--local-dir"@ && a[12] == d@);
        },
        None => {},
    }
}

} // verus!
