//! Independent validation of a Cargo-Rail release record: its schema, the identity of its intent,
//! and the consistency of every retained effect with what the intent authorized.

use vstd::prelude::*;

use crate::digest::{hex_digest, sha256_of};
use crate::error::{rejection, ActionError, ErrorKind};
use crate::install::spec_hex;
use crate::json::{at, encode, entries_view, get, items_view, jv, lemma_entries, lemma_items, Json, JsonV};
use crate::json_nav::{entries, field, is_null, is_text, is_true, items, json_eq, ov, ov_eq, text, uint};
use crate::text::{byte_len, chars_of, decimal, is_ascii_alnum, push_str, starts_with, ends_with};
use crate::validation::strs_view;
use crate::workflow_text::{contains_text, lower_chars, ascii_lower};

verus! {

/// The largest release record, in bytes.
pub const MAX_RECORD_BYTES: u64 = 16777216;

/// The message `jsonschema::validator_for` gives for a schema, after `serde_json` reads its bytes;
/// none when the schema compiles.
pub uninterp spec fn schema_error(schema: Seq<u8>) -> Option<Seq<char>>;

/// The message of the first violation `jsonschema` reports for a document against a compiled
/// schema, both read from their bytes by `serde_json`; none when the document conforms.
pub uninterp spec fn instance_error(schema: Seq<u8>, document: Seq<u8>) -> Option<Seq<char>>;

/// Whether `semver::Version::parse` accepts the text.
pub uninterp spec fn is_semver(text: Seq<char>) -> bool;

/// The view of an optional string.
pub open spec fn opt_text(s: Option<String>) -> Option<Seq<char>> {
    match s {
        Some(t) => Some(t@),
        None => None,
    }
}

/// Reads the schema with `serde_json::from_slice` and compiles it with
/// `jsonschema::validator_for`; trusted to return the message of whichever failed, which depends
/// on the schema bytes alone and is named `schema_error`.
#[verifier::external_body]
fn compile_schema(schema: &[u8]) -> (r: Option<String>)
    ensures
        opt_text(r) == schema_error(schema@),
{
    match serde_json::from_slice::<serde_json::Value>(schema) {
        Ok(value) => jsonschema::validator_for(&value).err().map(|error| error.to_string()),
        Err(error) => Some(error.to_string()),
    }
}

/// Reads both documents with `serde_json::from_slice`, compiles the schema with
/// `jsonschema::validator_for` and checks the document with `Validator::validate`; trusted to
/// return the message of the first violation, which depends on the two byte sequences alone and
/// is named `instance_error`. Its caller has compiled the same schema first.
#[verifier::external_body]
fn check_instance(schema: &[u8], document: &[u8]) -> (r: Option<String>)
    requires
        schema_error(schema@) is None,
    ensures
        opt_text(r) == instance_error(schema@, document@),
{
    let schema = serde_json::from_slice::<serde_json::Value>(schema).map_err(|error| error.to_string());
    let document = serde_json::from_slice::<serde_json::Value>(document).map_err(|error| error.to_string());
    match (schema, document) {
        (Ok(schema), Ok(document)) => match jsonschema::validator_for(&schema) {
            Ok(validator) => validator.validate(&document).err().map(|error| error.to_string()),
            Err(error) => Some(error.to_string()),
        },
        (Err(error), _) | (_, Err(error)) => Some(error),
    }
}

/// Calls `semver::Version::parse`; trusted to accept exactly the texts named `is_semver`, a
/// property of the text alone.
#[verifier::external_body]
fn semver_valid(version: &str) -> (r: bool)
    ensures
        r == is_semver(version@),
{
    semver::Version::parse(version).is_ok()
}

/// Whether a value holds a number that is not an integer anywhere inside it.
pub open spec fn has_float(v: JsonV) -> bool
    decreases v, 0nat,
{
    match v {
        JsonV::Float(_) => true,
        JsonV::Array(xs) => has_float_items(xs, xs.len()),
        JsonV::Object(es) => has_float_entries(es, es.len()),
        _ => false,
    }
}

/// Whether one of the first `n` items holds a non-integer number.
pub open spec fn has_float_items(xs: Seq<JsonV>, n: nat) -> bool
    decreases xs, n,
{
    if n == 0 || n > xs.len() {
        false
    } else {
        has_float_items(xs, (n - 1) as nat) || has_float(xs[n - 1])
    }
}

/// Whether one of the values of the first `n` entries holds a non-integer number.
pub open spec fn has_float_entries(es: Seq<(Seq<char>, JsonV)>, n: nat) -> bool
    decreases es, n,
{
    if n == 0 || n > es.len() {
        false
    } else {
        has_float_entries(es, (n - 1) as nat) || has_float(es[n - 1].1)
    }
}

/// Whether a non-integer number occurs anywhere in the document.
pub fn contains_float(j: &Json) -> (r: bool)
    ensures
        r == has_float(j@),
    decreases j,
{
    match j {
        Json::Float(_) => true,
        Json::Array(xs) => {
            let ghost values = items_view(xs@);
            proof {
                lemma_items(xs@, xs@.len());
            }
            let mut i: usize = 0;
            while i < xs.len()
                invariant
                    i <= xs@.len(),
                    *j == Json::Array(*xs),
                    values == items_view(xs@),
                    values.len() == xs@.len(),
                    forall|k: int| 0 <= k < xs@.len() ==> #[trigger] values[k] == jv(xs@[k]),
                    !has_float_items(values, i as nat),
                decreases xs@.len() - i,
            {
                proof {
                    assert(decreases_to!(*j => (*j)->Array_0));
                    assert(decreases_to!(*xs => xs[i as int]));
                    assert(decreases_to!(*j => xs@[i as int]));
                }
                if contains_float(&xs[i]) {
                    proof {
                        lemma_float_items_mono(values, (i + 1) as nat, values.len());
                    }
                    return true;
                }
                i = i + 1;
            }
            false
        },
        Json::Object(es) => {
            let ghost values = entries_view(es@);
            proof {
                lemma_entries(es@, es@.len());
            }
            let mut i: usize = 0;
            while i < es.len()
                invariant
                    i <= es@.len(),
                    *j == Json::Object(*es),
                    values == entries_view(es@),
                    values.len() == es@.len(),
                    forall|k: int| 0 <= k < es@.len() ==> #[trigger] values[k] == (es@[k].0@, jv(es@[k].1)),
                    !has_float_entries(values, i as nat),
                decreases es@.len() - i,
            {
                proof {
                    assert(decreases_to!(*j => (*j)->Object_0));
                    assert(decreases_to!(*es => es[i as int]));
                    assert(decreases_to!(es[i as int] => es[i as int].1));
                    assert(decreases_to!(*j => es@[i as int].1));
                }
                if contains_float(&es[i].1) {
                    proof {
                        lemma_float_entries_mono(values, (i + 1) as nat, values.len());
                    }
                    return true;
                }
                i = i + 1;
            }
            false
        },
        _ => false,
    }
}

proof fn lemma_float_items_mono(xs: Seq<JsonV>, a: nat, b: nat)
    requires
        a <= b <= xs.len(),
        has_float_items(xs, a),
    ensures
        has_float_items(xs, b),
    decreases b - a,
{
    if a < b {
        lemma_float_items_mono(xs, a, (b - 1) as nat);
    }
}

proof fn lemma_float_entries_mono(es: Seq<(Seq<char>, JsonV)>, a: nat, b: nat)
    requires
        a <= b <= es.len(),
        has_float_entries(es, a),
    ensures
        has_float_entries(es, b),
    decreases b - a,
{
    if a < b {
        lemma_float_entries_mono(es, a, (b - 1) as nat);
    }
}

/// A character of a release asset name or Git alias: ASCII alphanumeric, `.`, `_` or `-`.
pub open spec fn is_name_char(c: char) -> bool {
    is_ascii_alnum(c) || c == '.' || c == '_' || c == '-'
}

/// Windows device names, which no release asset may be named after.
pub open spec fn device_names() -> Seq<Seq<char>> {
    seq![
        "CON"@, "PRN"@, "AUX"@, "NUL"@, "COM1"@, "COM2"@, "COM3"@, "COM4"@, "COM5"@, "COM6"@, "COM7"@, "COM8"@,
        "COM9"@, "LPT1"@, "LPT2"@, "LPT3"@, "LPT4"@, "LPT5"@, "LPT6"@, "LPT7"@, "LPT8"@, "LPT9"@,
    ]
}

/// ASCII uppercase of a text.
pub open spec fn ascii_upper(s: Seq<char>) -> Seq<char> {
    s.map_values(|c: char| if crate::text::is_ascii_lower(c) { ((c as u8 - 32) as u8) as char } else { c })
}

/// A safe release asset file name: 1 to 200 bytes of name characters, starting with an ASCII
/// alphanumeric, not ending with `.`, and whose part before the first `.` is no Windows device
/// name in any case.
pub open spec fn spec_asset_filename(name: Seq<char>) -> bool {
    &&& name.len() > 0
    &&& byte_len(name) <= 200
    &&& is_ascii_alnum(name[0])
    &&& forall|i: int| 0 <= i < name.len() ==> is_name_char(#[trigger] name[i])
    &&& name.last() != '.'
    &&& !device_names().contains(ascii_upper(crate::workflow_text::before_char(name, '.')))
}

fn name_char(c: char) -> (r: bool)
    ensures
        r == is_name_char(c),
{
    ('0' <= c && c <= '9') || ('a' <= c && c <= 'z') || ('A' <= c && c <= 'Z') || c == '.' || c == '_' || c == '-'
}

fn all_name_chars(s: &[char]) -> (r: bool)
    ensures
        r == forall|i: int| 0 <= i < s@.len() ==> is_name_char(#[trigger] s@[i]),
{
    let mut i: usize = 0;
    while i < s.len()
        invariant
            i <= s@.len(),
            forall|k: int| 0 <= k < i ==> is_name_char(#[trigger] s@[k]),
        decreases s@.len() - i,
    {
        if !name_char(s[i]) {
            return false;
        }
        i = i + 1;
    }
    true
}

fn upper_chars(s: &[char]) -> (r: Vec<char>)
    ensures
        r@ == ascii_upper(s@),
{
    let mut out: Vec<char> = Vec::new();
    let mut i: usize = 0;
    while i < s.len()
        invariant
            i <= s@.len(),
            out@ == ascii_upper(s@.take(i as int)),
        decreases s@.len() - i,
    {
        let c = s[i];
        let u = if 'a' <= c && c <= 'z' { (c as u8 - 32u8) as char } else { c };
        out.push(u);
        proof {
            assert(ascii_upper(s@.take(i + 1)) =~= ascii_upper(s@.take(i as int)).push(u));
        }
        i = i + 1;
    }
    proof {
        assert(s@.take(s@.len() as int) =~= s@);
    }
    out
}

/// Whether the name is a safe release asset file name.
pub fn asset_filename(name: &str) -> (r: bool)
    ensures
        r == spec_asset_filename(name@),
{
    let chars = chars_of(name);
    if chars.len() == 0 || name.as_bytes().len() > 200 {
        return false;
    }
    let first = chars[0];
    if !(('0' <= first && first <= '9') || ('a' <= first && first <= 'z') || ('A' <= first && first <= 'Z')) {
        return false;
    }
    if !all_name_chars(&chars) || chars[chars.len() - 1] == '.' {
        return false;
    }
    let head = match crate::workflow_text::find_char(&chars, '.') {
        Some(k) => crate::text::sub_chars(&chars, 0, k),
        None => chars.clone(),
    };
    proof {
        assert(head@ == crate::workflow_text::before_char(name@, '.'));
    }
    let upper = upper_chars(&head);
    let devices: [&str; 22] = [
        "CON", "PRN", "AUX", "NUL", "COM1", "COM2", "COM3", "COM4", "COM5", "COM6", "COM7", "COM8", "COM9",
        "LPT1", "LPT2", "LPT3", "LPT4", "LPT5", "LPT6", "LPT7", "LPT8", "LPT9",
    ];
    proof {
        assert(crate::validation::lits_view(devices@) =~= device_names());
    }
    let mut i: usize = 0;
    while i < 22
        invariant
            i <= 22,
            crate::validation::lits_view(devices@) == device_names(),
            upper@ == ascii_upper(crate::workflow_text::before_char(name@, '.')),
            forall|k: int| 0 <= k < i ==> device_names()[k] != upper@,
        decreases 22 - i,
    {
        if crate::text::chars_are(&upper, devices[i]) {
            proof {
                assert(device_names()[i as int] == upper@);
                assert(device_names().contains(upper@));
                assert(upper@ == ascii_upper(crate::workflow_text::before_char(name@, '.')));
            }
            return false;
        }
        i = i + 1;
    }
    proof {
        if device_names().contains(upper@) {
            let k = choose|k: int| 0 <= k < device_names().len() && device_names()[k] == upper@;
        }
    }
    true
}

/// A bounded Git tag name for a release alias: 1 to 128 bytes of name characters, starting with
/// an ASCII alphanumeric, without `..`, and ending with neither `.` nor `.lock`.
pub open spec fn spec_alias_ok(a: Seq<char>) -> bool {
    &&& a.len() > 0
    &&& byte_len(a) <= 128
    &&& !contains_text(a, seq!['.', '.'])
    &&& a.last() != '.'
    &&& !ends_with(a, seq!['.', 'l', 'o', 'c', 'k'])
    &&& is_ascii_alnum(a[0])
    &&& forall|i: int| 0 <= i < a.len() ==> is_name_char(#[trigger] a[i])
}

/// Whether the text is a bounded Git tag name for a release alias.
pub fn alias_ok(alias: &str) -> (r: bool)
    ensures
        r == spec_alias_ok(alias@),
{
    let chars = chars_of(alias);
    if chars.len() == 0 || alias.as_bytes().len() > 128 {
        return false;
    }
    let dots: [char; 2] = ['.', '.'];
    let lock: [char; 5] = ['.', 'l', 'o', 'c', 'k'];
    proof {
        assert(dots@ =~= seq!['.', '.']);
        assert(lock@ =~= seq!['.', 'l', 'o', 'c', 'k']);
    }
    if crate::workflow_text::contains_chars(&chars, &dots) || chars[chars.len() - 1] == '.' {
        return false;
    }
    if crate::repository::chars_end_with(&chars, &lock) {
        return false;
    }
    let first = chars[0];
    if !(('0' <= first && first <= '9') || ('a' <= first && first <= 'z') || ('A' <= first && first <= 'Z')) {
        return false;
    }
    all_name_chars(&chars)
}

/// The text with every occurrence of `pat`, found scanning left to right from `from`, replaced by
/// `rep`, as `str::replace` does.
pub open spec fn replace_from(s: Seq<char>, pat: Seq<char>, rep: Seq<char>, from: int) -> Seq<char>
    decreases s.len() + 1 - from,
{
    if pat.len() == 0 || from < 0 || from > s.len() {
        seq![]
    } else {
        match crate::workflow_text::next_occurrence(s, pat, from) {
            None => s.skip(from),
            Some(k) => {
                proof {
                    crate::workflow_text::lemma_next_occurrence_bound(s, pat, from);
                }
                s.subrange(from, k) + rep + replace_from(s, pat, rep, k + pat.len())
            },
        }
    }
}

/// The text with every occurrence of a non-empty `pat` replaced by `rep`.
pub open spec fn replace_all(s: Seq<char>, pat: Seq<char>, rep: Seq<char>) -> Seq<char> {
    replace_from(s, pat, rep, 0)
}

/// The text with every occurrence of `pat` replaced by `rep`.
pub fn replace(s: &str, pat: &str, rep: &str) -> (r: String)
    requires
        pat@.len() > 0,
    ensures
        r@ == replace_all(s@, pat@, rep@),
{
    let chars = chars_of(s);
    let p = chars_of(pat);
    let mut out = String::new();
    let mut pos: usize = 0;
    let cn = chars.len();
    loop
        invariant
            cn == chars@.len(),
            chars@ == s@,
            p@ == pat@,
            p@.len() > 0,
            pos <= chars@.len(),
            replace_all(s@, pat@, rep@) == out@ + replace_from(s@, pat@, rep@, pos as int),
        decreases chars@.len() + 1 - pos,
    {
        match crate::workflow_text::find_from(&chars, &p, pos) {
            None => {
                let rest = crate::text::sub_chars(&chars, pos, chars.len());
                push_str(&mut out, crate::text::string_of(&rest).as_str());
                proof {
                    assert(rest@ =~= s@.skip(pos as int));
                }
                return out;
            },
            Some(k) => {
                let ghost before = out@;
                proof {
                    crate::workflow_text::lemma_next_occurrence_bound(s@, pat@, pos as int);
                }
                let piece = crate::text::sub_chars(&chars, pos, k);
                push_str(&mut out, crate::text::string_of(&piece).as_str());
                push_str(&mut out, rep);
                proof {
                    assert(out@ + replace_from(s@, pat@, rep@, k + p@.len()) =~= before + replace_from(
                        s@,
                        pat@,
                        rep@,
                        pos as int,
                    ));
                }
                assert(k + p@.len() <= cn);
                pos = k + p.len();
            },
        }
    }
}

/// A failure's kind and message.
pub type Failure = (ErrorKind, Seq<char>);

/// What a check's result says: no failure, or the kind and message of its error.
pub open spec fn verdict_of(r: Result<(), ActionError>) -> Option<Failure> {
    match r {
        Ok(_) => None,
        Err(e) => Some((e.kind, e.message@)),
    }
}

/// A rejection with the message.
pub open spec fn rej(message: Seq<char>) -> Option<Failure> {
    Some((ErrorKind::Rejected, message))
}

/// The failure of a record whose values do not have the shape the release schema requires.
pub open spec fn shape_failure() -> Option<Failure> {
    rej("invalid release record: a value does not have the shape the release schema requires"@)
}

fn shape_error() -> (e: ActionError)
    ensures
        Some((e.kind, e.message@)) == shape_failure(),
{
    rejection("invalid release record: a value does not have the shape the release schema requires")
}

fn reject(message: &str) -> (r: Result<(), ActionError>)
    ensures
        verdict_of(r) == rej(message@),
{
    Err(rejection(message))
}

/// The value under a key of an object, when it has the key.
pub fn lookup<'a>(x: Option<&'a Json>, key: &str) -> (r: Option<&'a Json>)
    ensures
        r matches Some(j) ==> get(ov(x), key@) == Some(j@),
        r is None ==> get(ov(x), key@) is None,
{
    match x {
        Some(j) => j.get(key),
        None => None,
    }
}

/// The intent of a record.
pub open spec fn intent_of(v: JsonV) -> JsonV {
    at(v, "intent"@)
}

/// The bytes that identify an intent: a domain tag, then the record's transaction ID and its
/// intent without the identity, encoded as one compact JSON object.
pub open spec fn intent_frame(v: JsonV) -> Seq<u8> {
    let unsigned = JsonV::Object(crate::plan::map_remove(intent_of(v)->Object_0, "identity"@));
    vstd::utf8::encode_utf8("cargo-rail-release-intent-v1"@) + seq![0u8] + encode(
        JsonV::Object(seq![("intent"@, unsigned), ("transaction_id"@, at(v, "transaction_id"@))]),
    )
}

/// The identity of a record's intent: `sha256:` and the digest of its frame.
pub open spec fn intent_identity(v: JsonV) -> Seq<char> {
    "sha256:"@ + spec_hex(sha256_of(intent_frame(v)))
}

/// The source of a record: the merged review commit, else the prepared commit, else the initial
/// head of its intent.
pub open spec fn record_source(v: JsonV) -> JsonV {
    match get(at(at(v, "review"@), "merge"@), "commit"@) {
        Some(c) => c,
        None => match get(at(v, "preparation"@), "commit"@) {
            Some(c) => c,
            None => at(intent_of(v), "initial_head"@),
        },
    }
}

/// Whether the intent's remote repository is `<host>/<path>` of the expected repository.
pub open spec fn remote_matches(v: JsonV, repository: Seq<char>) -> bool {
    let remote = at(intent_of(v), "remote_repository"@);
    &&& at(remote, "host"@) is Str
    &&& at(remote, "path"@) is Str
    &&& at(remote, "host"@)->Str_0 + seq!['/'] + at(remote, "path"@)->Str_0 == repository
}

/// The identity check: the record's intent must have the expected identity, the record must
/// name the expected source and repository.
pub open spec fn identity_check(v: JsonV, intent: Seq<char>, source: Seq<char>, repository: Seq<char>) -> Option<
    Failure,
> {
    if !(intent_of(v) is Object) {
        shape_failure()
    } else if intent_identity(v) != intent || at(intent_of(v), "identity"@) != JsonV::Str(intent_identity(v))
        || record_source(v) != JsonV::Str(source) || !remote_matches(v, repository) {
        rej("release record does not match the authorized intent, source, and repository"@)
    } else {
        None
    }
}

/// The source of a record.
pub fn source_of(v: &Json) -> (r: Option<&Json>)
    ensures
        ov(r) == record_source(v@),
{
    match lookup(field(field(Some(v), "review"), "merge"), "commit") {
        Some(c) => Some(c),
        None => match lookup(field(Some(v), "preparation"), "commit") {
            Some(c) => Some(c),
            None => field(field(Some(v), "intent"), "initial_head"),
        },
    }
}

/// The identity of a record's intent.
fn identity_of(v: &Json, intent: &Vec<(String, Json)>) -> (r: String)
    requires
        intent_of(v@) == JsonV::Object(entries_view(intent@)),
    ensures
        r@ == intent_identity(v@),
{
    let unsigned = crate::plan::remove_key(intent, "identity");
    let tid = match v.get("transaction_id") {
        Some(t) => crate::json::clone_json(t),
        None => Json::Null,
    };
    let entries = vec![(crate::text::owned("intent"), Json::Object(unsigned)), (crate::text::owned("transaction_id"), tid)];
    proof {
        lemma_entries(entries@, entries@.len());
        assert(entries_view(entries@) =~= seq![
            ("intent"@, JsonV::Object(crate::plan::map_remove(entries_view(intent@), "identity"@))),
            ("transaction_id"@, at(v@, "transaction_id"@)),
        ]);
    }
    let doc = Json::Object(entries);
    let mut framed = crate::plan::bytes_of("cargo-rail-release-intent-v1");
    framed.push(0);
    let body = crate::json::to_bytes(&doc);
    let mut i: usize = 0;
    let ghost head = framed@;
    while i < body.len()
        invariant
            i <= body@.len(),
            framed@ == head + body@.take(i as int),
        decreases body@.len() - i,
    {
        framed.push(body[i]);
        proof {
            assert(body@.take(i + 1) =~= body@.take(i as int).push(body@[i as int]));
        }
        i = i + 1;
    }
    proof {
        assert(body@.take(i as int) =~= body@);
        assert(framed@ =~= intent_frame(v@));
    }
    let mut identity = crate::text::owned("sha256:");
    push_str(&mut identity, hex_digest(framed.as_slice()).as_str());
    identity
}

fn remote_ok(v: &Json, repository: &str) -> (r: bool)
    ensures
        r == remote_matches(v@, repository@),
{
    let remote = field(field(Some(v), "intent"), "remote_repository");
    let host = match text(field(remote, "host")) {
        Some(h) => h,
        None => return false,
    };
    let path = match text(field(remote, "path")) {
        Some(p) => p,
        None => return false,
    };
    let mut joined = crate::text::owned(host);
    crate::text::push_char(&mut joined, '/');
    push_str(&mut joined, path);
    proof {
        assert(joined@ =~= host@ + seq!['/'] + path@);
    }
    crate::text::str_eq(joined.as_str(), repository)
}

/// Checks the record's intent identity, source and repository.
fn check_identity(v: &Json, intent: &str, source: &str, repository: &str) -> (r: Result<(), ActionError>)
    ensures
        verdict_of(r) == identity_check(v@, intent@, source@, repository@),
{
    let entries = match crate::json_nav::entries(field(Some(v), "intent")) {
        Some(e) => e,
        None => return Err(shape_error()),
    };
    let identity = identity_of(v, entries);
    let stored = field(field(Some(v), "intent"), "identity");
    if !crate::text::str_eq(identity.as_str(), intent) || !is_text(stored, identity.as_str()) || !is_text(
        source_of(v),
        source,
    ) || !remote_ok(v, repository) {
        return reject("release record does not match the authorized intent, source, and repository");
    }
    Ok(())
}

/// The release plan of a record's intent.
pub open spec fn plan_of(v: JsonV) -> JsonV {
    at(intent_of(v), "plan"@)
}

/// The release configuration captured in a record's intent.
pub open spec fn config_of(v: JsonV) -> JsonV {
    at(intent_of(v), "release_config"@)
}

/// The items of an array; none for anything else.
pub open spec fn array_items(x: JsonV) -> Seq<JsonV> {
    match x {
        JsonV::Array(xs) => xs,
        _ => seq![],
    }
}

/// The planned packages of a record.
pub open spec fn packages_of(v: JsonV) -> Seq<JsonV> {
    array_items(at(plan_of(v), "crates"@))
}

/// The per-package progress of a record.
pub open spec fn progress_of(v: JsonV) -> Seq<JsonV> {
    array_items(at(v, "crates"@))
}

/// Whether every item has a string under the key.
pub open spec fn all_have_str(xs: Seq<JsonV>, key: Seq<char>) -> bool {
    forall|i: int| 0 <= i < xs.len() ==> (#[trigger] at(xs[i], key)) is Str
}

/// The strings under the key of each item.
pub open spec fn field_texts(xs: Seq<JsonV>, key: Seq<char>) -> Seq<Seq<char>>
    decreases xs.len(),
{
    if xs.len() == 0 {
        seq![]
    } else {
        field_texts(xs.drop_last(), key).push(at(xs.last(), key)->Str_0)
    }
}

/// The texts as JSON strings.
pub open spec fn str_values(names: Seq<Seq<char>>) -> Seq<JsonV>
    decreases names.len(),
{
    if names.len() == 0 {
        seq![]
    } else {
        str_values(names.drop_last()).push(JsonV::Str(names.last()))
    }
}

/// The number of items whose `publish` is true.
pub open spec fn count_publish(xs: Seq<JsonV>) -> nat
    decreases xs.len(),
{
    if xs.len() == 0 {
        0
    } else {
        count_publish(xs.drop_last()) + if at(xs.last(), "publish"@) == JsonV::Bool(true) { 1nat } else { 0nat }
    }
}

/// The package names of a record.
pub open spec fn names_of(v: JsonV) -> Seq<Seq<char>> {
    field_texts(packages_of(v), "name"@)
}

/// Whether the packages and progress have the shape the schema requires.
pub open spec fn selection_shape(v: JsonV) -> bool {
    &&& at(plan_of(v), "crates"@) is Array
    &&& all_have_str(packages_of(v), "name"@)
    &&& all_have_str(packages_of(v), "tag_name"@)
    &&& at(v, "crates"@) is Array
}

/// Whether each progress entry names the package at its position.
pub open spec fn progress_names_match(progress: Seq<JsonV>, names: Seq<Seq<char>>) -> bool {
    forall|i: int| 0 <= i < progress.len() && i < names.len() ==> #[trigger] at(progress[i], "name"@) == JsonV::Str(
        names[i],
    )
}

/// Whether the selection or publication authority of a record is inconsistent.
pub open spec fn selection_inconsistent(v: JsonV) -> bool {
    let ps = packages_of(v);
    let names = names_of(v);
    let plan = plan_of(v);
    let summary = at(plan, "summary"@);
    let intent = intent_of(v);
    ||| !crate::validation::distinct(names)
    ||| !crate::validation::distinct(field_texts(ps, "tag_name"@))
    ||| at(plan, "canonical_crate_order"@) != JsonV::Array(str_values(names))
    ||| at(summary, "total_crates"@) != JsonV::UInt(ps.len() as u64)
    ||| at(summary, "crates_to_tag"@) != JsonV::UInt(ps.len() as u64)
    ||| at(summary, "crates_to_publish"@) != JsonV::UInt(count_publish(ps) as u64)
    ||| at(plan, "source"@) != at(config_of(v), "source"@)
    ||| progress_of(v).len() != names.len()
    ||| !progress_names_match(progress_of(v), names)
    ||| (at(intent, "skip_publish"@) == JsonV::Bool(true)) != (get(intent, "publish_registry"@) is None)
    ||| (get(intent, "publish_registry"@) matches Some(r) && r != at(config_of(v), "registry_publication"@))
}

/// The selection check.
pub open spec fn selection_check(v: JsonV) -> Option<Failure> {
    if !selection_shape(v) {
        shape_failure()
    } else if selection_inconsistent(v) {
        rej("release record contains inconsistent selection or publication authority"@)
    } else {
        None
    }
}

/// The strings under the key of each item, when every item has one.
fn texts_under(xs: &Vec<Json>, key: &str) -> (r: Option<Vec<String>>)
    ensures
        r is Some <==> all_have_str(items_view(xs@), key@),
        r matches Some(t) ==> strs_view(t@) == field_texts(items_view(xs@), key@),
{
    let ghost values = items_view(xs@);
    proof {
        lemma_items(xs@, xs@.len());
    }
    let mut out: Vec<String> = Vec::new();
    let mut i: usize = 0;
    while i < xs.len()
        invariant
            i <= xs@.len(),
            values == items_view(xs@),
            values.len() == xs@.len(),
            forall|k: int| 0 <= k < xs@.len() ==> #[trigger] values[k] == jv(xs@[k]),
            all_have_str(values.take(i as int), key@),
            strs_view(out@) == field_texts(values.take(i as int), key@),
        decreases xs@.len() - i,
    {
        proof {
            assert(values.take(i + 1).drop_last() =~= values.take(i as int));
        }
        match text(xs[i].get(key)) {
            Some(t) => {
                out.push(crate::text::owned(t));
                proof {
                    assert(strs_view(out@) =~= field_texts(values.take(i + 1), key@));
                    assert forall|k: int| 0 <= k < values.take(i + 1).len() implies (#[trigger] at(values.take(i + 1)[k], key@)) is Str by {
                        if k < i {
                            assert(values.take(i + 1)[k] == values.take(i as int)[k]);
                        }
                    }
                }
            },
            None => {
                proof {
                    assert(at(values[i as int], key@) == at(values.take(i + 1)[i as int], key@));
                }
                return None;
            },
        }
        i = i + 1;
    }
    proof {
        assert(values.take(i as int) =~= values);
    }
    Some(out)
}

fn count_published(xs: &Vec<Json>) -> (n: usize)
    ensures
        n as nat == count_publish(items_view(xs@)),
{
    let ghost values = items_view(xs@);
    proof {
        lemma_items(xs@, xs@.len());
    }
    let mut n: usize = 0;
    let mut i: usize = 0;
    while i < xs.len()
        invariant
            i <= xs@.len(),
            n <= i,
            values == items_view(xs@),
            values.len() == xs@.len(),
            forall|k: int| 0 <= k < xs@.len() ==> #[trigger] values[k] == jv(xs@[k]),
            n as nat == count_publish(values.take(i as int)),
        decreases xs@.len() - i,
    {
        proof {
            assert(values.take(i + 1).drop_last() =~= values.take(i as int));
        }
        if is_true(xs[i].get("publish")) {
            n = n + 1;
        }
        i = i + 1;
    }
    proof {
        assert(values.take(i as int) =~= values);
    }
    n
}

/// Whether the value is the array of the texts as strings.
fn is_text_array(x: Option<&Json>, names: &Vec<String>) -> (r: bool)
    ensures
        r == (ov(x) == JsonV::Array(str_values(strs_view(names@)))),
{
    let xs = match items(x) {
        Some(xs) => xs,
        None => return false,
    };
    let ghost values = items_view(xs@);
    proof {
        lemma_items(xs@, xs@.len());
        lemma_str_values_len(strs_view(names@));
    }
    if xs.len() != names.len() {
        return false;
    }
    let mut i: usize = 0;
    while i < xs.len()
        invariant
            i <= xs@.len() == names@.len(),
            values == items_view(xs@),
            ov(x) == JsonV::Array(values),
            values.len() == xs@.len(),
            str_values(strs_view(names@)).len() == names@.len(),
            forall|k: int| 0 <= k < xs@.len() ==> #[trigger] values[k] == jv(xs@[k]),
            forall|k: int| 0 <= k < i ==> values[k] == str_values(strs_view(names@))[k],
        decreases xs@.len() - i,
    {
        proof {
            lemma_str_values_at(strs_view(names@), i as int);
        }
        if !is_text(Some(&xs[i]), names[i].as_str()) {
            proof {
                assert(values[i as int] != str_values(strs_view(names@))[i as int]);
            }
            return false;
        }
        i = i + 1;
    }
    proof {
        assert(values =~= str_values(strs_view(names@)));
    }
    true
}

proof fn lemma_str_values_len(names: Seq<Seq<char>>)
    ensures
        str_values(names).len() == names.len(),
    decreases names.len(),
{
    if names.len() > 0 {
        lemma_str_values_len(names.drop_last());
    }
}

proof fn lemma_str_values_at(names: Seq<Seq<char>>, i: int)
    requires
        0 <= i < names.len(),
    ensures
        str_values(names)[i] == JsonV::Str(names[i]),
    decreases names.len(),
{
    lemma_str_values_len(names.drop_last());
    if i < names.len() - 1 {
        lemma_str_values_at(names.drop_last(), i);
    }
}

fn progress_names_ok(progress: &Vec<Json>, names: &Vec<String>) -> (r: bool)
    requires
        progress@.len() == names@.len(),
    ensures
        r == progress_names_match(items_view(progress@), strs_view(names@)),
{
    let ghost values = items_view(progress@);
    proof {
        lemma_items(progress@, progress@.len());
    }
    let mut i: usize = 0;
    while i < progress.len()
        invariant
            i <= progress@.len() == names@.len(),
            values == items_view(progress@),
            values.len() == progress@.len(),
            forall|k: int| 0 <= k < progress@.len() ==> #[trigger] values[k] == jv(progress@[k]),
            forall|k: int| 0 <= k < i ==> #[trigger] at(values[k], "name"@) == JsonV::Str(strs_view(names@)[k]),
        decreases progress@.len() - i,
    {
        if !is_text(progress[i].get("name"), names[i].as_str()) {
            proof {
                assert(at(values[i as int], "name"@) != JsonV::Str(strs_view(names@)[i as int]));
            }
            return false;
        }
        i = i + 1;
    }
    true
}

/// Checks that the selection and publication authority are consistent.
fn check_selection(v: &Json) -> (r: Result<(), ActionError>)
    ensures
        verdict_of(r) == selection_check(v@),
{
    let plan = field(field(Some(v), "intent"), "plan");
    let ps = match items(field(plan, "crates")) {
        Some(ps) => ps,
        None => return Err(shape_error()),
    };
    let names = match texts_under(ps, "name") {
        Some(n) => n,
        None => return Err(shape_error()),
    };
    let tags = match texts_under(ps, "tag_name") {
        Some(t) => t,
        None => return Err(shape_error()),
    };
    let progress = match items(v.get("crates")) {
        Some(p) => p,
        None => return Err(shape_error()),
    };
    let intent = field(Some(v), "intent");
    let config = field(intent, "release_config");
    let summary = field(plan, "summary");
    let registry = lookup(intent, "publish_registry");
    let registry_differs = match registry {
        Some(r) => !ov_eq(Some(r), field(config, "registry_publication")),
        None => false,
    };
    proof {
        lemma_items(ps@, ps@.len());
        lemma_items(progress@, progress@.len());
    }
    let bad = crate::validation::has_duplicate(&names) || crate::validation::has_duplicate(&tags) || !is_text_array(
        field(plan, "canonical_crate_order"),
        &names,
    ) || !crate::json_nav::is_count(field(summary, "total_crates"), ps.len()) || !crate::json_nav::is_count(
        field(summary, "crates_to_tag"),
        ps.len(),
    ) || !crate::json_nav::is_count(field(summary, "crates_to_publish"), count_published(ps)) || !ov_eq(
        field(plan, "source"),
        field(config, "source"),
    ) || progress.len() != names.len() || !progress_names_ok(progress, &names) || (is_true(
        field(intent, "skip_publish"),
    ) != registry.is_none()) || registry_differs;
    proof {
        assert(names@.len() == packages_of(v@).len()) by {
            lemma_field_texts_len(packages_of(v@), "name"@);
        }
    }
    if bad {
        return reject("release record contains inconsistent selection or publication authority");
    }
    Ok(())
}

proof fn lemma_field_texts_len(xs: Seq<JsonV>, key: Seq<char>)
    ensures
        field_texts(xs, key).len() == xs.len(),
    decreases xs.len(),
{
    if xs.len() > 0 {
        lemma_field_texts_len(xs.drop_last(), key);
    }
}

/// Whether the value under the key is not a semantic version.
pub open spec fn version_bad(p: JsonV, key: Seq<char>) -> bool {
    !(at(p, key) is Str && is_semver(at(p, key)->Str_0))
}

/// Whether some dependency update names no semantic version.
pub open spec fn deps_bad(deps: Seq<JsonV>) -> bool {
    exists|i: int| 0 <= i < deps.len() && #[trigger] version_bad(deps[i], "version"@)
}

/// Whether a retained file write holds content whose digest it records.
pub open spec fn content_matches(w: JsonV) -> bool {
    &&& at(w, "content"@) is Str
    &&& at(w, "after_digest"@) == JsonV::Str(spec_hex(sha256_of(vstd::utf8::encode_utf8(at(w, "content"@)->Str_0))))
}

/// The checks of one planned package: its versions, its dependency versions, its API evidence
/// and its changelog write.
pub open spec fn package_check(v: JsonV, p: JsonV) -> Option<Failure> {
    let api = at(p, "api_evidence"@);
    let required = at(api, "required"@) == JsonV::Bool(true);
    let w = at(at(p, "presentation"@), "changelog"@);
    if version_bad(p, "current_version"@) || version_bad(p, "new_version"@) {
        rej("release record contains an invalid package version"@)
    } else if !(at(p, "dependency_updates"@) is Array) {
        shape_failure()
    } else if deps_bad(at(p, "dependency_updates"@)->Array_0) {
        rej("release record contains an invalid dependency version"@)
    } else if required != (at(config_of(v), "semver_check"@) == JsonV::Str("deny"@)) {
        rej("release API evidence does not match required policy"@)
    } else if at(api, "outcome"@) == JsonV::Str("fail"@) || (required && at(api, "outcome"@) == JsonV::Str(
        "unavailable"@,
    )) {
        rej("release record has blocking API evidence"@)
    } else if (at(p, "generate_changelog"@) == JsonV::Bool(true)) == (w == JsonV::Null) || (w != JsonV::Null && (at(
        w,
        "path"@,
    ) != at(p, "changelog_path"@) || !content_matches(w))) {
        rej("release record has inconsistent changelog bytes"@)
    } else {
        None
    }
}

/// The first failure among the checks of the packages, in order.
pub open spec fn packages_check(v: JsonV, ps: Seq<JsonV>) -> Option<Failure>
    decreases ps.len(),
{
    if ps.len() == 0 {
        None
    } else {
        match packages_check(v, ps.drop_last()) {
            Some(f) => Some(f),
            None => package_check(v, ps.last()),
        }
    }
}

fn semver_at(p: &Json, key: &str) -> (r: bool)
    ensures
        r == !version_bad(p@, key@),
{
    match text(p.get(key)) {
        Some(t) => semver_valid(t),
        None => false,
    }
}

fn deps_ok(deps: &Vec<Json>) -> (r: bool)
    ensures
        r == !deps_bad(items_view(deps@)),
{
    let ghost values = items_view(deps@);
    proof {
        lemma_items(deps@, deps@.len());
    }
    let mut i: usize = 0;
    while i < deps.len()
        invariant
            i <= deps@.len(),
            values == items_view(deps@),
            values.len() == deps@.len(),
            forall|k: int| 0 <= k < deps@.len() ==> #[trigger] values[k] == jv(deps@[k]),
            forall|k: int| 0 <= k < i ==> !#[trigger] version_bad(values[k], "version"@),
        decreases deps@.len() - i,
    {
        if !semver_at(&deps[i], "version") {
            proof {
                assert(version_bad(values[i as int], "version"@));
            }
            return false;
        }
        i = i + 1;
    }
    true
}

/// Whether a retained file write holds content whose digest it records.
fn content_ok(w: Option<&Json>) -> (r: bool)
    ensures
        r == content_matches(ov(w)),
{
    match text(field(w, "content")) {
        Some(content) => {
            let digest = hex_digest(content.as_bytes());
            is_text(field(w, "after_digest"), digest.as_str())
        },
        None => false,
    }
}

fn check_package(v: &Json, p: &Json) -> (r: Result<(), ActionError>)
    ensures
        verdict_of(r) == package_check(v@, p@),
{
    if !semver_at(p, "current_version") || !semver_at(p, "new_version") {
        return reject("release record contains an invalid package version");
    }
    let deps = match items(p.get("dependency_updates")) {
        Some(d) => d,
        None => return Err(shape_error()),
    };
    if !deps_ok(deps) {
        return reject("release record contains an invalid dependency version");
    }
    let config = field(field(Some(v), "intent"), "release_config");
    let api = p.get("api_evidence");
    let required = is_true(field(api, "required"));
    if required != is_text(field(config, "semver_check"), "deny") {
        return reject("release API evidence does not match required policy");
    }
    if is_text(field(api, "outcome"), "fail") || (required && is_text(field(api, "outcome"), "unavailable")) {
        return reject("release record has blocking API evidence");
    }
    let w = field(p.get("presentation"), "changelog");
    let absent = is_null(w);
    if is_true(p.get("generate_changelog")) == absent || (!absent && (!ov_eq(field(w, "path"), p.get("changelog_path"))
        || !content_ok(w))) {
        return reject("release record has inconsistent changelog bytes");
    }
    Ok(())
}

fn check_packages(v: &Json, ps: &Vec<Json>) -> (r: Result<(), ActionError>)
    ensures
        verdict_of(r) == packages_check(v@, items_view(ps@)),
{
    let ghost values = items_view(ps@);
    proof {
        lemma_items(ps@, ps@.len());
    }
    let mut i: usize = 0;
    while i < ps.len()
        invariant
            i <= ps@.len(),
            values == items_view(ps@),
            values.len() == ps@.len(),
            forall|k: int| 0 <= k < ps@.len() ==> #[trigger] values[k] == jv(ps@[k]),
            packages_check(v@, values.take(i as int)) is None,
        decreases ps@.len() - i,
    {
        proof {
            assert(values.take(i + 1).drop_last() =~= values.take(i as int));
        }
        let r = check_package(v, &ps[i]);
        if r.is_err() {
            proof {
                lemma_packages_check_prefix(v@, values, (i + 1) as nat);
            }
            return r;
        }
        i = i + 1;
    }
    proof {
        assert(values.take(i as int) =~= values);
    }
    Ok(())
}

proof fn lemma_packages_check_prefix(v: JsonV, ps: Seq<JsonV>, n: nat)
    requires
        n <= ps.len(),
        packages_check(v, ps.take(n as int)) is Some,
    ensures
        packages_check(v, ps) == packages_check(v, ps.take(n as int)),
    decreases ps.len() - n,
{
    if n < ps.len() {
        assert(ps.take((n + 1) as int).drop_last() =~= ps.take(n as int));
        lemma_packages_check_prefix(v, ps, n + 1);
    } else {
        assert(ps.take(n as int) =~= ps);
    }
}

/// Whether a lockfile write holds content whose `sha256:` digest it records.
pub open spec fn lockfile_matches(w: JsonV) -> bool {
    &&& at(w, "content"@) is Str
    &&& at(w, "after_digest"@) == JsonV::Str(
        "sha256:"@ + spec_hex(sha256_of(vstd::utf8::encode_utf8(at(w, "content"@)->Str_0))),
    )
}

/// The lockfile check: each auxiliary lockfile write must hold the content it records.
pub open spec fn lockfiles_check(v: JsonV) -> Option<Failure> {
    let writes = at(plan_of(v), "auxiliary_lockfiles"@);
    if !(writes is Array) {
        shape_failure()
    } else if exists|i: int| 0 <= i < writes->Array_0.len() && !#[trigger] lockfile_matches(writes->Array_0[i]) {
        rej("release record has inconsistent lockfile bytes"@)
    } else {
        None
    }
}

fn check_lockfiles(v: &Json) -> (r: Result<(), ActionError>)
    ensures
        verdict_of(r) == lockfiles_check(v@),
{
    let writes = match items(field(field(field(Some(v), "intent"), "plan"), "auxiliary_lockfiles")) {
        Some(w) => w,
        None => return Err(shape_error()),
    };
    let ghost values = items_view(writes@);
    proof {
        lemma_items(writes@, writes@.len());
    }
    let mut i: usize = 0;
    while i < writes.len()
        invariant
            i <= writes@.len(),
            values == items_view(writes@),
            at(plan_of(v@), "auxiliary_lockfiles"@) == JsonV::Array(values),
            values.len() == writes@.len(),
            forall|k: int| 0 <= k < writes@.len() ==> #[trigger] values[k] == jv(writes@[k]),
            forall|k: int| 0 <= k < i ==> #[trigger] lockfile_matches(values[k]),
        decreases writes@.len() - i,
    {
        let ok = match text(writes[i].get("content")) {
            Some(content) => {
                let mut digest = crate::text::owned("sha256:");
                push_str(&mut digest, hex_digest(content.as_bytes()).as_str());
                is_text(writes[i].get("after_digest"), digest.as_str())
            },
            None => false,
        };
        if !ok {
            proof {
                let w = at(plan_of(v@), "auxiliary_lockfiles"@);
                assert(w->Array_0[i as int] == values[i as int]);
                assert(!lockfile_matches(w->Array_0[i as int]));
            }
            return reject("release record has inconsistent lockfile bytes");
        }
        i = i + 1;
    }
    Ok(())
}

/// The values of a list of references to documents.
pub open spec fn refs_view(v: Seq<&Json>) -> Seq<JsonV> {
    v.map_values(|j: &Json| j@)
}

/// The packages selected for publication, in order.
pub open spec fn published(ps: Seq<JsonV>) -> Seq<JsonV>
    decreases ps.len(),
{
    if ps.len() == 0 {
        seq![]
    } else if at(ps.last(), "publish"@) == JsonV::Bool(true) {
        published(ps.drop_last()).push(ps.last())
    } else {
        published(ps.drop_last())
    }
}

/// Whether each sealed archive names the selected package at its position and its new version.
pub open spec fn archives_match(archives: Seq<JsonV>, selected: Seq<JsonV>) -> bool {
    forall|i: int| 0 <= i < archives.len() && i < selected.len() ==> at(#[trigger] archives[i], "name"@) == at(
        selected[i],
        "name"@,
    ) && at(archives[i], "version"@) == at(selected[i], "new_version"@)
}

/// The seal check: a retained package seal must cover exactly the prepared publication.
pub open spec fn seal_check(v: JsonV) -> Option<Failure> {
    let seal = at(v, "package_seal"@);
    let archives = at(seal, "packages"@);
    let selected = published(packages_of(v));
    if seal == JsonV::Null {
        None
    } else if !(archives is Array) {
        shape_failure()
    } else if at(at(v, "preparation"@), "status"@) != JsonV::Str("complete"@) || at(seal, "source_commit"@)
        != record_source(v) || archives->Array_0.len() != selected.len() || !archives_match(
        archives->Array_0,
        selected,
    ) {
        rej("release package seal does not match the prepared selection"@)
    } else {
        None
    }
}

fn selected_packages<'a>(ps: &'a Vec<Json>) -> (r: Vec<&'a Json>)
    ensures
        refs_view(r@) == published(items_view(ps@)),
{
    let ghost values = items_view(ps@);
    proof {
        lemma_items(ps@, ps@.len());
    }
    let mut out: Vec<&Json> = Vec::new();
    let mut i: usize = 0;
    while i < ps.len()
        invariant
            i <= ps@.len(),
            values == items_view(ps@),
            values.len() == ps@.len(),
            forall|k: int| 0 <= k < ps@.len() ==> #[trigger] values[k] == jv(ps@[k]),
            refs_view(out@) == published(values.take(i as int)),
        decreases ps@.len() - i,
    {
        proof {
            assert(values.take(i + 1).drop_last() =~= values.take(i as int));
        }
        if is_true(ps[i].get("publish")) {
            out.push(&ps[i]);
            proof {
                assert(refs_view(out@) =~= published(values.take(i as int)).push(values[i as int]));
            }
        }
        i = i + 1;
    }
    proof {
        assert(values.take(i as int) =~= values);
    }
    out
}

fn archives_ok(archives: &Vec<Json>, selected: &Vec<&Json>) -> (r: bool)
    requires
        archives@.len() == selected@.len(),
    ensures
        r == archives_match(items_view(archives@), refs_view(selected@)),
{
    let ghost sel = refs_view(selected@);
    let ghost values = items_view(archives@);
    proof {
        lemma_items(archives@, archives@.len());
    }
    let mut i: usize = 0;
    while i < archives.len()
        invariant
            i <= archives@.len() == selected@.len(),
            values == items_view(archives@),
            values.len() == archives@.len(),
            sel == refs_view(selected@),
            forall|k: int| 0 <= k < archives@.len() ==> #[trigger] values[k] == jv(archives@[k]),
            forall|k: int| 0 <= k < i ==> at(#[trigger] values[k], "name"@) == at(sel[k], "name"@) && at(
                values[k],
                "version"@,
            ) == at(sel[k], "new_version"@),
        decreases archives@.len() - i,
    {
        proof {
            assert(sel[i as int] == selected@[i as int]@);
        }
        if !ov_eq(archives[i].get("name"), selected[i].get("name")) || !ov_eq(
            archives[i].get("version"),
            selected[i].get("new_version"),
        ) {
            proof {
                assert(!(at(values[i as int], "name"@) == at(sel[i as int], "name"@) && at(values[i as int], "version"@)
                    == at(sel[i as int], "new_version"@)));
            }
            return false;
        }
        i = i + 1;
    }
    true
}

fn check_seal(v: &Json, ps: &Vec<Json>) -> (r: Result<(), ActionError>)
    requires
        at(plan_of(v@), "crates"@) == JsonV::Array(items_view(ps@)),
    ensures
        verdict_of(r) == seal_check(v@),
{
    let seal = v.get("package_seal");
    if is_null(seal) {
        return Ok(());
    }
    let archives = match items(field(seal, "packages")) {
        Some(a) => a,
        None => return Err(shape_error()),
    };
    let selected = selected_packages(ps);
    let ghost sel = published(items_view(ps@));
    let ghost values = items_view(archives@);
    proof {
        lemma_items(archives@, archives@.len());
        assert(sel.len() == selected@.len());
    }
    let bad = !is_text(field(v.get("preparation"), "status"), "complete") || !ov_eq(
        field(seal, "source_commit"),
        source_of(v),
    ) || archives.len() != selected.len() || !archives_ok(archives, &selected);
    if bad {
        return reject("release package seal does not match the prepared selection");
    }
    Ok(())
}

/// The header a release tag object starts with.
pub open spec fn tag_prefix(source: Seq<char>, tag: Seq<char>) -> Seq<char> {
    "object "@ + source + "\ntype commit\ntag "@ + tag + "\ntagger "@
}

/// The first line of a release tag message.
pub open spec fn release_heading(name: Seq<char>, version: Seq<char>) -> Seq<char> {
    "Release "@ + name + " v"@ + version + seq!['\n']
}

/// Whether a retained tag object is the one prepared for the package: at most 64 KiB, starting
/// with the header that names the source and the tag, with a message starting with the release
/// heading after the first blank line.
pub open spec fn tag_content_ok(content: Seq<char>, source: Seq<char>, p: JsonV) -> bool {
    tag_text_ok(content, source, at(p, "tag_name"@)->Str_0, at(p, "name"@)->Str_0, at(p, "new_version"@)->Str_0)
}

/// Whether a tag object's text has the prepared header and release heading.
pub open spec fn tag_text_ok(
    content: Seq<char>,
    source: Seq<char>,
    tag: Seq<char>,
    name: Seq<char>,
    version: Seq<char>,
) -> bool {
    &&& byte_len(content) <= 65536
    &&& starts_with(content, tag_prefix(source, tag))
    &&& crate::workflow_text::next_occurrence(content, seq!['\n', '\n'], 0) matches Some(k) && starts_with(
        content.skip(k + 2),
        release_heading(name, version),
    )
}

/// Whether a value is the string "complete".
pub open spec fn complete(x: JsonV) -> bool {
    at(x, "status"@) == JsonV::Str("complete"@)
}

/// The first sealed archive of the package.
pub open spec fn archive_for(archives: Seq<JsonV>, name: JsonV) -> Option<JsonV>
    decreases archives.len(),
{
    if archives.len() == 0 {
        None
    } else if at(archives[0], "name"@) == name {
        Some(archives[0])
    } else {
        archive_for(archives.drop_first(), name)
    }
}

/// The checks of one package's progress: its retained tag object and its publication.
pub open spec fn progress_check(v: JsonV, q: JsonV, p: JsonV) -> Option<Failure> {
    let intent = intent_of(v);
    let tag = at(q, "tag_object"@);
    let skip_tag = at(intent, "skip_tag"@) == JsonV::Bool(true);
    let publication = at(q, "publication"@);
    let attempt = at(q, "publication_attempt"@);
    let status = at(publication, "status"@);
    if tag != JsonV::Null && (skip_tag || !complete(at(q, "tag"@)) || at(at(q, "tag"@), "object"@) != at(tag, "id"@)
        || !(at(tag, "content"@) is Str && tag_content_ok(at(tag, "content"@)->Str_0, record_source(v)->Str_0, p))) {
        rej("release tag object does not match its prepared identity"@)
    } else if tag == JsonV::Null && !skip_tag && complete(at(q, "tag"@)) {
        rej("completed release tag has no retained object"@)
    } else if (status == JsonV::Str("pending"@) && attempt != JsonV::Null) || (status == JsonV::Str("in_progress"@)
        && attempt == JsonV::Null) {
        rej("release publication has inconsistent upload attempt identity"@)
    } else if at(intent, "skip_publish"@) != JsonV::Bool(true) && at(p, "publish"@) == JsonV::Bool(true) && status
        != JsonV::Str("pending"@) {
        if !(at(v, "phase"@) == JsonV::Str("publishing"@) || at(v, "phase"@) == JsonV::Str("released"@)) || !complete(
            at(v, "readiness"@),
        ) || !complete(at(v, "commit_push"@)) || (!skip_tag && exists|i: int|
            0 <= i < progress_of(v).len() && !complete(at(#[trigger] progress_of(v)[i], "tag"@))) {
            rej("release upload precedes required preparation and validation"@)
        } else if !(match archive_for(array_items(at(at(v, "package_seal"@), "packages"@)), at(p, "name"@)) {
            Some(a) => at(publication, "object"@) == at(a, "sha256"@),
            None => false,
        }) {
            rej("release publication progress has no matching sealed archive"@)
        } else {
            None
        }
    } else {
        None
    }
}

/// The first failure among the progress checks of the first `n` packages.
pub open spec fn progress_checks(v: JsonV, qs: Seq<JsonV>, ps: Seq<JsonV>, n: nat) -> Option<Failure>
    decreases n,
{
    if n == 0 || n > qs.len() || n > ps.len() {
        None
    } else {
        match progress_checks(v, qs, ps, (n - 1) as nat) {
            Some(f) => Some(f),
            None => progress_check(v, qs[n - 1], ps[n - 1]),
        }
    }
}

fn tag_ok(content: &str, source: &str, tag: &str, name: &str, version: &str) -> (r: bool)
    ensures
        r == tag_text_ok(content@, source@, tag@, name@, version@),
{
    if content.as_bytes().len() > 65536 {
        return false;
    }
    let mut prefix = crate::text::owned("object ");
    push_str(&mut prefix, source);
    push_str(&mut prefix, "\ntype commit\ntag ");
    push_str(&mut prefix, tag);
    push_str(&mut prefix, "\ntagger ");
    let chars = chars_of(content);
    let p = chars_of(prefix.as_str());
    proof {
        assert(p@ =~= tag_prefix(source@, tag@));
    }
    if !crate::text::has_prefix(&chars, &p) {
        return false;
    }
    let blank: [char; 2] = ['\n', '\n'];
    proof {
        assert(blank@ =~= seq!['\n', '\n']);
    }
    let k = match crate::workflow_text::find_from(&chars, &blank, 0) {
        Some(k) => k,
        None => return false,
    };
    proof {
        crate::workflow_text::lemma_next_occurrence_bound(chars@, blank@, 0);
    }
    let cn = chars.len();
    assert(k + 2 <= cn);
    let body = crate::text::sub_chars(&chars, k + 2, cn);
    let mut heading = crate::text::owned("Release ");
    push_str(&mut heading, name);
    push_str(&mut heading, " v");
    push_str(&mut heading, version);
    crate::text::push_char(&mut heading, '\n');
    let h = chars_of(heading.as_str());
    proof {
        assert(body@ =~= content@.skip(k + 2));
        assert(heading@ =~= release_heading(name@, version@));
        assert(p@ =~= tag_prefix(source@, tag@));
    }
    crate::text::has_prefix(&body, &h)
}

fn find_archive<'a>(a: &'a Vec<Json>, name: Option<&Json>) -> (r: Option<&'a Json>)
    ensures
        r matches Some(x) ==> archive_for(items_view(a@), ov(name)) == Some(x@),
        r is None ==> archive_for(items_view(a@), ov(name)) is None,
{
    let ghost values = items_view(a@);
    proof {
        lemma_items(a@, a@.len());
        assert(values.skip(0) =~= values);
    }
    let mut i: usize = 0;
    while i < a.len()
        invariant
            i <= a@.len(),
            values == items_view(a@),
            values.len() == a@.len(),
            forall|k: int| 0 <= k < a@.len() ==> #[trigger] values[k] == jv(a@[k]),
            archive_for(values, ov(name)) == archive_for(values.skip(i as int), ov(name)),
        decreases a@.len() - i,
    {
        proof {
            assert(values.skip(i as int)[0] == values[i as int]);
            assert(values.skip(i as int).drop_first() =~= values.skip(i + 1));
        }
        if ov_eq(a[i].get("name"), name) {
            proof {
                assert(at(values.skip(i as int)[0], "name"@) == ov(name));
                assert(archive_for(values.skip(i as int), ov(name)) == Some(values[i as int]));
                assert(archive_for(items_view(a@), ov(name)) == Some(a[i as int]@));
            }
            return Some(&a[i]);
        }
        i = i + 1;
    }
    proof {
        assert(values.skip(i as int) =~= seq![]);
    }
    None
}

fn all_tags_complete(qs: &Vec<Json>) -> (r: bool)
    ensures
        r == !exists|i: int| 0 <= i < items_view(qs@).len() && !complete(at(#[trigger] items_view(qs@)[i], "tag"@)),
{
    let ghost values = items_view(qs@);
    proof {
        lemma_items(qs@, qs@.len());
    }
    let mut i: usize = 0;
    while i < qs.len()
        invariant
            i <= qs@.len(),
            values == items_view(qs@),
            values.len() == qs@.len(),
            forall|k: int| 0 <= k < qs@.len() ==> #[trigger] values[k] == jv(qs@[k]),
            forall|k: int| 0 <= k < i ==> complete(at(#[trigger] values[k], "tag"@)),
        decreases qs@.len() - i,
    {
        if !is_text(field(qs[i].get("tag"), "status"), "complete") {
            proof {
                assert(!complete(at(values[i as int], "tag"@)));
            }
            return false;
        }
        i = i + 1;
    }
    true
}

fn check_progress(v: &Json, qs: &Vec<Json>, q: &Json, p: &Json) -> (r: Result<(), ActionError>)
    requires
        record_source(v@) is Str,
        at(p@, "name"@) is Str,
        at(p@, "tag_name"@) is Str,
        at(p@, "new_version"@) is Str,
        at(v@, "crates"@) == JsonV::Array(items_view(qs@)),
    ensures
        verdict_of(r) == progress_check(v@, q@, p@),
{
    let intent = field(Some(v), "intent");
    let tag = q.get("tag_object");
    let skip_tag = is_true(field(intent, "skip_tag"));
    let tag_complete = is_text(field(q.get("tag"), "status"), "complete");
    if !is_null(tag) {
        let source = text(source_of(v)).unwrap();
        let name = text(p.get("name")).unwrap();
        let tag_name = text(p.get("tag_name")).unwrap();
        let version = text(p.get("new_version")).unwrap();
        let content_ok = match text(field(tag, "content")) {
            Some(content) => tag_ok(content, source, tag_name, name, version),
            None => false,
        };
        if skip_tag || !tag_complete || !ov_eq(field(q.get("tag"), "object"), field(tag, "id")) || !content_ok {
            return reject("release tag object does not match its prepared identity");
        }
    } else if !skip_tag && tag_complete {
        return reject("completed release tag has no retained object");
    }
    let publication = q.get("publication");
    let attempt = q.get("publication_attempt");
    let status = field(publication, "status");
    if (is_text(status, "pending") && !is_null(attempt)) || (is_text(status, "in_progress") && is_null(attempt)) {
        return reject("release publication has inconsistent upload attempt identity");
    }
    if !is_true(field(intent, "skip_publish")) && is_true(p.get("publish")) && !is_text(status, "pending") {
        let phase = v.get("phase");
        proof {
            assert(progress_of(v@) == items_view(qs@));
        }
        if !(is_text(phase, "publishing") || is_text(phase, "released")) || !is_text(
            field(v.get("readiness"), "status"),
            "complete",
        ) || !is_text(field(v.get("commit_push"), "status"), "complete") || (!skip_tag && !all_tags_complete(qs)) {
            return reject("release upload precedes required preparation and validation");
        }
        let archives = items(field(v.get("package_seal"), "packages"));
        proof {
            let list = match archives {
                Some(a) => items_view(a@),
                None => seq![],
            };
            assert(list == array_items(at(at(v@, "package_seal"@), "packages"@)));
        }
        let matched = match archives {
            Some(list) => match find_archive(list, p.get("name")) {
                Some(a) => ov_eq(field(publication, "object"), a.get("sha256")),
                None => false,
            },
            None => false,
        };
        if !matched {
            return reject("release publication progress has no matching sealed archive");
        }
    }
    Ok(())
}

fn check_all_progress(v: &Json, qs: &Vec<Json>, ps: &Vec<Json>) -> (r: Result<(), ActionError>)
    requires
        record_source(v@) is Str,
        qs@.len() == ps@.len(),
        at(v@, "crates"@) == JsonV::Array(items_view(qs@)),
        forall|i: int| 0 <= i < ps@.len() ==> (#[trigger] at(items_view(ps@)[i], "name"@)) is Str && at(
            items_view(ps@)[i],
            "tag_name"@,
        ) is Str && at(items_view(ps@)[i], "new_version"@) is Str,
    ensures
        verdict_of(r) == progress_checks(v@, items_view(qs@), items_view(ps@), qs@.len() as nat),
{
    let ghost qv = items_view(qs@);
    let ghost pv = items_view(ps@);
    proof {
        lemma_items(qs@, qs@.len());
        lemma_items(ps@, ps@.len());
    }
    let mut i: usize = 0;
    while i < qs.len()
        invariant
            i <= qs@.len() == ps@.len(),
            record_source(v@) is Str,
            at(v@, "crates"@) == JsonV::Array(items_view(qs@)),
            qv == items_view(qs@),
            pv == items_view(ps@),
            qv.len() == qs@.len(),
            pv.len() == ps@.len(),
            forall|k: int| 0 <= k < qs@.len() ==> #[trigger] qv[k] == jv(qs@[k]),
            forall|k: int| 0 <= k < ps@.len() ==> #[trigger] pv[k] == jv(ps@[k]),
            forall|k: int| 0 <= k < ps@.len() ==> (#[trigger] at(pv[k], "name"@)) is Str && at(pv[k], "tag_name"@) is Str
                && at(pv[k], "new_version"@) is Str,
            progress_checks(v@, qv, pv, i as nat) is None,
        decreases qs@.len() - i,
    {
        proof {
            assert(at(pv[i as int], "name"@) is Str);
        }
        let r = check_progress(v, qs, &qs[i], &ps[i]);
        if r.is_err() {
            proof {
                lemma_progress_checks_prefix(v@, qv, pv, (i + 1) as nat);
            }
            return r;
        }
        i = i + 1;
    }
    Ok(())
}

proof fn lemma_progress_checks_prefix(v: JsonV, qs: Seq<JsonV>, ps: Seq<JsonV>, n: nat)
    requires
        n <= qs.len() == ps.len(),
        progress_checks(v, qs, ps, n) is Some,
    ensures
        progress_checks(v, qs, ps, qs.len() as nat) == progress_checks(v, qs, ps, n),
    decreases qs.len() - n,
{
    if n < qs.len() {
        lemma_progress_checks_prefix(v, qs, ps, n + 1);
    }
}

/// The number of distinct values in the list.
pub open spec fn distinct_count(s: Seq<u64>) -> nat
    decreases s.len(),
{
    if s.len() == 0 {
        0
    } else {
        distinct_count(s.drop_last()) + if s.drop_last().contains(s.last()) { 0nat } else { 1nat }
    }
}

/// The non-negative integers under the key of each item, when every item has one.
pub open spec fn uints_under(xs: Seq<JsonV>, key: Seq<char>) -> Option<Seq<u64>>
    decreases xs.len(),
{
    if xs.len() == 0 {
        Some(seq![])
    } else {
        match (uints_under(xs.drop_last(), key), at(xs.last(), key)) {
            (Some(prev), JsonV::UInt(n)) => Some(prev.push(n)),
            _ => None,
        }
    }
}

/// The values under the key of each item.
pub open spec fn values_under(xs: Seq<JsonV>, key: Seq<char>) -> Seq<JsonV>
    decreases xs.len(),
{
    if xs.len() == 0 {
        seq![]
    } else {
        values_under(xs.drop_last(), key).push(at(xs.last(), key))
    }
}

/// Whether one validation run differs from the required workflow and jobs: `Some(true)` when it
/// does, `Some(false)` when it covers them, `None` when its values lack the schema's shape.
pub open spec fn run_differs(run: JsonV, workflow: Seq<char>, jobs: JsonV) -> Option<bool> {
    if at(run, "workflow"@) != JsonV::Str(workflow) {
        Some(true)
    } else if !(at(run, "jobs"@) is Array) {
        None
    } else {
        match uints_under(at(run, "jobs"@)->Array_0, "id"@) {
            None => None,
            Some(ids) => if !(jobs is Array) {
                None
            } else {
                Some(distinct_count(ids) != jobs->Array_0.len() || values_under(at(run, "jobs"@)->Array_0, "name"@)
                    != jobs->Array_0)
            },
        }
    }
}

/// The first validation run, among the first `n`, that differs or lacks the schema's shape.
pub open spec fn runs_differ(runs: Seq<JsonV>, required: Seq<(Seq<char>, JsonV)>, n: nat) -> Option<bool>
    decreases n,
{
    if n == 0 || n > runs.len() || n > required.len() {
        Some(false)
    } else {
        match runs_differ(runs, required, (n - 1) as nat) {
            Some(false) => run_differs(runs[n - 1], required[n - 1].0, required[n - 1].1),
            other => other,
        }
    }
}

/// The required validation workflows of a record.
pub open spec fn required_of(v: JsonV) -> JsonV {
    at(config_of(v), "validation"@)
}

/// The validation evidence of a record.
pub open spec fn runs_of(v: JsonV) -> JsonV {
    at(v, "validation"@)
}

/// The validation check: retained workflow evidence must cover exactly the required validation,
/// each run once.
pub open spec fn validation_check(v: JsonV) -> Option<Failure> {
    let message = "release workflow evidence does not cover the required validation"@;
    if !(required_of(v) is Object) || !(runs_of(v) is Array) {
        shape_failure()
    } else {
        let required = required_of(v)->Object_0;
        let runs = runs_of(v)->Array_0;
        if runs.len() == 0 {
            None
        } else if runs.len() != required.len() {
            rej(message)
        } else {
            match runs_differ(runs, required, runs.len()) {
                None => shape_failure(),
                Some(true) => rej(message),
                Some(false) => match uints_under(runs, "run_id"@) {
                    None => shape_failure(),
                    Some(ids) => if distinct_count(ids) != runs.len() {
                        rej(message)
                    } else {
                        None
                    },
                },
            }
        }
    }
}

fn uints_of(xs: &Vec<Json>, key: &str) -> (r: Option<Vec<u64>>)
    ensures
        match r {
            Some(v) => uints_under(items_view(xs@), key@) == Some(v@),
            None => uints_under(items_view(xs@), key@) is None,
        },
{
    let ghost values = items_view(xs@);
    proof {
        lemma_items(xs@, xs@.len());
    }
    let mut out: Vec<u64> = Vec::new();
    let mut i: usize = 0;
    while i < xs.len()
        invariant
            i <= xs@.len(),
            values == items_view(xs@),
            values.len() == xs@.len(),
            forall|k: int| 0 <= k < xs@.len() ==> #[trigger] values[k] == jv(xs@[k]),
            uints_under(values.take(i as int), key@) == Some(out@),
        decreases xs@.len() - i,
    {
        proof {
            assert(values.take(i + 1).drop_last() =~= values.take(i as int));
        }
        match uint(xs[i].get(key)) {
            Some(n) => out.push(n),
            None => {
                proof {
                    lemma_uints_none(values, key@, (i + 1) as nat);
                }
                return None;
            },
        }
        i = i + 1;
    }
    proof {
        assert(values.take(i as int) =~= values);
    }
    Some(out)
}

proof fn lemma_uints_none(xs: Seq<JsonV>, key: Seq<char>, n: nat)
    requires
        n <= xs.len(),
        uints_under(xs.take(n as int), key) is None,
    ensures
        uints_under(xs, key) is None,
    decreases xs.len() - n,
{
    if n < xs.len() {
        assert(xs.take((n + 1) as int).drop_last() =~= xs.take(n as int));
        lemma_uints_none(xs, key, n + 1);
    } else {
        assert(xs.take(n as int) =~= xs);
    }
}

fn count_distinct(s: &Vec<u64>) -> (n: usize)
    ensures
        n as nat == distinct_count(s@),
{
    let mut n: usize = 0;
    let mut i: usize = 0;
    while i < s.len()
        invariant
            i <= s@.len(),
            n <= i,
            n as nat == distinct_count(s@.take(i as int)),
        decreases s@.len() - i,
    {
        proof {
            assert(s@.take(i + 1).drop_last() =~= s@.take(i as int));
        }
        let mut seen = false;
        let mut k: usize = 0;
        while k < i
            invariant
                k <= i < s@.len(),
                seen == exists|j: int| 0 <= j < k && s@[j] == s@[i as int],
            decreases i - k,
        {
            if s[k] == s[i] {
                seen = true;
            }
            k = k + 1;
        }
        proof {
            if seen {
                let j = choose|j: int| 0 <= j < i && s@[j] == s@[i as int];
                assert(s@.take(i as int)[j] == s@[i as int]);
                assert(s@.take(i as int).contains(s@[i as int]));
            } else {
                assert(!s@.take(i as int).contains(s@[i as int]));
            }
        }
        if !seen {
            n = n + 1;
        }
        i = i + 1;
    }
    proof {
        assert(s@.take(i as int) =~= s@);
    }
    n
}

fn names_equal(jobs: &Vec<Json>, required: &Vec<Json>) -> (r: bool)
    ensures
        r == (values_under(items_view(jobs@), "name"@) == items_view(required@)),
{
    let ghost jv_ = items_view(jobs@);
    let ghost rv = items_view(required@);
    proof {
        lemma_items(jobs@, jobs@.len());
        lemma_items(required@, required@.len());
        lemma_values_under_len(jv_, "name"@);
    }
    if jobs.len() != required.len() {
        return false;
    }
    let mut i: usize = 0;
    while i < jobs.len()
        invariant
            i <= jobs@.len() == required@.len(),
            jv_ == items_view(jobs@),
            rv == items_view(required@),
            jv_.len() == jobs@.len(),
            rv.len() == required@.len(),
            values_under(jv_, "name"@).len() == jv_.len(),
            forall|k: int| 0 <= k < jobs@.len() ==> #[trigger] jv_[k] == jv(jobs@[k]),
            forall|k: int| 0 <= k < required@.len() ==> #[trigger] rv[k] == jv(required@[k]),
            forall|k: int| 0 <= k < i ==> values_under(jv_, "name"@)[k] == rv[k],
        decreases jobs@.len() - i,
    {
        proof {
            lemma_values_under_at(jv_, "name"@, i as int);
        }
        if !ov_eq(jobs[i].get("name"), Some(&required[i])) {
            proof {
                assert(values_under(jv_, "name"@)[i as int] != rv[i as int]);
            }
            return false;
        }
        i = i + 1;
    }
    proof {
        assert(values_under(jv_, "name"@) =~= rv);
    }
    true
}

proof fn lemma_values_under_len(xs: Seq<JsonV>, key: Seq<char>)
    ensures
        values_under(xs, key).len() == xs.len(),
    decreases xs.len(),
{
    if xs.len() > 0 {
        lemma_values_under_len(xs.drop_last(), key);
    }
}

proof fn lemma_values_under_at(xs: Seq<JsonV>, key: Seq<char>, i: int)
    requires
        0 <= i < xs.len(),
    ensures
        values_under(xs, key)[i] == at(xs[i], key),
    decreases xs.len(),
{
    lemma_values_under_len(xs.drop_last(), key);
    if i < xs.len() - 1 {
        lemma_values_under_at(xs.drop_last(), key, i);
    }
}

fn run_differs_exec(run: &Json, workflow: &str, jobs: &Json) -> (r: Option<bool>)
    ensures
        r == run_differs(run@, workflow@, jobs@),
{
    if !is_text(run.get("workflow"), workflow) {
        return Some(true);
    }
    let run_jobs = match items(run.get("jobs")) {
        Some(j) => j,
        None => return None,
    };
    let ids = match uints_of(run_jobs, "id") {
        Some(ids) => ids,
        None => return None,
    };
    let required = match jobs.as_array() {
        Some(r) => r,
        None => return None,
    };
    proof {
        lemma_items(required@, required@.len());
    }
    Some(count_distinct(&ids) != required.len() || !names_equal(run_jobs, required))
}

fn check_validation(v: &Json) -> (r: Result<(), ActionError>)
    ensures
        verdict_of(r) == validation_check(v@),
{
    let message = "release workflow evidence does not cover the required validation";
    let required = match entries(field(field(field(Some(v), "intent"), "release_config"), "validation")) {
        Some(r) => r,
        None => return Err(shape_error()),
    };
    let runs = match items(v.get("validation")) {
        Some(r) => r,
        None => return Err(shape_error()),
    };
    let ghost rq = entries_view(required@);
    let ghost rn = items_view(runs@);
    proof {
        lemma_entries(required@, required@.len());
        lemma_items(runs@, runs@.len());
    }
    if runs.len() == 0 {
        return Ok(());
    }
    if runs.len() != required.len() {
        return reject(message);
    }
    let mut i: usize = 0;
    while i < runs.len()
        invariant
            i <= runs@.len() == required@.len(),
            runs@.len() > 0,
            message@ == "release workflow evidence does not cover the required validation"@,
            required_of(v@) == JsonV::Object(rq),
            runs_of(v@) == JsonV::Array(rn),
            rq == entries_view(required@),
            rn == items_view(runs@),
            rq.len() == required@.len(),
            rn.len() == runs@.len(),
            forall|k: int| 0 <= k < required@.len() ==> #[trigger] rq[k] == (required@[k].0@, jv(required@[k].1)),
            forall|k: int| 0 <= k < runs@.len() ==> #[trigger] rn[k] == jv(runs@[k]),
            runs_differ(rn, rq, i as nat) == Some(false),
        decreases runs@.len() - i,
    {
        match run_differs_exec(&runs[i], required[i].0.as_str(), &required[i].1) {
            Some(false) => {},
            Some(true) => {
                proof {
                    lemma_runs_differ_stop(rn, rq, (i + 1) as nat);
                }
                return reject(message);
            },
            None => {
                proof {
                    lemma_runs_differ_stop(rn, rq, (i + 1) as nat);
                }
                return Err(shape_error());
            },
        }
        i = i + 1;
    }
    let ids = match uints_of(runs, "run_id") {
        Some(ids) => ids,
        None => return Err(shape_error()),
    };
    if count_distinct(&ids) != runs.len() {
        return reject(message);
    }
    Ok(())
}

proof fn lemma_runs_differ_stop(runs: Seq<JsonV>, required: Seq<(Seq<char>, JsonV)>, n: nat)
    requires
        n <= runs.len() == required.len(),
        runs_differ(runs, required, n) != Some(false),
    ensures
        runs_differ(runs, required, runs.len()) == runs_differ(runs, required, n),
    decreases runs.len() - n,
{
    if n < runs.len() {
        lemma_runs_differ_stop(runs, required, n + 1);
    }
}

/// The remote effects a record's configuration allows.
pub open spec fn effects_of(v: JsonV) -> JsonV {
    at(config_of(v), "remote_effects"@)
}

/// Whether the intent's remote repository is hosted on github.com.
pub open spec fn on_github(v: JsonV) -> bool {
    at(at(intent_of(v), "remote_repository"@), "host"@) == JsonV::Str("github.com"@)
}

/// Whether the record's release effects reach a forge that can run the required validation.
pub open spec fn forge_effects(re: JsonV) -> bool {
    re == JsonV::Str("auto"@) || re == JsonV::Str("github"@) || re == JsonV::Str("gitlab"@)
}

/// The readiness check: a release with GitHub effects must name and, once ready, retain its
/// required workflow evidence.
pub open spec fn readiness_check(v: JsonV) -> Option<Failure> {
    let re = effects_of(v);
    let intent = intent_of(v);
    let needs_github = re != JsonV::Str("none"@) && (at(intent, "skip_tag"@) != JsonV::Bool(true) || at(
        intent,
        "skip_publish"@,
    ) != JsonV::Bool(true)) && (re == JsonV::Str("github"@) || on_github(v));
    if !(re is Str) {
        shape_failure()
    } else if needs_github && (required_of(v)->Object_0.len() == 0 || (complete(at(v, "readiness"@))
        && runs_of(v)->Array_0.len() == 0)) {
        rej("release readiness has no required workflow evidence"@)
    } else {
        None
    }
}

/// Whether a record's review contradicts its source or the order of its effects.
pub open spec fn review_contradicts(v: JsonV) -> bool {
    let review = at(v, "review"@);
    let reviewed = review != JsonV::Null;
    let pushed = at(review, "pushed"@);
    let phase = at(v, "phase"@);
    ||| (at(intent_of(v), "review"@) == JsonV::Bool(true)) != reviewed
    ||| reviewed && (at(v, "remote_storage"@) != JsonV::Bool(true) || effects_of(v) == JsonV::Str("none"@)
        || !on_github(v) || (at(pushed, "status"@) != JsonV::Str("pending"@) && (!complete(at(v, "preparation"@))
        || at(pushed, "object"@) != at(at(v, "preparation"@), "commit"@))) || (at(review, "request"@) != JsonV::Null
        && !complete(pushed)) || (at(review, "merge"@) != JsonV::Null && at(review, "request"@) == JsonV::Null) || (
    at(review, "merge"@) == JsonV::Null && (at(v, "package_seal"@) != JsonV::Null || runs_of(v)->Array_0.len() != 0
        || phase == JsonV::Str("ready"@) || phase == JsonV::Str("publishing"@) || phase == JsonV::Str("released"@))))
}

/// The review check.
pub open spec fn review_check(v: JsonV) -> Option<Failure> {
    if review_contradicts(v) {
        rej("reviewed release contradicts its authorized source or effect ordering"@)
    } else {
        None
    }
}

/// The workflow a validation run names, or the empty text.
pub open spec fn run_workflow(run: JsonV) -> Seq<char> {
    match at(run, "workflow"@) {
        JsonV::Str(s) => s,
        _ => ""@,
    }
}

/// Whether the hosted-workflow authority of a record is inconsistent.
pub open spec fn hosted_inconsistent(v: JsonV) -> bool {
    let intent = intent_of(v);
    let hosted = at(intent, "hosted"@) == JsonV::Bool(true);
    let dispatches = at(v, "validation_dispatches"@)->Object_0;
    let required = required_of(v)->Object_0;
    let runs = runs_of(v)->Array_0;
    let executor = at(v, "executor"@);
    ||| hosted && (at(v, "remote_storage"@) != JsonV::Bool(true) || at(config_of(v), "hosted_workflow"@)
        == JsonV::Null || !on_github(v))
    ||| executor != JsonV::Null && !hosted
    ||| exists|i: int| 0 <= i < dispatches.len() && (!hosted || !crate::json::has_key(required, (#[trigger] dispatches[i]).0)
        || dispatches[i].1 == executor)
    ||| exists|j: int| 0 <= j < runs.len() && (crate::json::find(dispatches, run_workflow(#[trigger] runs[j])) matches Some(
        d,
    ) && d != at(runs[j], "run_id"@))
}

/// The hosted-workflow check.
pub open spec fn hosted_check(v: JsonV) -> Option<Failure> {
    if !(at(v, "validation_dispatches"@) is Object) {
        shape_failure()
    } else if hosted_inconsistent(v) {
        rej("hosted release has inconsistent workflow authority"@)
    } else {
        None
    }
}

fn check_readiness(v: &Json) -> (r: Result<(), ActionError>)
    requires
        required_of(v@) is Object,
        runs_of(v@) is Array,
    ensures
        verdict_of(r) == readiness_check(v@),
{
    let intent = field(Some(v), "intent");
    let config = field(intent, "release_config");
    let re = field(config, "remote_effects");
    if text(re).is_none() {
        return Err(shape_error());
    }
    let github = is_text(field(field(intent, "remote_repository"), "host"), "github.com");
    let needs_github = !is_text(re, "none") && (!is_true(field(intent, "skip_tag")) || !is_true(
        field(intent, "skip_publish"),
    )) && (is_text(re, "github") || github);
    let required = entries(field(config, "validation")).unwrap();
    let runs = items(v.get("validation")).unwrap();
    proof {
        lemma_entries(required@, required@.len());
        lemma_items(runs@, runs@.len());
    }
    if needs_github && (required.len() == 0 || (is_text(field(v.get("readiness"), "status"), "complete")
        && runs.len() == 0)) {
        return reject("release readiness has no required workflow evidence");
    }
    Ok(())
}

fn check_review(v: &Json) -> (r: Result<(), ActionError>)
    requires
        runs_of(v@) is Array,
    ensures
        verdict_of(r) == review_check(v@),
{
    let intent = field(Some(v), "intent");
    let review = v.get("review");
    let reviewed = !is_null(review);
    let pushed = field(review, "pushed");
    let phase = v.get("phase");
    let runs = items(v.get("validation")).unwrap();
    proof {
        lemma_items(runs@, runs@.len());
    }
    let contradicts = (is_true(field(intent, "review")) != reviewed) || (reviewed && (!is_true(v.get("remote_storage"))
        || is_text(field(field(intent, "release_config"), "remote_effects"), "none") || !is_text(
        field(field(intent, "remote_repository"), "host"),
        "github.com",
    ) || (!is_text(field(pushed, "status"), "pending") && (!is_text(field(v.get("preparation"), "status"), "complete")
        || !ov_eq(field(pushed, "object"), field(v.get("preparation"), "commit")))) || (!is_null(field(review, "request"))
        && !is_text(field(pushed, "status"), "complete")) || (!is_null(field(review, "merge")) && is_null(
        field(review, "request"),
    )) || (is_null(field(review, "merge")) && (!is_null(v.get("package_seal")) || runs.len() != 0 || is_text(
        phase,
        "ready",
    ) || is_text(phase, "publishing") || is_text(phase, "released")))));
    if contradicts {
        return reject("reviewed release contradicts its authorized source or effect ordering");
    }
    Ok(())
}

fn check_hosted(v: &Json) -> (r: Result<(), ActionError>)
    requires
        required_of(v@) is Object,
        runs_of(v@) is Array,
    ensures
        verdict_of(r) == hosted_check(v@),
{
    let dispatches = match entries(v.get("validation_dispatches")) {
        Some(d) => d,
        None => return Err(shape_error()),
    };
    let intent = field(Some(v), "intent");
    let hosted = is_true(field(intent, "hosted"));
    let executor = v.get("executor");
    let required_doc = field(field(intent, "release_config"), "validation");
    let required = entries(required_doc).unwrap();
    let runs = items(v.get("validation")).unwrap();
    let ghost dv = entries_view(dispatches@);
    let ghost rv = items_view(runs@);
    proof {
        lemma_entries(dispatches@, dispatches@.len());
        lemma_items(runs@, runs@.len());
    }
    let first = (hosted && (!is_true(v.get("remote_storage")) || is_null(
        field(field(intent, "release_config"), "hosted_workflow"),
    ) || !is_text(field(field(intent, "remote_repository"), "host"), "github.com"))) || (!is_null(executor)
        && !hosted);
    if first {
        return reject("hosted release has inconsistent workflow authority");
    }
    let mut i: usize = 0;
    while i < dispatches.len()
        invariant
            i <= dispatches@.len(),
            dv == entries_view(dispatches@),
            dv.len() == dispatches@.len(),
            forall|k: int| 0 <= k < dispatches@.len() ==> #[trigger] dv[k] == (dispatches@[k].0@, jv(dispatches@[k].1)),
            at(v@, "validation_dispatches"@) == JsonV::Object(dv),
            required_of(v@) == JsonV::Object(entries_view(required@)),
            hosted == (at(intent_of(v@), "hosted"@) == JsonV::Bool(true)),
            ov(executor) == at(v@, "executor"@),
            forall|k: int| 0 <= k < i ==> !(!hosted || !crate::json::has_key(
                required_of(v@)->Object_0,
                (#[trigger] dv[k]).0,
            ) || dv[k].1 == at(v@, "executor"@)),
        decreases dispatches@.len() - i,
    {
        let known = crate::validation::contains_key(required, dispatches[i].0.as_str());
        let same = ov_eq(Some(&dispatches[i].1), executor);
        proof {
            assert(dv[i as int].0 == dispatches@[i as int].0@);
            assert(dv[i as int].1 == dispatches@[i as int].1@);
        }
        if !hosted || !known || same {
            proof {
                let dd = at(v@, "validation_dispatches"@)->Object_0;
                assert(dd[i as int] == dv[i as int]);
                assert(!hosted || !crate::json::has_key(required_of(v@)->Object_0, dd[i as int].0) || dd[i as int].1
                    == at(v@, "executor"@));
            }
            return reject("hosted release has inconsistent workflow authority");
        }
        i = i + 1;
    }
    let mut j: usize = 0;
    while j < runs.len()
        invariant
            j <= runs@.len(),
            rv == items_view(runs@),
            rv.len() == runs@.len(),
            forall|k: int| 0 <= k < runs@.len() ==> #[trigger] rv[k] == jv(runs@[k]),
            runs_of(v@) == JsonV::Array(rv),
            at(v@, "validation_dispatches"@) == JsonV::Object(entries_view(dispatches@)),
            forall|k: int| 0 <= k < j ==> !(crate::json::find(entries_view(dispatches@), run_workflow(#[trigger] rv[k])) matches Some(
                d,
            ) && d != at(rv[k], "run_id"@)),
        decreases runs@.len() - j,
    {
        let workflow = match text(runs[j].get("workflow")) {
            Some(w) => w,
            None => "",
        };
        proof {
            assert(workflow@ == run_workflow(rv[j as int]));
        }
        match crate::json_nav::entry_value(dispatches, workflow) {
            Some(d) => {
                if !ov_eq(Some(d), runs[j].get("run_id")) {
                    proof {
                        let rr = runs_of(v@)->Array_0;
                        assert(rr[j as int] == rv[j as int]);
                        assert(crate::json::find(at(v@, "validation_dispatches"@)->Object_0, run_workflow(rr[j as int]))
                            == Some(d@));
                    }
                    return reject("hosted release has inconsistent workflow authority");
                }
            },
            None => {},
        }
        j = j + 1;
    }
    Ok(())
}

/// The alias texts of a configuration's aliases, each value read as a string.
pub open spec fn alias_values(es: Seq<(Seq<char>, JsonV)>) -> Seq<Seq<char>>
    decreases es.len(),
{
    if es.len() == 0 {
        seq![]
    } else {
        alias_values(es.drop_last()).push(es.last().1->Str_0)
    }
}

/// The aliases check: every alias must be a bounded Git tag, and no two the same.
pub open spec fn aliases_check(v: JsonV) -> Option<Failure> {
    let aliases = at(config_of(v), "aliases"@);
    if !(aliases is Object) || !(at(intent_of(v), "alias_previous"@) is Object) {
        shape_failure()
    } else if (exists|i: int| 0 <= i < aliases->Object_0.len() && !((#[trigger] aliases->Object_0[i]).1 is Str
        && spec_alias_ok(aliases->Object_0[i].1->Str_0))) || !crate::validation::distinct(alias_values(aliases->Object_0)) {
        rej("release aliases must be unique bounded Git tags"@)
    } else {
        None
    }
}

/// The name of a progress entry, or the empty text.
pub open spec fn progress_name(q: JsonV) -> Seq<char> {
    match at(q, "name"@) {
        JsonV::Str(s) => s,
        _ => ""@,
    }
}

/// Whether a package's alias progress precedes its verified release.
pub open spec fn alias_premature(v: JsonV, q: JsonV, previous: Seq<(Seq<char>, JsonV)>) -> bool {
    let selected = crate::json::has_key(previous, progress_name(q));
    let alias = at(q, "alias"@);
    let status = at(alias, "status"@);
    ||| status == JsonV::Str("pending"@) && at(alias, "object"@) != JsonV::Null
    ||| status != JsonV::Str("pending"@) && (!selected || !complete(at(q, "forge_publication"@)) || at(alias, "object"@)
        != at(at(q, "tag_object"@), "id"@))
    ||| at(v, "status"@) == JsonV::Str("complete"@) && selected && status != JsonV::Str("complete"@)
}

/// The promotion check: aliases move only for selected packages, only with forge effects and
/// tags, and only after the immutable release they point at.
pub open spec fn promotion_check(v: JsonV) -> Option<Failure> {
    let aliases = at(config_of(v), "aliases"@)->Object_0;
    let previous = at(intent_of(v), "alias_previous"@)->Object_0;
    let names = names_of(v);
    let progress = progress_of(v);
    if (exists|x: Seq<char>| #[trigger] crate::json::has_key(previous, x) != (crate::json::has_key(aliases, x)
        && names.contains(x))) || (previous.len() != 0 && (at(intent_of(v), "skip_tag"@) == JsonV::Bool(true)
        || !forge_effects(effects_of(v)))) || (exists|i: int| 0 <= i < progress.len() && alias_premature(
        v,
        #[trigger] progress[i],
        previous,
    )) {
        rej("release alias promotion precedes its verified immutable release"@)
    } else {
        None
    }
}

/// The terminal check: a record's phase and status must agree with the effects it retains.
pub open spec fn terminal_check(v: JsonV) -> Option<Failure> {
    let phase = at(v, "phase"@);
    let status = at(v, "status"@);
    let progress = progress_of(v);
    let forge = forge_effects(effects_of(v)) && at(intent_of(v), "skip_tag"@) != JsonV::Bool(true);
    if (phase != JsonV::Str("planned"@) && !complete(at(v, "preparation"@))) || (phase == JsonV::Str("released"@)
        && status != JsonV::Str("complete"@)) || (status == JsonV::Str("aborted"@) && !complete(at(v, "abort"@))) || (
    status == JsonV::Str("complete"@) && (phase != JsonV::Str("released"@) || !complete(at(v, "commit_push"@))
        || !complete(at(v, "readiness"@)) || !complete(at(v, "tag_push"@)) || exists|i: int|
        0 <= i < progress.len() && (!complete(at(#[trigger] progress[i], "tag"@)) || !complete(
            at(progress[i], "publication"@),
        ) || (forge && (!complete(at(progress[i], "forge_draft"@)) || !complete(
            at(progress[i], "forge_publication"@),
        )))))) {
        rej("release terminal state contradicts its retained effects"@)
    } else {
        None
    }
}

fn check_aliases(v: &Json) -> (r: Result<(), ActionError>)
    ensures
        verdict_of(r) == aliases_check(v@),
{
    let intent = field(Some(v), "intent");
    let aliases = match entries(field(field(intent, "release_config"), "aliases")) {
        Some(a) => a,
        None => return Err(shape_error()),
    };
    if entries(field(intent, "alias_previous")).is_none() {
        return Err(shape_error());
    }
    let ghost av = entries_view(aliases@);
    proof {
        lemma_entries(aliases@, aliases@.len());
    }
    let mut values: Vec<String> = Vec::new();
    let mut i: usize = 0;
    while i < aliases.len()
        invariant
            i <= aliases@.len(),
            av == entries_view(aliases@),
            av.len() == aliases@.len(),
            forall|k: int| 0 <= k < aliases@.len() ==> #[trigger] av[k] == (aliases@[k].0@, jv(aliases@[k].1)),
            at(config_of(v@), "aliases"@) == JsonV::Object(av),
            at(intent_of(v@), "alias_previous"@) is Object,
            forall|k: int| 0 <= k < i ==> (#[trigger] av[k]).1 is Str && spec_alias_ok(av[k].1->Str_0),
            strs_view(values@) == alias_values(av.take(i as int)),
        decreases aliases@.len() - i,
    {
        proof {
            assert(av.take(i + 1).drop_last() =~= av.take(i as int));
        }
        match aliases[i].1.as_str() {
            Some(alias) => {
                if !alias_ok(alias) {
                    proof {
                        let a = at(config_of(v@), "aliases"@)->Object_0;
                        assert(a[i as int] == av[i as int]);
                        assert(!((a[i as int]).1 is Str && spec_alias_ok(a[i as int].1->Str_0)));
                    }
                    return reject("release aliases must be unique bounded Git tags");
                }
                values.push(crate::text::owned(alias));
                proof {
                    assert(strs_view(values@) =~= alias_values(av.take(i + 1)));
                }
            },
            None => {
                proof {
                    let a = at(config_of(v@), "aliases"@)->Object_0;
                    assert(a[i as int] == av[i as int]);
                    assert(!((a[i as int]).1 is Str && spec_alias_ok(a[i as int].1->Str_0)));
                }
                return reject("release aliases must be unique bounded Git tags");
            },
        }
        i = i + 1;
    }
    proof {
        assert(av.take(i as int) =~= av);
        let a = at(config_of(v@), "aliases"@)->Object_0;
        assert(a == av);
        assert forall|k: int| 0 <= k < a.len() implies ((#[trigger] a[k]).1 is Str && spec_alias_ok(a[k].1->Str_0)) by {
            assert(a[k] == av[k]);
        }
    }
    if crate::validation::has_duplicate(&values) {
        return reject("release aliases must be unique bounded Git tags");
    }
    Ok(())
}

fn alias_premature_exec(v: &Json, q: &Json, previous: &Vec<(String, Json)>) -> (r: bool)
    ensures
        r == alias_premature(v@, q@, entries_view(previous@)),
{
    let name = match text(q.get("name")) {
        Some(n) => n,
        None => "",
    };
    proof {
        assert(name@ == progress_name(q@));
    }
    let selected = crate::validation::contains_key(previous, name);
    let alias = q.get("alias");
    let status = field(alias, "status");
    let pending = is_text(status, "pending");
    (pending && !is_null(field(alias, "object"))) || (!pending && (!selected || !is_text(
        field(q.get("forge_publication"), "status"),
        "complete",
    ) || !ov_eq(field(alias, "object"), field(q.get("tag_object"), "id")))) || (is_text(v.get("status"), "complete")
        && selected && !is_text(status, "complete"))
}

fn check_promotion(v: &Json, names: &Vec<String>, progress: &Vec<Json>) -> (r: Result<(), ActionError>)
    requires
        at(config_of(v@), "aliases"@) is Object,
        at(intent_of(v@), "alias_previous"@) is Object,
        strs_view(names@) == names_of(v@),
        at(v@, "crates"@) == JsonV::Array(items_view(progress@)),
    ensures
        verdict_of(r) == promotion_check(v@),
{
    let intent = field(Some(v), "intent");
    let aliases = entries(field(field(intent, "release_config"), "aliases")).unwrap();
    let previous = entries(field(intent, "alias_previous")).unwrap();
    let ghost av = entries_view(aliases@);
    let ghost pv = entries_view(previous@);
    let ghost names_v = strs_view(names@);
    let message = "release alias promotion precedes its verified immutable release";
    proof {
        lemma_entries(aliases@, aliases@.len());
        lemma_entries(previous@, previous@.len());
    }
    let mut i: usize = 0;
    while i < previous.len()
        invariant
            i <= previous@.len(),
            pv == entries_view(previous@),
            pv.len() == previous@.len(),
            av == entries_view(aliases@),
            names_v == strs_view(names@),
            names_v == names_of(v@),
            message@ == "release alias promotion precedes its verified immutable release"@,
            at(intent_of(v@), "alias_previous"@) == JsonV::Object(pv),
            at(config_of(v@), "aliases"@) == JsonV::Object(av),
            forall|k: int| 0 <= k < previous@.len() ==> #[trigger] pv[k] == (previous@[k].0@, jv(previous@[k].1)),
            forall|k: int| 0 <= k < i ==> crate::json::has_key(av, (#[trigger] pv[k]).0) && names_v.contains(pv[k].0),
        decreases previous@.len() - i,
    {
        let key = previous[i].0.as_str();
        if !crate::validation::contains_key(aliases, key) || !crate::plan_validation::str_in(names, key) {
            proof {
                assert(pv[i as int].0 == key@);
                assert(crate::json::has_key(pv, key@));
                assert(crate::json::has_key(pv, key@) != (crate::json::has_key(av, key@) && names_v.contains(key@)));
                let sp = at(intent_of(v@), "alias_previous"@)->Object_0;
                let sa = at(config_of(v@), "aliases"@)->Object_0;
                assert(sp == pv && sa == av);
                assert(crate::json::has_key(sp, key@) != (crate::json::has_key(sa, key@) && names_of(v@).contains(key@)));
            }
            return reject(message);
        }
        i = i + 1;
    }
    let mut i: usize = 0;
    while i < aliases.len()
        invariant
            i <= aliases@.len(),
            pv == entries_view(previous@),
            av == entries_view(aliases@),
            av.len() == aliases@.len(),
            names_v == strs_view(names@),
            names_v == names_of(v@),
            message@ == "release alias promotion precedes its verified immutable release"@,
            at(intent_of(v@), "alias_previous"@) == JsonV::Object(pv),
            at(config_of(v@), "aliases"@) == JsonV::Object(av),
            forall|k: int| 0 <= k < aliases@.len() ==> #[trigger] av[k] == (aliases@[k].0@, jv(aliases@[k].1)),
            forall|k: int| 0 <= k < i ==> names_v.contains((#[trigger] av[k]).0) ==> crate::json::has_key(pv, av[k].0),
        decreases aliases@.len() - i,
    {
        let key = aliases[i].0.as_str();
        if crate::plan_validation::str_in(names, key) && !crate::validation::contains_key(previous, key) {
            proof {
                assert(av[i as int].0 == key@);
                assert(crate::json::has_key(av, key@));
                assert(crate::json::has_key(pv, key@) != (crate::json::has_key(av, key@) && names_v.contains(key@)));
                let sp = at(intent_of(v@), "alias_previous"@)->Object_0;
                let sa = at(config_of(v@), "aliases"@)->Object_0;
                assert(sp == pv && sa == av);
                assert(crate::json::has_key(sp, key@) != (crate::json::has_key(sa, key@) && names_of(v@).contains(key@)));
            }
            return reject(message);
        }
        i = i + 1;
    }
    proof {
        assert forall|x: Seq<char>| #[trigger] crate::json::has_key(pv, x) == (crate::json::has_key(av, x)
            && names_v.contains(x)) by {
            if crate::json::has_key(pv, x) {
                let k = choose|k: int| 0 <= k < pv.len() && (#[trigger] pv[k]).0 == x;
                assert(crate::json::has_key(av, pv[k].0) && names_v.contains(pv[k].0));
            }
            if crate::json::has_key(av, x) && names_v.contains(x) {
                let k = choose|k: int| 0 <= k < av.len() && (#[trigger] av[k]).0 == x;
                assert(names_v.contains(av[k].0) ==> crate::json::has_key(pv, av[k].0));
            }
        }
    }
    let re = field(field(intent, "release_config"), "remote_effects");
    if previous.len() != 0 && (is_true(field(intent, "skip_tag")) || !(is_text(re, "auto") || is_text(re, "github")
        || is_text(re, "gitlab"))) {
        proof {
            assert(ov(re) == effects_of(v@));
            assert(at(intent_of(v@), "alias_previous"@)->Object_0.len() != 0);
        }
        return reject(message);
    }
    let ghost qv = items_view(progress@);
    proof {
        lemma_items(progress@, progress@.len());
    }
    let mut j: usize = 0;
    while j < progress.len()
        invariant
            j <= progress@.len(),
            qv == items_view(progress@),
            qv.len() == progress@.len(),
            pv == entries_view(previous@),
            progress_of(v@) == qv,
            message@ == "release alias promotion precedes its verified immutable release"@,
            at(intent_of(v@), "alias_previous"@) == JsonV::Object(pv),
            forall|k: int| 0 <= k < progress@.len() ==> #[trigger] qv[k] == jv(progress@[k]),
            forall|k: int| 0 <= k < j ==> !alias_premature(v@, #[trigger] qv[k], pv),
        decreases progress@.len() - j,
    {
        if alias_premature_exec(v, &progress[j], previous) {
            proof {
                assert(alias_premature(v@, progress_of(v@)[j as int], pv));
            }
            return reject(message);
        }
        j = j + 1;
    }
    Ok(())
}

fn check_terminal(v: &Json, progress: &Vec<Json>) -> (r: Result<(), ActionError>)
    requires
        at(v@, "crates"@) == JsonV::Array(items_view(progress@)),
    ensures
        verdict_of(r) == terminal_check(v@),
{
    let message = "release terminal state contradicts its retained effects";
    let intent = field(Some(v), "intent");
    let re = field(field(intent, "release_config"), "remote_effects");
    let forge = (is_text(re, "auto") || is_text(re, "github") || is_text(re, "gitlab")) && !is_true(
        field(intent, "skip_tag"),
    );
    let phase = v.get("phase");
    let status = v.get("status");
    let done = |key: &str| -> (b: bool)
        ensures
            b == complete(at(v@, key@)),
        { is_text(field(v.get(key), "status"), "complete") };
    if (!is_text(phase, "planned") && !done("preparation")) || (is_text(phase, "released") && !is_text(status, "complete"))
        || (is_text(status, "aborted") && !done("abort")) {
        return reject(message);
    }
    if !is_text(status, "complete") {
        return Ok(());
    }
    if !is_text(phase, "released") || !done("commit_push") || !done("readiness") || !done("tag_push") {
        return reject(message);
    }
    let ghost qv = items_view(progress@);
    proof {
        lemma_items(progress@, progress@.len());
    }
    let mut j: usize = 0;
    while j < progress.len()
        invariant
            j <= progress@.len(),
            qv == items_view(progress@),
            qv.len() == progress@.len(),
            progress_of(v@) == qv,
            message@ == "release terminal state contradicts its retained effects"@,
            at(v@, "status"@) == JsonV::Str("complete"@),
            at(v@, "phase"@) == JsonV::Str("released"@),
            complete(at(v@, "commit_push"@)) && complete(at(v@, "readiness"@)) && complete(at(v@, "tag_push"@)),
            forge == (forge_effects(effects_of(v@)) && at(intent_of(v@), "skip_tag"@) != JsonV::Bool(true)),
            forall|k: int| 0 <= k < progress@.len() ==> #[trigger] qv[k] == jv(progress@[k]),
            forall|k: int| 0 <= k < j ==> !(!complete(at(#[trigger] qv[k], "tag"@)) || !complete(at(qv[k], "publication"@))
                || (forge && (!complete(at(qv[k], "forge_draft"@)) || !complete(at(qv[k], "forge_publication"@))))),
        decreases progress@.len() - j,
    {
        let q = &progress[j];
        let bad = !is_text(field(q.get("tag"), "status"), "complete") || !is_text(
            field(q.get("publication"), "status"),
            "complete",
        ) || (forge && (!is_text(field(q.get("forge_draft"), "status"), "complete") || !is_text(
            field(q.get("forge_publication"), "status"),
            "complete",
        )));
        if bad {
            proof {
                assert(progress_of(v@)[j as int] == qv[j as int]);
            }
            return reject(message);
        }
        j = j + 1;
    }
    Ok(())
}

/// A file template rendered for a package name and version.
pub open spec fn render_template(template: Seq<char>, name: Seq<char>, version: Seq<char>) -> Seq<char> {
    replace_all(replace_all(template, "{crate}"@, name), "{version}"@, version)
}

/// The resolved asset of one file template.
pub open spec fn asset_entry(rendered: Seq<char>, file: JsonV) -> JsonV {
    JsonV::Object(
        seq![("name"@, JsonV::Str(rendered)), ("source"@, at(file, "source"@)), ("target"@, at(file, "target"@))],
    )
}

/// The name of a resolved asset.
pub open spec fn asset_name(x: JsonV) -> Seq<char> {
    at(x, "name"@)->Str_0
}

/// Inserts a resolved asset after every asset whose name sorts no later, as a stable sort by
/// name places it.
pub open spec fn insert_by_name(sorted: Seq<JsonV>, x: JsonV) -> Seq<JsonV>
    decreases sorted.len(),
{
    if sorted.len() == 0 {
        seq![x]
    } else if crate::validation::text_lt(asset_name(x), asset_name(sorted[0])) {
        seq![x] + sorted
    } else {
        seq![sorted[0]] + insert_by_name(sorted.drop_first(), x)
    }
}

/// The resolved assets sorted by name, stably.
pub open spec fn sort_by_name(xs: Seq<JsonV>) -> Seq<JsonV>
    decreases xs.len(),
{
    if xs.len() == 0 {
        seq![]
    } else {
        insert_by_name(sort_by_name(xs.drop_last()), xs.last())
    }
}

/// The lowercase names of resolved assets.
pub open spec fn lower_names(xs: Seq<JsonV>) -> Seq<Seq<char>>
    decreases xs.len(),
{
    if xs.len() == 0 {
        seq![]
    } else {
        lower_names(xs.drop_last()).push(ascii_lower(asset_name(xs.last())))
    }
}

/// The first planned package with the name.
pub open spec fn package_named(ps: Seq<JsonV>, name: Seq<char>) -> Option<JsonV>
    decreases ps.len(),
{
    if ps.len() == 0 {
        None
    } else if at(ps[0], "name"@) == JsonV::Str(name) {
        Some(ps[0])
    } else {
        package_named(ps.drop_first(), name)
    }
}

/// One file template of an artifact: the names seen and assets resolved after it, or its failure.
pub open spec fn files_step(
    name: Seq<char>,
    package: Option<JsonV>,
    seen: Seq<Seq<char>>,
    out: Seq<JsonV>,
    template: Seq<char>,
    file: JsonV,
) -> Result<(Seq<Seq<char>>, Seq<JsonV>), Failure> {
    let placeholder = render_template(template, name, "0.0.0"@);
    let target = at(file, "target"@);
    if !spec_asset_filename(placeholder) || seen.contains(ascii_lower(placeholder)) || (target is Str && (
    !spec_asset_filename(target->Str_0) || !crate::text::has_char(target->Str_0, '-'))) {
        Err((ErrorKind::Rejected, "native artifact has an unsafe or conflicting filename or target"@))
    } else {
        let seen2 = seen.push(ascii_lower(placeholder));
        match package {
            None => Ok((seen2, out)),
            Some(p) => if !(at(p, "new_version"@) is Str) {
                Err(shape_failure()->0)
            } else {
                let rendered = render_template(template, name, at(p, "new_version"@)->Str_0);
                if !spec_asset_filename(rendered) {
                    Err((ErrorKind::Rejected, "resolved native asset filename is unsafe"@))
                } else {
                    Ok((seen2, out.push(asset_entry(rendered, file))))
                }
            },
        }
    }
}

/// The names already seen and the assets resolved from the first `n` file templates of an
/// artifact, or the failure of the first unsafe template.
pub open spec fn files_fold(
    name: Seq<char>,
    package: Option<JsonV>,
    files: Seq<(Seq<char>, JsonV)>,
    n: nat,
) -> Result<(Seq<Seq<char>>, Seq<JsonV>), Failure>
    decreases n,
{
    if n == 0 || n > files.len() {
        Ok((seq![], seq![]))
    } else {
        match files_fold(name, package, files, (n - 1) as nat) {
            Err(f) => Err(f),
            Ok((seen, out)) => files_step(name, package, seen, out, files[n - 1].0, files[n - 1].1),
        }
    }
}

/// The requirement one artifact policy resolves to, if it resolves any asset, or its failure.
pub open spec fn producer_requirement(v: JsonV, name: Seq<char>, producer: JsonV) -> Result<Option<JsonV>, Failure> {
    let workflow = at(producer, "workflow"@);
    if !(workflow is Str) {
        Err(shape_failure()->0)
    } else if !spec_asset_filename(name) || byte_len(name) > 64 || get(required_of(v), workflow->Str_0) is None {
        Err((ErrorKind::Rejected, "native artifact has no valid package or authorized workflow"@))
    } else if !(at(producer, "files"@) is Object) {
        Err(shape_failure()->0)
    } else {
        let files = at(producer, "files"@)->Object_0;
        match files_fold(name, package_named(packages_of(v), name), files, files.len()) {
            Err(f) => Err(f),
            Ok((_, out)) => requirement_from(name, workflow, out),
        }
    }
}

/// The requirement the resolved assets of an artifact make: none without assets, else the
/// assets sorted by name with the package and workflow, unless two names collide ignoring case.
pub open spec fn requirement_from(name: Seq<char>, workflow: JsonV, out: Seq<JsonV>) -> Result<Option<JsonV>, Failure> {
    if out.len() == 0 {
        Ok(None)
    } else {
        let sorted = sort_by_name(out);
        if !crate::validation::distinct(lower_names(sorted)) {
            Err((ErrorKind::Rejected, "resolved native asset filenames collide"@))
        } else {
            Ok(
                Some(
                    JsonV::Object(
                        seq![("files"@, JsonV::Array(sorted)), ("package"@, JsonV::Str(name)), ("workflow"@, workflow)],
                    ),
                ),
            )
        }
    }
}

/// The requirements of the first `n` artifact policies, in order, or the first failure.
pub open spec fn requirements_fold(v: JsonV, policies: Seq<(Seq<char>, JsonV)>, n: nat) -> Result<Seq<JsonV>, Failure>
    decreases n,
{
    if n == 0 || n > policies.len() {
        Ok(seq![])
    } else {
        match requirements_fold(v, policies, (n - 1) as nat) {
            Err(f) => Err(f),
            Ok(expected) => match producer_requirement(v, policies[n - 1].0, policies[n - 1].1) {
                Err(f) => Err(f),
                Ok(None) => Ok(expected),
                Ok(Some(r)) => Ok(expected.push(r)),
            },
        }
    }
}

/// The first validation run of the workflow.
pub open spec fn run_for(runs: Seq<JsonV>, workflow: JsonV) -> Option<JsonV>
    decreases runs.len(),
{
    if runs.len() == 0 {
        None
    } else if at(runs[0], "workflow"@) == workflow {
        Some(runs[0])
    } else {
        run_for(runs.drop_first(), workflow)
    }
}

/// The check of one retained artifact against its requirement: `Ok` with the IDs seen so far, or
/// its failure.
pub open spec fn artifact_step(v: JsonV, ids: Seq<u64>, artifact: JsonV, required: JsonV) -> Result<Seq<u64>, Failure> {
    let message = "native artifact evidence has the wrong producer, package, or inventory"@;
    let run = run_for(runs_of(v)->Array_0, at(required, "workflow"@));
    if at(artifact, "package"@) != at(required, "package"@) {
        Err((ErrorKind::Rejected, message))
    } else if !(at(artifact, "artifact_id"@) is UInt) {
        Err(shape_failure()->0)
    } else if ids.contains(at(artifact, "artifact_id"@)->UInt_0) {
        Err((ErrorKind::Rejected, message))
    } else if !(run matches Some(r) && at(r, "run_id"@) == at(artifact, "run_id"@) && at(r, "attempt"@) == at(
        artifact,
        "attempt"@,
    )) {
        Err((ErrorKind::Rejected, message))
    } else if !(at(artifact, "files"@) is Array) {
        Err(shape_failure()->0)
    } else if values_under(at(artifact, "files"@)->Array_0, "name"@) != values_under(
        array_items(at(required, "files"@)),
        "name"@,
    ) {
        Err((ErrorKind::Rejected, message))
    } else {
        Ok(ids.push(at(artifact, "artifact_id"@)->UInt_0))
    }
}

/// The checks of the first `n` retained artifacts against the requirements.
pub open spec fn artifacts_fold(v: JsonV, artifacts: Seq<JsonV>, expected: Seq<JsonV>, n: nat) -> Result<Seq<u64>, Failure>
    decreases n,
{
    if n == 0 || n > artifacts.len() || n > expected.len() {
        Ok(seq![])
    } else {
        match artifacts_fold(v, artifacts, expected, (n - 1) as nat) {
            Err(f) => Err(f),
            Ok(ids) => artifact_step(v, ids, artifacts[n - 1], expected[n - 1]),
        }
    }
}

/// The artifacts check: the native assets the configuration requires must be what the plan
/// captured, need GitHub release effects, and, once evidence is retained, be produced by the
/// required workflow runs with the required files.
pub open spec fn artifacts_check(v: JsonV) -> Option<Failure> {
    let policies = at(config_of(v), "artifacts"@);
    let re = at(config_of(v), "remote_effects"@);
    let phase = at(v, "phase"@);
    if !(policies is Object) {
        shape_failure()
    } else {
        match requirements_fold(v, policies->Object_0, policies->Object_0.len()) {
            Err(f) => Some(f),
            Ok(expected) => if at(plan_of(v), "artifacts"@) != JsonV::Array(expected) {
                rej("native asset requirements disagree with the captured configuration"@)
            } else if expected.len() != 0 && (at(intent_of(v), "skip_tag"@) == JsonV::Bool(true) || !(re
                == JsonV::Str("auto"@) || re == JsonV::Str("github"@)) || (re != JsonV::Str("github"@)
                && !on_github(v))) {
                rej("native artifacts have no authorized GitHub release effects"@)
            } else if !(at(v, "artifacts"@) is Array) {
                shape_failure()
            } else {
                let artifacts = at(v, "artifacts"@)->Array_0;
                if artifacts.len() == 0 && (phase == JsonV::Str("planned"@) || phase == JsonV::Str("prepared"@) || phase
                    == JsonV::Str("awaiting_review"@) || phase == JsonV::Str("awaiting_checks"@)) {
                    None
                } else if artifacts.len() != expected.len() || (artifacts.len() != 0 && !complete(
                    at(v, "readiness"@),
                )) {
                    rej("release has no complete authorized native artifact inventory"@)
                } else {
                    match artifacts_fold(v, artifacts, expected, artifacts.len()) {
                        Err(f) => Some(f),
                        Ok(_) => None,
                    }
                }
            },
        }
    }
}

/// The value an optional reference denotes, as an owned document.
fn owned_value(x: Option<&Json>) -> (r: Json)
    ensures
        r@ == ov(x),
{
    match x {
        Some(j) => crate::json::clone_json(j),
        None => Json::Null,
    }
}

fn package_by_name<'a>(ps: &'a Vec<Json>, name: &str) -> (r: Option<&'a Json>)
    ensures
        r matches Some(p) ==> package_named(items_view(ps@), name@) == Some(p@),
        r is None ==> package_named(items_view(ps@), name@) is None,
{
    let ghost values = items_view(ps@);
    proof {
        lemma_items(ps@, ps@.len());
        assert(values.skip(0) =~= values);
    }
    let mut i: usize = 0;
    while i < ps.len()
        invariant
            i <= ps@.len(),
            values == items_view(ps@),
            values.len() == ps@.len(),
            forall|k: int| 0 <= k < ps@.len() ==> #[trigger] values[k] == jv(ps@[k]),
            package_named(values, name@) == package_named(values.skip(i as int), name@),
        decreases ps@.len() - i,
    {
        proof {
            assert(values.skip(i as int)[0] == values[i as int]);
            assert(values.skip(i as int).drop_first() =~= values.skip(i + 1));
        }
        if is_text(ps[i].get("name"), name) {
            proof {
                assert(package_named(items_view(ps@), name@) == Some(ps[i as int]@));
            }
            return Some(&ps[i]);
        }
        i = i + 1;
    }
    proof {
        assert(values.skip(i as int) =~= seq![]);
    }
    None
}

fn asset_value(rendered: String, file: &Json) -> (r: Json)
    ensures
        r@ == asset_entry(rendered@, file@),
{
    let entries = vec![
        (crate::text::owned("name"), Json::Str(rendered)),
        (crate::text::owned("source"), owned_value(file.get("source"))),
        (crate::text::owned("target"), owned_value(file.get("target"))),
    ];
    proof {
        lemma_entries(entries@, entries@.len());
        assert(entries_view(entries@) =~= asset_entry(rendered@, file@)->Object_0);
    }
    Json::Object(entries)
}

proof fn lemma_files_fold_err(
    name: Seq<char>,
    package: Option<JsonV>,
    files: Seq<(Seq<char>, JsonV)>,
    n: nat,
)
    requires
        n <= files.len(),
        files_fold(name, package, files, n) is Err,
    ensures
        files_fold(name, package, files, files.len() as nat) == files_fold(name, package, files, n),
    decreases files.len() - n,
{
    if n < files.len() {
        lemma_files_fold_err(name, package, files, n + 1);
    }
}

fn resolve_one(
    name: &str,
    package: Option<&Json>,
    template: &str,
    file: &Json,
    seen: &mut Vec<String>,
    out: &mut Vec<Json>,
) -> (r: Result<(), ActionError>)
    ensures
        ({
            let pv = match package {
                Some(p) => Some(p@),
                None => None::<JsonV>,
            };
            match files_step(name@, pv, strs_view(old(seen)@), items_view(old(out)@), template@, file@) {
                Ok((s2, o2)) => r is Ok && strs_view(final(seen)@) == s2 && items_view(final(out)@) == o2,
                Err(f) => r matches Err(e) && (e.kind, e.message@) == f,
            }
        }),
{
    proof {
        reveal_strlit("{crate}");
        reveal_strlit("{version}");
    }
    let placeholder = replace(replace(template, "{crate}", name).as_str(), "{version}", "0.0.0");
    let lower = crate::text::string_of(&lower_chars(&chars_of(placeholder.as_str())));
    let target_bad = match text(file.get("target")) {
        Some(t) => !asset_filename(t) || !crate::text::contains_char(&chars_of(t), '-'),
        None => false,
    };
    let ghost pv = match package {
        Some(p) => Some(p@),
        None => None::<JsonV>,
    };
    proof {
        assert(placeholder@ == render_template(template@, name@, "0.0.0"@));
        assert(lower@ == ascii_lower(placeholder@));
        assert(target_bad == (at(file@, "target"@) is Str && (!spec_asset_filename(at(file@, "target"@)->Str_0)
            || !crate::text::has_char(at(file@, "target"@)->Str_0, '-'))));
    }
    if !asset_filename(placeholder.as_str()) || crate::plan_validation::str_in(seen, lower.as_str()) || target_bad {
        proof {
            assert(files_step(name@, pv, strs_view(old(seen)@), items_view(old(out)@), template@, file@) is Err);
        }
        return Err(rejection("native artifact has an unsafe or conflicting filename or target"));
    }
    let ghost seen_before = seen@;
    let ghost out_before = out@;
    seen.push(lower);
    proof {
        assert(strs_view(seen@) =~= strs_view(seen_before).push(ascii_lower(placeholder@)));
    }
    match package {
        None => Ok(()),
        Some(p) => {
            let version = match text(p.get("new_version")) {
                Some(v) => v,
                None => return Err(shape_error()),
            };
            let rendered = replace(replace(template, "{crate}", name).as_str(), "{version}", version);
            if !asset_filename(rendered.as_str()) {
                return Err(rejection("resolved native asset filename is unsafe"));
            }
            let entry = asset_value(rendered, file);
            out.push(entry);
            proof {
                crate::json::lemma_items_push(out_before, out@.last());
                assert(out@ =~= out_before.push(out@.last()));
            }
            Ok(())
        },
    }
}

/// The templates of one artifact resolved: the assets of its package, or the first failure.
fn resolve_files(name: &str, package: Option<&Json>, files: &Vec<(String, Json)>) -> (r: Result<Vec<Json>, ActionError>)
    ensures
        ({
            let pv = match package {
                Some(p) => Some(p@),
                None => None::<JsonV>,
            };
            match files_fold(name@, pv, entries_view(files@), files@.len() as nat) {
                Ok((_, out)) => r matches Ok(v) && items_view(v@) == out,
                Err(f) => r matches Err(e) && (e.kind, e.message@) == f,
            }
        }),
{
    let ghost pv = match package {
        Some(p) => Some(p@),
        None => None::<JsonV>,
    };
    let ghost fv = entries_view(files@);
    proof {
        lemma_entries(files@, files@.len());
    }
    let mut seen: Vec<String> = Vec::new();
    let mut out: Vec<Json> = Vec::new();
    let mut i: usize = 0;
    proof {
        assert(items_view(out@) =~= seq![]);
        assert(strs_view(seen@) =~= seq![]);
    }
    while i < files.len()
        invariant
            i <= files@.len(),
            fv == entries_view(files@),
            fv.len() == files@.len(),
            pv == (match package {
                Some(p) => Some(p@),
                None => None::<JsonV>,
            }),
            forall|k: int| 0 <= k < files@.len() ==> #[trigger] fv[k] == (files@[k].0@, jv(files@[k].1)),
            files_fold(name@, pv, fv, i as nat) == Ok::<(Seq<Seq<char>>, Seq<JsonV>), Failure>(
                (strs_view(seen@), items_view(out@)),
            ),
        decreases files@.len() - i,
    {
        proof {
            assert(fv[i as int] == (files@[i as int].0@, files@[i as int].1@));
        }
        let step = resolve_one(name, package, files[i].0.as_str(), &files[i].1, &mut seen, &mut out);
        if step.is_err() {
            proof {
                lemma_files_fold_err(name@, pv, fv, (i + 1) as nat);
            }
            return Err(step.unwrap_err());
        }
        i = i + 1;
    }
    Ok(out)
}

/// Whether every asset has a string name.
pub open spec fn all_named(xs: Seq<JsonV>) -> bool {
    forall|i: int| 0 <= i < xs.len() ==> (#[trigger] at(xs[i], "name"@)) is Str
}

proof fn lemma_insert_by_name(s: Seq<JsonV>, x: JsonV, k: int)
    requires
        0 <= k <= s.len(),
        forall|j: int| 0 <= j < k ==> !crate::validation::text_lt(asset_name(x), asset_name(#[trigger] s[j])),
        k == s.len() || crate::validation::text_lt(asset_name(x), asset_name(s[k])),
    ensures
        insert_by_name(s, x) == s.insert(k, x),
    decreases k,
{
    if k == 0 {
        if s.len() == 0 {
            assert(s.insert(0, x) =~= seq![x]);
        } else {
            assert(s.insert(0, x) =~= seq![x] + s);
        }
    } else {
        let t = s.drop_first();
        assert forall|j: int| 0 <= j < k - 1 implies !crate::validation::text_lt(asset_name(x), asset_name(#[trigger] t[j])) by {
            assert(t[j] == s[j + 1]);
        }
        if k < s.len() {
            assert(t[k - 1] == s[k]);
        }
        lemma_insert_by_name(t, x, k - 1);
        assert(s.insert(k, x) =~= seq![s[0]] + t.insert(k - 1, x));
    }
}

proof fn lemma_insert_named(s: Seq<JsonV>, x: JsonV)
    requires
        all_named(s),
        at(x, "name"@) is Str,
    ensures
        all_named(insert_by_name(s, x)),
        insert_by_name(s, x).len() == s.len() + 1,
    decreases s.len(),
{
    if s.len() > 0 && !crate::validation::text_lt(asset_name(x), asset_name(s[0])) {
        let t = s.drop_first();
        assert(all_named(t)) by {
            assert forall|i: int| 0 <= i < t.len() implies (#[trigger] at(t[i], "name"@)) is Str by {
                assert(t[i] == s[i + 1]);
            }
        }
        lemma_insert_named(t, x);
        let r = insert_by_name(s, x);
        assert(r == seq![s[0]] + insert_by_name(t, x));
        assert forall|i: int| 0 <= i < r.len() implies (#[trigger] at(r[i], "name"@)) is Str by {
            if i > 0 {
                assert(r[i] == insert_by_name(t, x)[i - 1]);
            }
        }
    } else if s.len() > 0 {
        let r = insert_by_name(s, x);
        assert(r == seq![x] + s);
        assert forall|i: int| 0 <= i < r.len() implies (#[trigger] at(r[i], "name"@)) is Str by {
            if i > 0 {
                assert(r[i] == s[i - 1]);
            }
        }
    } else {
        assert(insert_by_name(s, x) == seq![x]);
    }
}

fn name_of(x: &Json) -> (r: &str)
    requires
        at(x@, "name"@) is Str,
    ensures
        r@ == asset_name(x@),
{
    text(x.get("name")).unwrap()
}

/// The first position whose asset's name sorts after `name`, or the end.
fn insert_position(sorted: &Vec<Json>, name: &str) -> (k: usize)
    requires
        all_named(items_view(sorted@)),
    ensures
        k <= sorted@.len(),
        forall|j: int| 0 <= j < k ==> !crate::validation::text_lt(name@, asset_name(#[trigger] items_view(sorted@)[j])),
        k == sorted@.len() || crate::validation::text_lt(name@, asset_name(items_view(sorted@)[k as int])),
{
    let ghost sv = items_view(sorted@);
    proof {
        lemma_items(sorted@, sorted@.len());
    }
    let mut k: usize = 0;
    while k < sorted.len()
        invariant
            k <= sorted@.len(),
            sv == items_view(sorted@),
            sv.len() == sorted@.len(),
            all_named(sv),
            forall|j: int| 0 <= j < sorted@.len() ==> #[trigger] sv[j] == jv(sorted@[j]),
            forall|j: int| 0 <= j < k ==> !crate::validation::text_lt(name@, asset_name(#[trigger] sv[j])),
        decreases sorted@.len() - k,
    {
        proof {
            assert(at(sv[k as int], "name"@) is Str);
        }
        if crate::validation::text_less(name, name_of(&sorted[k])) {
            return k;
        }
        k = k + 1;
    }
    k
}

/// The assets sorted by name, stably.
fn sort_assets(xs: &Vec<Json>) -> (r: Vec<Json>)
    requires
        all_named(items_view(xs@)),
    ensures
        items_view(r@) == sort_by_name(items_view(xs@)),
        all_named(items_view(r@)),
{
    let ghost xv = items_view(xs@);
    proof {
        lemma_items(xs@, xs@.len());
    }
    let mut sorted: Vec<Json> = Vec::new();
    proof {
        assert(items_view(sorted@) =~= seq![]);
        assert(xv.take(0) =~= seq![]);
    }
    let mut i: usize = 0;
    while i < xs.len()
        invariant
            i <= xs@.len(),
            xv == items_view(xs@),
            xv.len() == xs@.len(),
            all_named(xv),
            forall|k: int| 0 <= k < xs@.len() ==> #[trigger] xv[k] == jv(xs@[k]),
            items_view(sorted@) == sort_by_name(xv.take(i as int)),
            all_named(items_view(sorted@)),
        decreases xs@.len() - i,
    {
        let ghost sv = items_view(sorted@);
        proof {
            lemma_items(sorted@, sorted@.len());
            assert(xv.take(i + 1).drop_last() =~= xv.take(i as int));
            assert(at(xv[i as int], "name"@) is Str);
        }
        let x = &xs[i];
        let name = name_of(x);
        let k = insert_position(&sorted, name);
        proof {
            lemma_insert_by_name(sv, x@, k as int);
            lemma_insert_named(sv, x@);
        }
        let c = crate::json::clone_json(x);
        sorted.insert(k, c);
        proof {
            lemma_items(sorted@, sorted@.len());
            assert(items_view(sorted@) =~= sv.insert(k as int, x@));
        }
        i = i + 1;
    }
    proof {
        assert(xv.take(i as int) =~= xv);
    }
    sorted
}

proof fn lemma_files_fold_named(
    name: Seq<char>,
    package: Option<JsonV>,
    files: Seq<(Seq<char>, JsonV)>,
    n: nat,
)
    ensures
        files_fold(name, package, files, n) matches Ok((_, out)) ==> all_named(out),
    decreases n,
{
    if n > 0 && n <= files.len() {
        lemma_files_fold_named(name, package, files, (n - 1) as nat);
        match files_fold(name, package, files, (n - 1) as nat) {
            Ok((seen, out)) => {
                match files_step(name, package, seen, out, files[n - 1].0, files[n - 1].1) {
                    Ok((_, out2)) => {
                        assert forall|i: int| 0 <= i < out2.len() implies (#[trigger] at(out2[i], "name"@)) is Str by {
                            if i < out.len() {
                                assert(out2[i] == out[i]);
                            }
                        }
                    },
                    Err(_) => {},
                }
            },
            Err(_) => {},
        }
    }
}

fn lower_asset_names(xs: &Vec<Json>) -> (r: Vec<String>)
    requires
        all_named(items_view(xs@)),
    ensures
        strs_view(r@) == lower_names(items_view(xs@)),
{
    let ghost xv = items_view(xs@);
    proof {
        lemma_items(xs@, xs@.len());
    }
    let mut out: Vec<String> = Vec::new();
    let mut i: usize = 0;
    while i < xs.len()
        invariant
            i <= xs@.len(),
            xv == items_view(xs@),
            xv.len() == xs@.len(),
            all_named(xv),
            forall|k: int| 0 <= k < xs@.len() ==> #[trigger] xv[k] == jv(xs@[k]),
            strs_view(out@) == lower_names(xv.take(i as int)),
        decreases xs@.len() - i,
    {
        proof {
            assert(xv.take(i + 1).drop_last() =~= xv.take(i as int));
            assert(at(xv[i as int], "name"@) is Str);
        }
        let lower = crate::text::string_of(&lower_chars(&chars_of(name_of(&xs[i]))));
        out.push(lower);
        proof {
            assert(strs_view(out@) =~= lower_names(xv.take(i + 1)));
        }
        i = i + 1;
    }
    proof {
        assert(xv.take(i as int) =~= xv);
    }
    out
}

/// The requirement one artifact policy resolves to.
fn requirement_of(v: &Json, ps: &Vec<Json>, name: &str, producer: &Json) -> (r: Result<Option<Json>, ActionError>)
    requires
        at(plan_of(v@), "crates"@) == JsonV::Array(items_view(ps@)),
    ensures
        match producer_requirement(v@, name@, producer@) {
            Ok(None) => r matches Ok(None),
            Ok(Some(x)) => r matches Ok(Some(j)) && j@ == x,
            Err(f) => r matches Err(e) && (e.kind, e.message@) == f,
        },
{
    let workflow = match text(producer.get("workflow")) {
        Some(w) => w,
        None => return Err(shape_error()),
    };
    let required = field(field(field(Some(v), "intent"), "release_config"), "validation");
    if !asset_filename(name) || name.as_bytes().len() > 64 || lookup(required, workflow).is_none() {
        return Err(rejection("native artifact has no valid package or authorized workflow"));
    }
    let files = match entries(producer.get("files")) {
        Some(f) => f,
        None => return Err(shape_error()),
    };
    let package = package_by_name(ps, name);
    proof {
        let pv = match package {
            Some(p) => Some(p@),
            None => None::<JsonV>,
        };
        assert(packages_of(v@) == items_view(ps@));
        assert(pv == package_named(packages_of(v@), name@));
        assert(at(producer@, "files"@) == JsonV::Object(entries_view(files@)));
        assert(at(producer@, "workflow"@) == JsonV::Str(workflow@));
        lemma_entries(files@, files@.len());
    }
    let out = match resolve_files(name, package, files) {
        Ok(out) => out,
        Err(e) => return Err(e),
    };
    proof {
        let pv = match package {
            Some(p) => Some(p@),
            None => None::<JsonV>,
        };
        lemma_files_fold_named(name@, pv, entries_view(files@), files@.len() as nat);
    }
    finish_requirement(name, producer.get("workflow"), out)
}

fn finish_requirement(name: &str, workflow: Option<&Json>, out: Vec<Json>) -> (r: Result<Option<Json>, ActionError>)
    requires
        all_named(items_view(out@)),
    ensures
        match requirement_from(name@, ov(workflow), items_view(out@)) {
            Ok(None) => r matches Ok(None),
            Ok(Some(x)) => r matches Ok(Some(j)) && j@ == x,
            Err(f) => r matches Err(e) && (e.kind, e.message@) == f,
        },
{
    proof {
        lemma_items(out@, out@.len());
    }
    if out.len() == 0 {
        return Ok(None);
    }
    let sorted = sort_assets(&out);
    let lowered = lower_asset_names(&sorted);
    if crate::validation::has_duplicate(&lowered) {
        return Err(rejection("resolved native asset filenames collide"));
    }
    let ghost sv = items_view(sorted@);
    let entries = vec![
        (crate::text::owned("files"), Json::Array(sorted)),
        (crate::text::owned("package"), Json::Str(crate::text::owned(name))),
        (crate::text::owned("workflow"), owned_value(workflow)),
    ];
    proof {
        lemma_entries(entries@, entries@.len());
        assert(entries_view(entries@) =~= seq![
            ("files"@, JsonV::Array(sv)),
            ("package"@, JsonV::Str(name@)),
            ("workflow"@, ov(workflow)),
        ]);
    }
    Ok(Some(Json::Object(entries)))
}

proof fn lemma_requirements_err(v: JsonV, policies: Seq<(Seq<char>, JsonV)>, n: nat)
    requires
        n <= policies.len(),
        requirements_fold(v, policies, n) is Err,
    ensures
        requirements_fold(v, policies, policies.len()) == requirements_fold(v, policies, n),
    decreases policies.len() - n,
{
    if n < policies.len() {
        lemma_requirements_err(v, policies, n + 1);
    }
}

fn requirements(v: &Json, ps: &Vec<Json>, policies: &Vec<(String, Json)>) -> (r: Result<Vec<Json>, ActionError>)
    requires
        at(plan_of(v@), "crates"@) == JsonV::Array(items_view(ps@)),
    ensures
        match requirements_fold(v@, entries_view(policies@), policies@.len() as nat) {
            Ok(expected) => r matches Ok(e) && items_view(e@) == expected,
            Err(f) => r matches Err(e) && (e.kind, e.message@) == f,
        },
{
    let ghost pv = entries_view(policies@);
    proof {
        lemma_entries(policies@, policies@.len());
    }
    let mut expected: Vec<Json> = Vec::new();
    proof {
        assert(items_view(expected@) =~= seq![]);
    }
    let mut i: usize = 0;
    while i < policies.len()
        invariant
            i <= policies@.len(),
            pv == entries_view(policies@),
            pv.len() == policies@.len(),
            at(plan_of(v@), "crates"@) == JsonV::Array(items_view(ps@)),
            forall|k: int| 0 <= k < policies@.len() ==> #[trigger] pv[k] == (policies@[k].0@, jv(policies@[k].1)),
            requirements_fold(v@, pv, i as nat) == Ok::<Seq<JsonV>, Failure>(items_view(expected@)),
        decreases policies@.len() - i,
    {
        let ghost before = expected@;
        match requirement_of(v, ps, policies[i].0.as_str(), &policies[i].1) {
            Ok(None) => {},
            Ok(Some(req)) => {
                expected.push(req);
                proof {
                    crate::json::lemma_items_push(before, expected@.last());
                    assert(expected@ =~= before.push(expected@.last()));
                }
            },
            Err(e) => {
                proof {
                    lemma_requirements_err(v@, pv, (i + 1) as nat);
                }
                return Err(e);
            },
        }
        i = i + 1;
    }
    Ok(expected)
}

fn run_of<'a>(runs: &'a Vec<Json>, workflow: Option<&Json>) -> (r: Option<&'a Json>)
    ensures
        r matches Some(x) ==> run_for(items_view(runs@), ov(workflow)) == Some(x@),
        r is None ==> run_for(items_view(runs@), ov(workflow)) is None,
{
    let ghost values = items_view(runs@);
    proof {
        lemma_items(runs@, runs@.len());
        assert(values.skip(0) =~= values);
    }
    let mut i: usize = 0;
    while i < runs.len()
        invariant
            i <= runs@.len(),
            values == items_view(runs@),
            values.len() == runs@.len(),
            forall|k: int| 0 <= k < runs@.len() ==> #[trigger] values[k] == jv(runs@[k]),
            run_for(values, ov(workflow)) == run_for(values.skip(i as int), ov(workflow)),
        decreases runs@.len() - i,
    {
        proof {
            assert(values.skip(i as int)[0] == values[i as int]);
            assert(values.skip(i as int).drop_first() =~= values.skip(i + 1));
        }
        if ov_eq(runs[i].get("workflow"), workflow) {
            proof {
                assert(run_for(items_view(runs@), ov(workflow)) == Some(runs[i as int]@));
            }
            return Some(&runs[i]);
        }
        i = i + 1;
    }
    proof {
        assert(values.skip(i as int) =~= seq![]);
    }
    None
}

fn file_names_equal(a: &Vec<Json>, b: Option<&Json>) -> (r: bool)
    ensures
        r == (values_under(items_view(a@), "name"@) == values_under(array_items(ov(b)), "name"@)),
{
    let bs: Vec<Json> = Vec::new();
    let b_items = match items(b) {
        Some(x) => x,
        None => &bs,
    };
    proof {
        lemma_items(bs@, bs@.len());
        assert(items_view(bs@) =~= seq![]);
        assert(array_items(ov(b)) == items_view(b_items@));
    }
    let ghost av = items_view(a@);
    let ghost bv = items_view(b_items@);
    proof {
        lemma_items(a@, a@.len());
        lemma_items(b_items@, b_items@.len());
        lemma_values_under_len(av, "name"@);
        lemma_values_under_len(bv, "name"@);
    }
    if a.len() != b_items.len() {
        proof {
            assert(values_under(av, "name"@).len() != values_under(bv, "name"@).len());
        }
        return false;
    }
    let mut i: usize = 0;
    while i < a.len()
        invariant
            i <= a@.len() == b_items@.len(),
            array_items(ov(b)) == bv,
            av == items_view(a@),
            bv == items_view(b_items@),
            av.len() == a@.len(),
            bv.len() == b_items@.len(),
            values_under(av, "name"@).len() == av.len(),
            values_under(bv, "name"@).len() == bv.len(),
            forall|k: int| 0 <= k < a@.len() ==> #[trigger] av[k] == jv(a@[k]),
            forall|k: int| 0 <= k < b_items@.len() ==> #[trigger] bv[k] == jv(b_items@[k]),
            forall|k: int| 0 <= k < i ==> values_under(av, "name"@)[k] == values_under(bv, "name"@)[k],
        decreases a@.len() - i,
    {
        proof {
            lemma_values_under_at(av, "name"@, i as int);
            lemma_values_under_at(bv, "name"@, i as int);
        }
        if !ov_eq(a[i].get("name"), b_items[i].get("name")) {
            proof {
                assert(values_under(av, "name"@)[i as int] != values_under(bv, "name"@)[i as int]);
                assert(values_under(av, "name"@) != values_under(bv, "name"@));
            }
            return false;
        }
        i = i + 1;
    }
    proof {
        assert(values_under(av, "name"@) =~= values_under(bv, "name"@));
    }
    true
}

fn artifact_step_exec(v: &Json, runs: &Vec<Json>, ids: &mut Vec<u64>, artifact: &Json, required: &Json) -> (r: Result<(), ActionError>)
    requires
        runs_of(v@) == JsonV::Array(items_view(runs@)),
    ensures
        match artifact_step(v@, old(ids)@, artifact@, required@) {
            Ok(next) => r is Ok && final(ids)@ == next,
            Err(f) => r matches Err(e) && (e.kind, e.message@) == f,
        },
{
    let message = "native artifact evidence has the wrong producer, package, or inventory";
    let run = run_of(runs, required.get("workflow"));
    if !ov_eq(artifact.get("package"), required.get("package")) {
        return Err(rejection(message));
    }
    let id = match uint(artifact.get("artifact_id")) {
        Some(id) => id,
        None => return Err(shape_error()),
    };
    let mut seen = false;
    let mut k: usize = 0;
    while k < ids.len()
        invariant
            k <= ids@.len(),
            seen == exists|j: int| 0 <= j < k && ids@[j] == id,
        decreases ids@.len() - k,
    {
        if ids[k] == id {
            seen = true;
        }
        k = k + 1;
    }
    if seen {
        return Err(rejection(message));
    }
    let run_ok = match run {
        Some(r) => ov_eq(r.get("run_id"), artifact.get("run_id")) && ov_eq(r.get("attempt"), artifact.get("attempt")),
        None => false,
    };
    if !run_ok {
        return Err(rejection(message));
    }
    let files = match items(artifact.get("files")) {
        Some(f) => f,
        None => return Err(shape_error()),
    };
    if !file_names_equal(files, required.get("files")) {
        return Err(rejection(message));
    }
    ids.push(id);
    Ok(())
}

proof fn lemma_artifacts_err(v: JsonV, artifacts: Seq<JsonV>, expected: Seq<JsonV>, n: nat)
    requires
        n <= artifacts.len() == expected.len(),
        artifacts_fold(v, artifacts, expected, n) is Err,
    ensures
        artifacts_fold(v, artifacts, expected, artifacts.len()) == artifacts_fold(v, artifacts, expected, n),
    decreases artifacts.len() - n,
{
    if n < artifacts.len() {
        lemma_artifacts_err(v, artifacts, expected, n + 1);
    }
}

/// Checks the native artifact policy, the requirements the plan captured, and the retained
/// artifact evidence.
fn check_artifacts(v: &Json) -> (r: Result<(), ActionError>)
    requires
        at(plan_of(v@), "crates"@) is Array,
        runs_of(v@) is Array,
    ensures
        verdict_of(r) == artifacts_check(v@),
{
    let intent = field(Some(v), "intent");
    let config = field(intent, "release_config");
    let plan = field(intent, "plan");
    let policies = match entries(field(config, "artifacts")) {
        Some(p) => p,
        None => return Err(shape_error()),
    };
    let ps = items(field(plan, "crates")).unwrap();
    proof {
        lemma_entries(policies@, policies@.len());
    }
    let expected = match requirements(v, ps, policies) {
        Ok(e) => e,
        Err(e) => return Err(e),
    };
    let ghost ev = items_view(expected@);
    proof {
        lemma_items(expected@, expected@.len());
    }
    let doc = Json::Array(crate::json_nav::clone_items(&expected));
    if !ov_eq(field(plan, "artifacts"), Some(&doc)) {
        return reject("native asset requirements disagree with the captured configuration");
    }
    let re = field(config, "remote_effects");
    if expected.len() != 0 && (is_true(field(intent, "skip_tag")) || !(is_text(re, "auto") || is_text(re, "github"))
        || (!is_text(re, "github") && !is_text(field(field(intent, "remote_repository"), "host"), "github.com"))) {
        return reject("native artifacts have no authorized GitHub release effects");
    }
    let artifacts = match items(v.get("artifacts")) {
        Some(a) => a,
        None => return Err(shape_error()),
    };
    proof {
        lemma_items(artifacts@, artifacts@.len());
    }
    let phase = v.get("phase");
    if artifacts.len() == 0 && (is_text(phase, "planned") || is_text(phase, "prepared") || is_text(
        phase,
        "awaiting_review",
    ) || is_text(phase, "awaiting_checks")) {
        return Ok(());
    }
    if artifacts.len() != expected.len() || (artifacts.len() != 0 && !is_text(
        field(v.get("readiness"), "status"),
        "complete",
    )) {
        proof {
            let pol = at(config_of(v@), "artifacts"@);
            assert(pol is Object);
            assert(pol->Object_0 == entries_view(policies@));
            assert(requirements_fold(v@, pol->Object_0, pol->Object_0.len()) == Ok::<Seq<JsonV>, Failure>(ev));
            assert(at(plan_of(v@), "artifacts"@) == JsonV::Array(ev));
            assert(at(v@, "artifacts"@) == JsonV::Array(items_view(artifacts@)));
            let re2 = at(config_of(v@), "remote_effects"@);
            assert(!(ev.len() != 0 && (at(intent_of(v@), "skip_tag"@) == JsonV::Bool(true) || !(re2
                == JsonV::Str("auto"@) || re2 == JsonV::Str("github"@)) || (re2 != JsonV::Str("github"@)
                && !on_github(v@)))));
            let ph = at(v@, "phase"@);
            assert(!(items_view(artifacts@).len() == 0 && (ph == JsonV::Str("planned"@) || ph == JsonV::Str("prepared"@) || ph
                    == JsonV::Str("awaiting_review"@) || ph == JsonV::Str("awaiting_checks"@))));
        }
        return reject("release has no complete authorized native artifact inventory");
    }
    let runs = items(v.get("validation")).unwrap();
    let ghost av = items_view(artifacts@);
    proof {
        assert(artifacts_check(v@) == match artifacts_fold(v@, av, ev, av.len()) {
            Err(f) => Some(f),
            Ok(_) => None::<Failure>,
        });
    }
    let mut ids: Vec<u64> = Vec::new();
    let mut i: usize = 0;
    while i < artifacts.len()
        invariant
            i <= artifacts@.len() == expected@.len(),
            av == items_view(artifacts@),
            ev == items_view(expected@),
            av.len() == artifacts@.len(),
            ev.len() == expected@.len(),
            runs_of(v@) == JsonV::Array(items_view(runs@)),
            forall|k: int| 0 <= k < artifacts@.len() ==> #[trigger] av[k] == jv(artifacts@[k]),
            forall|k: int| 0 <= k < expected@.len() ==> #[trigger] ev[k] == jv(expected@[k]),
            artifacts_fold(v@, av, ev, i as nat) == Ok::<Seq<u64>, Failure>(ids@),
            artifacts_check(v@) == match artifacts_fold(v@, av, ev, av.len()) {
                Err(f) => Some(f),
                Ok(_) => None::<Failure>,
            },
        decreases artifacts@.len() - i,
    {
        let step = artifact_step_exec(v, runs, &mut ids, &artifacts[i], &expected[i]);
        if step.is_err() {
            proof {
                lemma_artifacts_err(v@, av, ev, (i + 1) as nat);
            }
            return step;
        }
        i = i + 1;
    }
    Ok(())
}

/// The first failure of two checks made in order.
pub open spec fn then(first: Option<Failure>, second: Option<Failure>) -> Option<Failure> {
    if first is Some {
        first
    } else {
        second
    }
}

/// The checks that follow the schema, in the order they are made.
pub open spec fn consistency_verdict(v: JsonV, intent: Seq<char>, source: Seq<char>, repository: Seq<char>) -> Option<
    Failure,
> {
    then(
        identity_check(v, intent, source, repository),
        then(
            selection_check(v),
            then(
                packages_check(v, packages_of(v)),
                then(
                    lockfiles_check(v),
                    then(
                        seal_check(v),
                        then(
                            progress_checks(v, progress_of(v), packages_of(v), progress_of(v).len()),
                            then(
                                validation_check(v),
                                then(
                                    readiness_check(v),
                                    then(
                                        review_check(v),
                                        then(
                                            hosted_check(v),
                                            then(
                                                aliases_check(v),
                                                then(promotion_check(v), then(artifacts_check(v), terminal_check(v))),
                                            ),
                                        ),
                                    ),
                                ),
                            ),
                        ),
                    ),
                ),
            ),
        ),
    )
}

/// What reading a release record gives: a record over 16 MiB, one holding a non-integer number,
/// one the release schema rejects (or a schema that does not compile), or one that fails a
/// consistency check is refused with that check's message; any other record is accepted.
pub open spec fn read_verdict(
    size: nat,
    v: JsonV,
    intent: Seq<char>,
    source: Seq<char>,
    repository: Seq<char>,
    schema: Seq<u8>,
) -> Option<Failure> {
    if size > MAX_RECORD_BYTES {
        rej("release record exceeds 16 MiB"@)
    } else if has_float(v) {
        rej("release records cannot contain floating-point numbers"@)
    } else if schema_error(schema) is Some {
        Some((ErrorKind::Operational, "invalid built-in release schema: "@ + schema_error(schema)->0))
    } else if instance_error(schema, encode(v)) is Some {
        rej("invalid release record: "@ + instance_error(schema, encode(v))->0)
    } else {
        consistency_verdict(v, intent, source, repository)
    }
}

proof fn lemma_packages_versions(v: JsonV, ps: Seq<JsonV>)
    requires
        packages_check(v, ps) is None,
    ensures
        forall|i: int| 0 <= i < ps.len() ==> (#[trigger] at(ps[i], "new_version"@)) is Str,
    decreases ps.len(),
{
    if ps.len() > 0 {
        lemma_packages_versions(v, ps.drop_last());
        assert forall|i: int| 0 <= i < ps.len() implies (#[trigger] at(ps[i], "new_version"@)) is Str by {
            if i < ps.len() - 1 {
                assert(ps[i] == ps.drop_last()[i]);
            }
        }
    }
}

proof fn lemma_all_have_str_at(xs: Seq<JsonV>, key: Seq<char>, i: int)
    requires
        all_have_str(xs, key),
        0 <= i < xs.len(),
    ensures
        at(xs[i], key) is Str,
{
}

fn check_consistency(v: &Json, intent: &str, source: &str, repository: &str) -> (r: Result<(), ActionError>)
    ensures
        verdict_of(r) == consistency_verdict(v@, intent@, source@, repository@),
{
    check_identity(v, intent, source, repository)?;
    check_selection(v)?;
    let plan = field(field(Some(v), "intent"), "plan");
    let ps = items(field(plan, "crates")).unwrap();
    let qs = items(v.get("crates")).unwrap();
    let names = texts_under(ps, "name").unwrap();
    proof {
        lemma_items(ps@, ps@.len());
        lemma_items(qs@, qs@.len());
        lemma_field_texts_len(packages_of(v@), "name"@);
    }
    check_packages(v, ps)?;
    check_lockfiles(v)?;
    check_seal(v, ps)?;
    proof {
        lemma_packages_versions(v@, packages_of(v@));
        assert forall|i: int| 0 <= i < ps@.len() implies (#[trigger] at(items_view(ps@)[i], "name"@)) is Str && at(
            items_view(ps@)[i],
            "tag_name"@,
        ) is Str && at(items_view(ps@)[i], "new_version"@) is Str by {
            lemma_all_have_str_at(packages_of(v@), "name"@, i);
            lemma_all_have_str_at(packages_of(v@), "tag_name"@, i);
        }
    }
    check_all_progress(v, qs, ps)?;
    check_validation(v)?;
    check_readiness(v)?;
    check_review(v)?;
    check_hosted(v)?;
    check_aliases(v)?;
    check_promotion(v, &names, qs)?;
    check_artifacts(v)?;
    check_terminal(v, qs)
}

/// Reads a release record of `size` bytes whose document is `v`, against the release schema and
/// the expected intent identity, source and repository (`<host>/<path>`).
pub fn read(
    size: u64,
    v: &Json,
    intent: &str,
    source: &str,
    repository: &str,
    schema: &[u8],
) -> (r: Result<(), ActionError>)
    ensures
        verdict_of(r) == read_verdict(size as nat, v@, intent@, source@, repository@, schema@),
{
    if size > MAX_RECORD_BYTES {
        return Err(rejection("release record exceeds 16 MiB"));
    }
    if contains_float(v) {
        return Err(rejection("release records cannot contain floating-point numbers"));
    }
    match compile_schema(schema) {
        Some(error) => {
            let mut m = crate::text::owned("invalid built-in release schema: ");
            push_str(&mut m, error.as_str());
            return Err(ActionError::operational(m));
        },
        None => {},
    }
    let document = crate::json::to_bytes(v);
    match check_instance(schema, document.as_slice()) {
        Some(error) => {
            let mut m = crate::text::owned("invalid release record: ");
            push_str(&mut m, error.as_str());
            return Err(ActionError::rejected(m));
        },
        None => {},
    }
    check_consistency(v, intent, source, repository)
}

} // verus!
