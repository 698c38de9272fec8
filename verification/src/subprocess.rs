//! What a failed or finished subprocess is reported as: the diagnostic that Cargo-Rail's failure
//! envelopes carry, the failure message of a subprocess, and the success envelope a machine
//! command must print.

use vstd::prelude::*;
use vstd::utf8::{decode_utf8, valid_utf8};

use crate::error::{ActionError, ErrorKind};
use crate::json::{get, Json, JsonV};
use crate::text::{chars_of, concat, decimal, push_char, push_str, trim};

verus! {

/// The text that `String::from_utf8_lossy` makes of a byte sequence, invalid sequences replaced.
pub uninterp spec fn lossy_text(bytes: Seq<u8>) -> Seq<char>;

/// Calls `String::from_utf8_lossy`; trusted to depend on the bytes alone, named `lossy_text`, and
/// to give the decoded text of valid UTF-8 unchanged.
#[verifier::external_body]
pub(crate) fn utf8_lossy(bytes: &[u8]) -> (r: String)
    ensures
        r@ == lossy_text(bytes@),
        valid_utf8(bytes@) ==> r@ == decode_utf8(bytes@),
{
    String::from_utf8_lossy(bytes).into_owned()
}

/// The value of an integer, as `Value::as_i64` reads it.
pub open spec fn as_i64(v: Option<JsonV>) -> Option<int> {
    match v {
        Some(JsonV::UInt(n)) => if n <= i64::MAX {
            Some(n as int)
        } else {
            None
        },
        Some(JsonV::NegInt(n)) => Some(n as int),
        _ => None,
    }
}

/// A non-empty text field of a failure value, as the diagnostic adds it.
pub open spec fn nonempty_text(v: JsonV, key: Seq<char>) -> Option<Seq<char>> {
    match get(v, key) {
        Some(JsonV::Str(s)) => if s.len() > 0 {
            Some(s)
        } else {
            None
        },
        _ => None,
    }
}

/// The diagnostic of a failure value: its trimmed message, its context on the next line, and its
/// recovery advice after `Next:`; nothing when the message is missing or blank.
pub open spec fn failure_detail(failure: JsonV, recovery: Seq<char>) -> Option<Seq<char>> {
    match get(failure, "message"@) {
        Some(JsonV::Str(m)) => if trim(m).len() == 0 {
            None
        } else {
            Some(
                trim(m) + match nonempty_text(failure, "context"@) {
                    Some(c) => "\n"@ + c,
                    None => ""@,
                } + match nonempty_text(failure, recovery) {
                    Some(h) => "\nNext: "@ + h,
                    None => ""@,
                },
            )
        },
        _ => None,
    }
}

/// The diagnostic that Cargo-Rail's output carries when it failed with `code`: an error envelope
/// with that code (advice under `help`), or a failed cache probe with that exit code (advice
/// under `retry`).
pub open spec fn spec_machine_failure_detail(stdout: Option<JsonV>, code: Option<i32>) -> Option<Seq<char>> {
    match (stdout, code) {
        (Some(v), Some(c)) => if get(v, "error"@) == Some(JsonV::Bool(true)) && as_i64(get(v, "code"@)) == Some(
            c as int,
        ) {
            failure_detail(v, "help"@)
        } else if get(v, "schema_version"@) == Some(JsonV::UInt(1)) && as_i64(get(v, "exit_code"@)) == Some(c as int)
            && get(v, "command"@) == Some(JsonV::Str("cache"@)) && get(v, "result"@) == Some(
            JsonV::Str("probe_failed"@),
        ) {
            match get(v, "failure"@) {
                Some(f) => failure_detail(f, "retry"@),
                None => None,
            }
        } else {
            None
        },
        _ => None,
    }
}

fn as_i64_of(v: Option<&Json>) -> (r: Option<i64>)
    ensures
        match as_i64(
            match v {
                Some(j) => Some(j@),
                None => None,
            },
        ) {
            Some(n) => r == Some(n as i64),
            None => r is None,
        },
{
    match v {
        Some(Json::UInt(n)) => if *n <= 9223372036854775807u64 {
            Some(*n as i64)
        } else {
            None
        },
        Some(Json::NegInt(n)) => Some(*n),
        _ => None,
    }
}

/// The value of an optional document.
pub open spec fn opt_json(v: Option<&Json>) -> Option<JsonV> {
    match v {
        Some(j) => Some(j@),
        None => None,
    }
}

fn nonempty_text_of<'a>(v: &'a Json, key: &str) -> (r: Option<&'a str>)
    ensures
        match nonempty_text(v@, key@) {
            Some(s) => r matches Some(t) && t@ == s,
            None => r is None,
        },
{
    match v.get(key) {
        Some(x) => match x.as_str() {
            Some(s) => if s.is_empty() {
                None
            } else {
                Some(s)
            },
            None => None,
        },
        None => None,
    }
}

fn failure_detail_of(failure: &Json, recovery: &str) -> (r: Option<String>)
    ensures
        crate::release_record::opt_text(r) == failure_detail(failure@, recovery@),
{
    let message = match failure.get("message") {
        Some(m) => match m.as_str() {
            Some(s) => s,
            None => {
                return None;
            },
        },
        None => {
            return None;
        },
    };
    let trimmed = crate::workflow_text::trim_chars(&chars_of(message));
    if trimmed.len() == 0 {
        return None;
    }
    let mut detail = crate::text::string_of(&trimmed);
    let ghost base = detail@;
    proof {
        reveal_strlit("\n");
        reveal_strlit("");
    }
    match nonempty_text_of(failure, "context") {
        Some(c) => {
            push_char(&mut detail, '\n');
            push_str(&mut detail, c);
            proof {
                assert(detail@ =~= base + ("\n"@ + c@));
            }
        },
        None => {
            proof {
                assert(detail@ =~= base + ""@);
            }
        },
    }
    let ghost middle = detail@;
    match nonempty_text_of(failure, recovery) {
        Some(h) => {
            push_str(&mut detail, "\nNext: ");
            push_str(&mut detail, h);
            proof {
                assert(detail@ =~= middle + ("\nNext: "@ + h@));
            }
        },
        None => {
            proof {
                assert(detail@ =~= middle + ""@);
            }
        },
    }
    Some(detail)
}

/// The diagnostic that Cargo-Rail's parsed output (nothing when it was not one JSON document)
/// carries for a failure with exit code `code` (nothing when a signal ended the process).
pub fn machine_failure_detail(stdout: Option<&Json>, code: Option<i32>) -> (r: Option<String>)
    ensures
        crate::release_record::opt_text(r) == spec_machine_failure_detail(opt_json(stdout), code),
{
    let (v, c) = match (stdout, code) {
        (Some(v), Some(c)) => (v, c),
        _ => {
            return None;
        },
    };
    let c64 = c as i64;
    let is_error = match v.get("error") {
        Some(Json::Bool(b)) => *b,
        _ => false,
    };
    if is_error && as_i64_of(v.get("code")) == Some(c64) {
        return failure_detail_of(v, "help");
    }
    let schema_one = match v.get("schema_version") {
        Some(Json::UInt(n)) => *n == 1,
        _ => false,
    };
    let cache = match v.get("command") {
        Some(x) => crate::json_nav::is_text(Some(x), "cache"),
        None => false,
    };
    let probe = match v.get("result") {
        Some(x) => crate::json_nav::is_text(Some(x), "probe_failed"),
        None => false,
    };
    if schema_one && as_i64_of(v.get("exit_code")) == Some(c64) && cache && probe {
        return match v.get("failure") {
            Some(f) => failure_detail_of(f, "retry"),
            None => None,
        };
    }
    None
}

/// The decimal text of a signed integer.
pub open spec fn signed_decimal(n: int) -> Seq<char> {
    if n < 0 {
        "-"@ + decimal((-n) as nat)
    } else {
        decimal(n as nat)
    }
}

pub(crate) fn i32_text(n: i32) -> (r: String)
    ensures
        r@ == signed_decimal(n as int),
{
    if n < 0 {
        let magnitude: u64 = (-(n as i64)) as u64;
        let digits = crate::text::u64_text(magnitude);
        concat("-", digits.as_str())
    } else {
        crate::text::u64_text(n as u64)
    }
}

/// The message of a failed subprocess: its subject, its exit code (1 when a signal ended it), and
/// the machine diagnostic of its output or else its trimmed error output.
pub open spec fn failure_message(subject: Seq<char>, detail: Option<Seq<char>>, stderr: Seq<u8>, code: Option<i32>) -> Seq<
    char,
> {
    let text = match detail {
        Some(d) => d,
        None => trim(lossy_text(stderr)),
    };
    subject + " failed with exit code "@ + signed_decimal(
        match code {
            Some(c) => c as int,
            None => 1,
        },
    ) + if text.len() == 0 {
        ""@
    } else {
        ": "@ + text
    }
}

/// The operational failure of a subprocess, from its parsed output, its error output and its exit
/// code.
pub fn subprocess_failure(subject: &str, stdout: Option<&Json>, stderr: &[u8], code: Option<i32>) -> (e: ActionError)
    ensures
        e.kind == ErrorKind::Operational,
        e.message@ == failure_message(
            subject@,
            spec_machine_failure_detail(opt_json(stdout), code),
            stderr@,
            code,
        ),
{
    let detail = match machine_failure_detail(stdout, code) {
        Some(d) => d,
        None => {
            let lossy = utf8_lossy(stderr);
            crate::text::string_of(&crate::workflow_text::trim_chars(&chars_of(lossy.as_str())))
        },
    };
    let mut message = concat(subject, " failed with exit code ");
    let c = match code {
        Some(c) => c,
        None => 1,
    };
    let digits = i32_text(c);
    push_str(&mut message, digits.as_str());
    let ghost base = message@;
    proof {
        reveal_strlit("");
    }
    if detail.as_str().is_empty() {
        proof {
            assert(message@ =~= base + ""@);
        }
    } else {
        push_str(&mut message, ": ");
        push_str(&mut message, detail.as_str());
        proof {
            assert(message@ =~= base + (": "@ + detail@));
        }
    }
    ActionError::operational(message)
}

/// Whether a machine command's output is its success envelope: schema version 1, the command
/// and mode, result `success` and exit code 0.
pub open spec fn envelope_field_failure(v: JsonV, command: Seq<char>, mode: Seq<char>) -> Option<Seq<char>> {
    if get(v, "schema_version"@) != Some(JsonV::UInt(1)) {
        Some("schema_version"@)
    } else if get(v, "command"@) != Some(JsonV::Str(command)) {
        Some("command"@)
    } else if get(v, "mode"@) != Some(JsonV::Str(mode)) {
        Some("mode"@)
    } else if get(v, "result"@) != Some(JsonV::Str("success"@)) {
        Some("result"@)
    } else if get(v, "exit_code"@) != Some(JsonV::UInt(0)) {
        Some("exit_code"@)
    } else {
        None
    }
}

fn field_is(v: &Json, key: &str, expected: &Json) -> (r: bool)
    ensures
        r == (get(v@, key@) == Some(expected@)),
{
    match v.get(key) {
        Some(x) => crate::json_nav::json_eq(x, expected),
        None => false,
    }
}

/// Refuses a machine command's output that is not its success envelope.
pub fn check_machine_envelope(value: &Json, command: &str, mode: &str, subject: &str) -> (r: Result<(), ActionError>)
    ensures
        r is Ok <==> value@ is Object && envelope_field_failure(value@, command@, mode@) is None,
        r matches Err(e) ==> e.kind == ErrorKind::Rejected && e.message@ == if value@ is Object {
            subject@ + " returned invalid "@ + envelope_field_failure(value@, command@, mode@)->Some_0
        } else {
            subject@ + " did not return a machine envelope"@
        },
{
    match value {
        Json::Object(_) => {},
        _ => {
            return Err(ActionError::rejected(concat(subject, " did not return a machine envelope")));
        },
    }
    let field: Option<&str> = if !field_is(value, "schema_version", &Json::UInt(1)) {
        Some("schema_version")
    } else if !field_is(value, "command", &Json::Str(crate::text::owned(command))) {
        Some("command")
    } else if !field_is(value, "mode", &Json::Str(crate::text::owned(mode))) {
        Some("mode")
    } else if !field_is(value, "result", &Json::Str(crate::text::owned("success"))) {
        Some("result")
    } else if !field_is(value, "exit_code", &Json::UInt(0)) {
        Some("exit_code")
    } else {
        None
    };
    match field {
        Some(f) => Err(ActionError::rejected(crate::text::concat3(subject, " returned invalid ", f))),
        None => Ok(()),
    }
}


/// What Cargo-Rail's saved-plan verification answers: nothing on its output, and success; a
/// refusal names the exit code (1 when a signal ended it) and the trimmed error output.
pub open spec fn plan_verification_outcome(stdout: Seq<u8>, success: bool, stderr: Seq<u8>, code: Option<i32>) -> Option<
    Seq<char>,
> {
    let detail = trim(lossy_text(stderr));
    if stdout.len() > 0 {
        Some("cargo-rail saved-plan verification emitted unexpected stdout"@)
    } else if !success {
        Some(
            "cargo-rail rejected current execution authority with exit code "@ + signed_decimal(
                match code {
                    Some(c) => c as int,
                    None => 1,
                },
            ) + if detail.len() == 0 {
                ""@
            } else {
                ": "@ + detail
            },
        )
    } else {
        None
    }
}

/// Refuses a checkout that Cargo-Rail's saved-plan verification did not accept.
pub fn check_plan_verification(stdout: &[u8], success: bool, stderr: &[u8], code: Option<i32>) -> (r: Result<
    (),
    ActionError,
>)
    ensures
        match plan_verification_outcome(stdout@, success, stderr@, code) {
            Some(m) => r matches Err(e) && e.kind == ErrorKind::Rejected && e.message@ == m,
            None => r is Ok,
        },
{
    if stdout.len() > 0 {
        return Err(crate::error::rejection("cargo-rail saved-plan verification emitted unexpected stdout"));
    }
    if !success {
        let lossy = utf8_lossy(stderr);
        let detail = crate::text::string_of(&crate::workflow_text::trim_chars(&chars_of(lossy.as_str())));
        let mut message = concat("cargo-rail rejected current execution authority with exit code ", "");
        proof {
            reveal_strlit("");
            assert(message@ =~= "cargo-rail rejected current execution authority with exit code "@);
        }
        let c = match code {
            Some(c) => c,
            None => 1,
        };
        let digits = i32_text(c);
        push_str(&mut message, digits.as_str());
        let ghost base = message@;
        if detail.as_str().is_empty() {
            proof {
                assert(message@ =~= base + ""@);
            }
        } else {
            push_str(&mut message, ": ");
            push_str(&mut message, detail.as_str());
            proof {
                assert(message@ =~= base + (": "@ + detail@));
            }
        }
        return Err(ActionError::rejected(message));
    }
    Ok(())
}
} // verus!
