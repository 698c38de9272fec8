//! The decisions of an independent release invocation: which invocations may release, what the
//! release engine is asked to run, and whether a retained record authorizes resuming it.
//!
//! The runner supplies what it observes (environment, event, engine and Git output); these
//! functions decide, and say which observation, if any, they need next.

use vstd::prelude::*;

use crate::error::{rejection, ActionError, ErrorKind};
use crate::json::{at, get, Json, JsonV};
use crate::json_nav::{field, is_null, is_text, is_true, ov, ov_eq, text, uint};
use crate::release_record::{read, read_verdict, rej, verdict_of, Failure};
use crate::text::{chars_of, push_str, starts_with, trim};
use crate::validation::strs_view;
use crate::workflow_text::{contains_text, trim_chars};

verus! {

/// The largest event file a release reads, in bytes.
pub const MAX_EVENT_BYTES: u64 = 16777216;

/// The most packages a new release may name.
pub const MAX_PACKAGES: usize = 256;

/// Whether an invocation is a same-repository trusted workflow run: inside GitHub Actions, for a
/// manual dispatch or a merged pull request, in an `owner/name` repository, from a workflow of
/// that repository on a branch.
pub open spec fn trusted_invocation(actions: Seq<char>, event: Seq<char>, repository: Seq<char>, workflow: Seq<char>) -> bool {
    &&& actions == "true"@
    &&& (event == "workflow_dispatch"@ || event == "pull_request_target"@)
    &&& crate::text::split_on(repository, '/').len() == 2
    &&& starts_with(workflow, repository + "/.github/workflows/"@)
    &&& contains_text(workflow, "@refs/heads/"@)
}

/// Refuses an invocation that is not a same-repository trusted workflow run.
pub fn check_invocation(actions: &str, event: &str, repository: &str, workflow: &str) -> (r: Result<(), ActionError>)
    ensures
        r is Ok <==> trusted_invocation(actions@, event@, repository@, workflow@),
        r matches Err(e) ==> e.kind == ErrorKind::Rejected && e.message@
            == "release requires a same-repository trusted workflow invocation"@,
{
    let pieces = crate::text::split_chars(&chars_of(repository), '/');
    let mut prefix = crate::text::owned(repository);
    push_str(&mut prefix, "/.github/workflows/");
    let w = chars_of(workflow);
    let p = chars_of(prefix.as_str());
    if !crate::text::str_eq(actions, "true") || !(crate::text::str_eq(event, "workflow_dispatch")
        || crate::text::str_eq(event, "pull_request_target")) || pieces.len() != 2 || !crate::text::has_prefix(&w, &p)
        || !crate::workflow_text::contains_str(workflow, "@refs/heads/") {
        return Err(rejection("release requires a same-repository trusted workflow invocation"));
    }
    Ok(())
}

/// Refuses an event file over its bound.
pub fn check_event_size(size: u64) -> (r: Result<(), ActionError>)
    ensures
        r is Ok <==> size <= MAX_EVENT_BYTES,
        r matches Err(e) ==> e.kind == ErrorKind::Rejected && e.message@ == "release event exceeds its bound"@,
{
    if size > MAX_EVENT_BYTES {
        return Err(rejection("release event exceeds its bound"));
    }
    Ok(())
}

/// Refuses an event of another repository than the invocation's.
pub fn check_event_repository(event: &Json, repository: &str) -> (r: Result<(), ActionError>)
    ensures
        r is Ok <==> at(at(event@, "repository"@), "full_name"@) == JsonV::Str(repository@),
        r matches Err(e) ==> e.kind == ErrorKind::Rejected && e.message@
            == "release event repository differs from invocation"@,
{
    if !is_text(field(event.get("repository"), "full_name"), repository) {
        return Err(rejection("release event repository differs from invocation"));
    }
    Ok(())
}

/// Refuses a release core whose reported version is not `cargo-rail <version>` of the selected
/// component.
pub fn check_core_version(reported: &str, selected: &str) -> (r: Result<(), ActionError>)
    ensures
        r is Ok <==> trim(reported@) == "cargo-rail "@ + selected@,
        r matches Err(e) ==> e.kind == ErrorKind::Rejected && e.message@
            == "release core version does not match the selected component"@,
{
    let trimmed = trim_chars(&chars_of(reported));
    let mut expected = crate::text::owned("cargo-rail ");
    push_str(&mut expected, selected);
    if !crate::text::chars_are(&trimmed, expected.as_str()) {
        return Err(rejection("release core version does not match the selected component"));
    }
    Ok(())
}

/// The retained transaction an event asks to resume, or the empty text.
pub open spec fn event_transaction(event: JsonV) -> Seq<char> {
    match at(at(event, "inputs"@), "transaction"@) {
        JsonV::Str(t) => t,
        _ => ""@,
    }
}

/// Whether the invocation resumes a retained release: it names a transaction, or it is a merged
/// pull request.
pub open spec fn resumes(event: JsonV, event_name: Seq<char>) -> bool {
    event_transaction(event).len() > 0 || event_name == "pull_request_target"@
}

/// The retained transaction the event names, or the empty text.
pub fn transaction_of(event: &Json) -> (r: String)
    ensures
        r@ == event_transaction(event@),
{
    match text(field(event.get("inputs"), "transaction")) {
        Some(t) => crate::text::owned(t),
        None => crate::text::owned(""),
    }
}

/// Whether the invocation resumes a retained release.
pub fn resuming(event: &Json, event_name: &str) -> (r: bool)
    ensures
        r == resumes(event@, event_name@),
{
    let transaction = transaction_of(event);
    !transaction.as_str().is_empty() || crate::text::str_eq(event_name, "pull_request_target")
}

/// The engine arguments that fetch the record of a release: of the named transaction, or of the
/// current one when none is named.
pub open spec fn fetch_argv(transaction: Seq<char>) -> Seq<Seq<char>> {
    if transaction.len() == 0 {
        seq!["rail"@, "release"@, "record"@, "fetch"@]
    } else {
        seq!["rail"@, "release"@, "record"@, "fetch"@, transaction]
    }
}

pub(crate) fn literals(values: &[&str]) -> (r: Vec<String>)
    ensures
        strs_view(r@) == crate::validation::lits_view(values@),
{
    let mut out: Vec<String> = Vec::new();
    let mut i: usize = 0;
    while i < values.len()
        invariant
            i <= values@.len(),
            strs_view(out@) == crate::validation::lits_view(values@.take(i as int)),
        decreases values@.len() - i,
    {
        out.push(crate::text::owned(values[i]));
        proof {
            assert(crate::validation::lits_view(values@.take(i + 1)) =~= crate::validation::lits_view(
                values@.take(i as int),
            ).push(values@[i as int]@));
            assert(strs_view(out@) =~= crate::validation::lits_view(values@.take(i + 1)));
        }
        i = i + 1;
    }
    proof {
        assert(values@.take(i as int) =~= values@);
    }
    out
}

/// The engine arguments that fetch the record of a release.
pub fn fetch_arguments(transaction: &str) -> (r: Vec<String>)
    ensures
        strs_view(r@) == fetch_argv(transaction@),
{
    let base: [&str; 4] = ["rail", "release", "record", "fetch"];
    let mut argv = literals(&base);
    proof {
        assert(crate::validation::lits_view(base@) =~= seq!["rail"@, "release"@, "record"@, "fetch"@]);
    }
    if !transaction.is_empty() {
        argv.push(crate::text::owned(transaction));
        proof {
            assert(strs_view(argv@) =~= fetch_argv(transaction@));
        }
    }
    argv
}

/// The engine arguments that inspect the record of a transaction.
pub fn inspect_arguments(transaction: &str) -> (r: Vec<String>)
    ensures
        strs_view(r@) == seq!["rail"@, "release"@, "record"@, "inspect"@, transaction@],
{
    let base: [&str; 4] = ["rail", "release", "record", "inspect"];
    let mut argv = literals(&base);
    proof {
        assert(crate::validation::lits_view(base@) =~= seq!["rail"@, "release"@, "record"@, "inspect"@]);
    }
    argv.push(crate::text::owned(transaction));
    proof {
        assert(strs_view(argv@) =~= seq!["rail"@, "release"@, "record"@, "inspect"@, transaction@]);
    }
    argv
}

/// The engine arguments that resume a transaction as its executor.
pub fn resume_arguments(transaction: &str) -> (r: Vec<String>)
    ensures
        strs_view(r@) == seq!["rail"@, "release"@, "resume"@, transaction@, "--executor"@],
{
    let base: [&str; 3] = ["rail", "release", "resume"];
    let mut argv = literals(&base);
    proof {
        assert(crate::validation::lits_view(base@) =~= seq!["rail"@, "release"@, "resume"@]);
    }
    argv.push(crate::text::owned(transaction));
    argv.push(crate::text::owned("--executor"));
    proof {
        assert(strs_view(argv@) =~= seq!["rail"@, "release"@, "resume"@, transaction@, "--executor"@]);
    }
    argv
}

/// The transaction ID a fetched record names, or a rejection with the message.
pub fn fetched_transaction(fetched: &Json, message: &str) -> (r: Result<String, ActionError>)
    ensures
        match at(fetched@, "transaction_id"@) {
            JsonV::Str(t) => r matches Ok(s) && s@ == t,
            _ => r matches Err(e) && e.kind == ErrorKind::Rejected && e.message@ == message@,
        },
{
    match text(fetched.get("transaction_id")) {
        Some(t) => Ok(crate::text::owned(t)),
        None => Err(rejection(message)),
    }
}

/// Whether an event may start a new release: a manual dispatch that carries no retained intent.
pub open spec fn new_request_allowed(event: JsonV, event_name: Seq<char>) -> bool {
    event_name == "workflow_dispatch"@ && !(at(at(event, "inputs"@), "intent"@) matches JsonV::Str(s) && s.len() > 0)
}

/// Refuses to start a new release from anything but a manual dispatch without retained authority.
pub fn check_new_request(event: &Json, event_name: &str) -> (r: Result<(), ActionError>)
    ensures
        r is Ok <==> new_request_allowed(event@, event_name@),
        r matches Err(e) ==> e.kind == ErrorKind::Rejected && e.message@
            == "a new release request requires a manual dispatch without retained authority"@,
{
    let retained = match text(field(event.get("inputs"), "intent")) {
        Some(s) => !s.is_empty(),
        None => false,
    };
    if !crate::text::str_eq(event_name, "workflow_dispatch") || retained {
        return Err(rejection("a new release request requires a manual dispatch without retained authority"));
    }
    Ok(())
}

/// Refuses a new release whose checkout (the trimmed `git rev-parse HEAD` output) is not the
/// dispatch source.
pub fn check_checkout(head: &str, dispatched: &str) -> (r: Result<(), ActionError>)
    ensures
        r is Ok <==> trim(head@) == dispatched@,
        r matches Err(e) ==> e.kind == ErrorKind::Rejected && e.message@
            == "new release checkout differs from its dispatch source"@,
{
    let trimmed = trim_chars(&chars_of(head));
    if !crate::text::chars_are(&trimmed, dispatched) {
        return Err(rejection("new release checkout differs from its dispatch source"));
    }
    Ok(())
}

/// A bounded Cargo package name: 1 to 64 bytes of ASCII alphanumerics, `-` and `_`.
pub open spec fn package_name_ok(p: Seq<char>) -> bool {
    &&& p.len() > 0
    &&& crate::text::byte_len(p) <= 64
    &&& forall|i: int| 0 <= i < p.len() ==> crate::text::is_ascii_alnum(#[trigger] p[i]) || p[i] == '-' || p[i] == '_'
}

fn package_name_valid(p: &str) -> (r: bool)
    ensures
        r == package_name_ok(p@),
{
    let chars = chars_of(p);
    if chars.len() == 0 || p.as_bytes().len() > 64 {
        return false;
    }
    let mut i: usize = 0;
    while i < chars.len()
        invariant
            i <= chars@.len(),
            chars@ == p@,
            forall|k: int| 0 <= k < i ==> crate::text::is_ascii_alnum(#[trigger] chars@[k]) || chars@[k] == '-'
                || chars@[k] == '_',
        decreases chars@.len() - i,
    {
        let c = chars[i];
        if !(('0' <= c && c <= '9') || ('a' <= c && c <= 'z') || ('A' <= c && c <= 'Z') || c == '-' || c == '_') {
            return false;
        }
        i = i + 1;
    }
    true
}

/// Refuses more than 256 packages or a name that is not a bounded Cargo package name.
pub fn check_packages(packages: &Vec<String>) -> (r: Result<(), ActionError>)
    ensures
        r is Ok <==> packages@.len() <= MAX_PACKAGES && forall|i: int| 0 <= i < packages@.len()
            ==> package_name_ok(#[trigger] packages@[i]@),
        r matches Err(e) ==> e.kind == ErrorKind::Rejected && e.message@
            == "packages must contain bounded Cargo package names"@,
{
    if packages.len() > MAX_PACKAGES {
        return Err(rejection("packages must contain bounded Cargo package names"));
    }
    let mut i: usize = 0;
    while i < packages.len()
        invariant
            i <= packages@.len(),
            forall|k: int| 0 <= k < i ==> package_name_ok(#[trigger] packages@[k]@),
        decreases packages@.len() - i,
    {
        if !package_name_valid(packages[i].as_str()) {
            return Err(rejection("packages must contain bounded Cargo package names"));
        }
        i = i + 1;
    }
    Ok(())
}

/// The engine arguments that start a new release: run as executor without prompting at the
/// bump, for every package or the named ones, publishing and opening a review when asked.
pub open spec fn release_argv(bump: Seq<char>, packages: Seq<Seq<char>>, publish: bool, review: bool) -> Seq<Seq<char>> {
    seq!["rail"@, "release"@, "run"@, "--executor"@, "--yes"@, "--bump"@, bump] + (if packages.len() == 0 {
        seq!["--all"@]
    } else {
        packages
    }) + (if publish {
        seq!["--publish"@]
    } else {
        seq![]
    }) + (if review {
        seq!["--pr"@]
    } else {
        seq![]
    })
}

/// The packages of the `packages` input, given its parsed JSON (nothing when it is not JSON): it
/// must be an array of strings, at most 256 bounded Cargo package names.
pub fn parse_packages(value: Option<&Json>) -> (r: Result<Vec<String>, ActionError>)
    ensures
        r matches Err(e) ==> e.kind == ErrorKind::Rejected,
        match value {
            Some(v) => match crate::validation::strings_of(v@) {
                Some(s) => (r is Ok <==> s.len() <= MAX_PACKAGES && forall|i: int| 0 <= i < s.len()
                    ==> package_name_ok(#[trigger] s[i])) && (r matches Ok(p) ==> strs_view(p@) == s) && (
                r matches Err(e) ==> e.message@ == "packages must contain bounded Cargo package names"@),
                None => r matches Err(e) && e.message@ == "packages must be a JSON array"@,
            },
            None => r matches Err(e) && e.message@ == "packages must be a JSON array"@,
        },
{
    let packages = match value {
        Some(v) => match crate::validation::string_list(v, "packages", false, false) {
            Ok(p) => p,
            Err(_) => {
                return Err(rejection("packages must be a JSON array"));
            },
        },
        None => {
            return Err(rejection("packages must be a JSON array"));
        },
    };
    proof {
        assert(strs_view(packages@).len() == packages@.len());
        assert forall|i: int| 0 <= i < packages@.len() implies #[trigger] strs_view(packages@)[i] == packages@[i]@ by {}
    }
    match check_packages(&packages) {
        Ok(()) => Ok(packages),
        Err(e) => {
            proof {
                let s = strs_view(packages@);
                if packages@.len() <= MAX_PACKAGES {
                    let j = choose|j: int| 0 <= j < packages@.len() && !package_name_ok(#[trigger] packages@[j]@);
                    assert(s[j] == packages@[j]@);
                    assert(!package_name_ok(s[j]));
                }
            }
            Err(e)
        },
    }
}

/// The engine arguments that start a new release.
pub fn release_arguments(bump: &str, packages: &Vec<String>, publish: bool, review: bool) -> (r: Vec<String>)
    ensures
        strs_view(r@) == release_argv(bump@, strs_view(packages@), publish, review),
{
    let base: [&str; 6] = ["rail", "release", "run", "--executor", "--yes", "--bump"];
    let mut argv = literals(&base);
    proof {
        assert(crate::validation::lits_view(base@) =~= seq!["rail"@, "release"@, "run"@, "--executor"@, "--yes"@, "--bump"@]);
    }
    argv.push(crate::text::owned(bump));
    let ghost head = strs_view(argv@);
    proof {
        assert(head =~= seq!["rail"@, "release"@, "run"@, "--executor"@, "--yes"@, "--bump"@, bump@]);
    }
    if packages.len() == 0 {
        argv.push(crate::text::owned("--all"));
    } else {
        let mut i: usize = 0;
        while i < packages.len()
            invariant
                i <= packages@.len(),
                strs_view(argv@) == head + strs_view(packages@).take(i as int),
            decreases packages@.len() - i,
        {
            let ghost before = argv@;
            argv.push(crate::text::owned(packages[i].as_str()));
            proof {
                assert(argv@ =~= before.push(argv@[argv@.len() - 1]));
                assert(strs_view(argv@) =~= strs_view(before).push(packages@[i as int]@));
                assert(strs_view(packages@).take(i + 1) =~= strs_view(packages@).take(i as int).push(packages@[i as int]@));
                assert(strs_view(argv@) =~= head + strs_view(packages@).take(i + 1));
            }
            i = i + 1;
        }
        proof {
            assert(strs_view(packages@).take(i as int) =~= strs_view(packages@));
        }
    }
    let ghost middle = strs_view(argv@);
    if publish {
        argv.push(crate::text::owned("--publish"));
    }
    if review {
        argv.push(crate::text::owned("--pr"));
    }
    proof {
        assert(strs_view(argv@) =~= release_argv(bump@, strs_view(packages@), publish, review));
    }
    argv
}

/// The source of a record: the first string among its merged review commit, its prepared commit
/// and its intent's initial head.
pub open spec fn source_text(record: JsonV) -> Option<Seq<char>> {
    match at(at(at(record, "review"@), "merge"@), "commit"@) {
        JsonV::Str(s) => Some(s),
        _ => match at(at(record, "preparation"@), "commit"@) {
            JsonV::Str(s) => Some(s),
            _ => match at(at(record, "intent"@), "initial_head"@) {
                JsonV::Str(s) => Some(s),
                _ => None,
            },
        },
    }
}

/// The source of a record, or a rejection when it has none.
pub fn record_source<'a>(record: &'a Json) -> (r: Result<&'a str, ActionError>)
    ensures
        match source_text(record@) {
            Some(s) => r matches Ok(t) && t@ == s,
            None => r matches Err(e) && e.kind == ErrorKind::Rejected && e.message@ == "release record has no source"@,
        },
{
    match text(field(field(record.get("review"), "merge"), "commit")) {
        Some(s) => Ok(s),
        None => match text(field(record.get("preparation"), "commit")) {
            Some(s) => Ok(s),
            None => match text(field(record.get("intent"), "initial_head")) {
                Some(s) => Ok(s),
                None => Err(rejection("release record has no source")),
            },
        },
    }
}

/// The text of a string value, or the empty text.
pub open spec fn text_or_empty(v: JsonV) -> Seq<char> {
    match v {
        JsonV::Str(s) => s,
        _ => ""@,
    }
}

fn text_or_empty_exec(x: Option<&Json>) -> (r: &str)
    ensures
        r@ == text_or_empty(ov(x)),
{
    match text(x) {
        Some(s) => s,
        None => "",
    }
}

/// The hosted repository of a GitHub repository name.
pub open spec fn hosted(repository: Seq<char>) -> Seq<char> {
    "github.com/"@ + repository
}

/// What checking a finished release gives: the record must be valid for its own intent identity
/// (or the empty text when it has none), its source and the invocation's repository on github.com.
pub open spec fn finished_verdict(record: JsonV, repository: Seq<char>, schema: Seq<u8>) -> Option<Failure> {
    match source_text(record) {
        None => rej("release record has no source"@),
        Some(source) => read_verdict(
            crate::json::encode(record).len(),
            record,
            text_or_empty(at(at(record, "intent"@), "identity"@)),
            source,
            hosted(repository),
            schema,
        ),
    }
}

/// Checks the record of a finished release; its source is what the release publishes.
pub fn check_finished<'a>(record: &'a Json, repository: &str, schema: &[u8]) -> (r: Result<&'a str, ActionError>)
    ensures
        match finished_verdict(record@, repository@, schema@) {
            Some(f) => r matches Err(e) && (e.kind, e.message@) == f,
            None => r matches Ok(s) && source_text(record@) == Some(s@),
        },
{
    let source = record_source(record)?;
    let identity = text_or_empty_exec(field(record.get("intent"), "identity"));
    let mut repo = crate::text::owned("github.com/");
    push_str(&mut repo, repository);
    let size = crate::json::to_bytes(record).len();
    read(size as u64, record, identity, source, repo.as_str(), schema)?;
    Ok(source)
}

/// The URL of a workflow run.
pub fn run_url(repository: &str, run_id: &str) -> (r: String)
    ensures
        r@ == "https://github.com/"@ + repository@ + "/actions/runs/"@ + run_id@,
{
    let mut url = crate::text::owned("https://github.com/");
    push_str(&mut url, repository);
    push_str(&mut url, "/actions/runs/");
    push_str(&mut url, run_id);
    url
}


/// What authorizing a retained record needs next.
#[derive(Debug, Clone, Copy, PartialEq, Eq, Structural)]
pub enum Authorization {
    /// The record authorizes resuming as it stands.
    Authorized,
    /// The review request with this number must be observed and then checked.
    ObserveReview(u64),
    /// The merged pull request of the event must be checked.
    CheckReview,
}

/// The workflow a record authorizes: `<repository>/<hosted workflow>@refs/heads/<branch>`.
pub open spec fn authorized_workflow(record: JsonV, repository: Seq<char>) -> Seq<char> {
    let intent = at(record, "intent"@);
    repository + "/"@ + text_or_empty(at(at(intent, "release_config"@), "hosted_workflow"@)) + "@refs/heads/"@
        + text_or_empty(at(intent, "branch"@))
}

/// Whether a merged pull request event is the close of the record's review request.
pub open spec fn merge_event_ok(record: JsonV, event: JsonV) -> bool {
    &&& at(event, "action"@) == JsonV::Str("closed"@)
    &&& at(at(event, "pull_request"@), "merged"@) == JsonV::Bool(true)
    &&& at(event, "number"@) == at(at(record, "review"@), "request"@)
}

/// Whether a dispatch names the record's transaction, its intent identity, and its source or
/// initial head.
pub open spec fn dispatch_ok(record: JsonV, event: JsonV, source: Seq<char>) -> bool {
    let inputs = at(event, "inputs"@);
    let intent = at(record, "intent"@);
    &&& at(inputs, "transaction"@) == at(record, "transaction_id"@)
    &&& at(inputs, "intent"@) == at(intent, "identity"@)
    &&& (at(inputs, "source"@) == JsonV::Str(source) || at(inputs, "source"@) == at(intent, "initial_head"@))
}

/// What the first step of authorizing a retained record gives: a failure, or what is needed next.
pub open spec fn authorize_outcome(
    record: JsonV,
    event: JsonV,
    event_name: Seq<char>,
    repository: Seq<char>,
    workflow: Seq<char>,
    schema: Seq<u8>,
) -> Result<Authorization, Failure> {
    match finished_verdict(record, repository, schema) {
        Some(f) => Err(f),
        None => {
            let source = match source_text(record) {
                Some(s) => s,
                None => ""@,
            };
            if at(at(record, "intent"@), "hosted"@) != JsonV::Bool(true) || workflow != authorized_workflow(
                record,
                repository,
            ) {
                Err((ErrorKind::Rejected, "release record does not authorize this workflow"@))
            } else if event_name == "pull_request_target"@ {
                if merge_event_ok(record, event) {
                    Ok(Authorization::CheckReview)
                } else {
                    Err((ErrorKind::Rejected, "merge event does not authorize this release review"@))
                }
            } else if !dispatch_ok(record, event, source) {
                Err((ErrorKind::Rejected, "dispatch does not authorize the original release intent"@))
            } else {
                match at(at(record, "review"@), "request"@) {
                    JsonV::UInt(n) => Ok(Authorization::ObserveReview(n)),
                    _ => Ok(Authorization::Authorized),
                }
            }
        },
    }
}

/// The outcome of a step that fails with an action error or gives a value.
pub open spec fn outcome_of<T>(r: Result<T, ActionError>) -> Result<T, Failure> {
    match r {
        Ok(t) => Ok(t),
        Err(e) => Err((e.kind, e.message@)),
    }
}

fn authorized_workflow_text(record: &Json, repository: &str) -> (r: String)
    ensures
        r@ == authorized_workflow(record@, repository@),
{
    let intent = record.get("intent");
    let mut w = crate::text::owned(repository);
    push_str(&mut w, "/");
    push_str(&mut w, text_or_empty_exec(field(field(intent, "release_config"), "hosted_workflow")));
    push_str(&mut w, "@refs/heads/");
    push_str(&mut w, text_or_empty_exec(field(intent, "branch")));
    w
}

/// The first step of authorizing a retained record to resume: the record must be valid, hosted
/// and bound to this workflow, and the event must be the close of its review or a dispatch of its
/// intent. Says what must be observed next.
pub fn authorize_start(
    record: &Json,
    event: &Json,
    event_name: &str,
    repository: &str,
    workflow: &str,
    schema: &[u8],
) -> (r: Result<Authorization, ActionError>)
    ensures
        outcome_of(r) == authorize_outcome(record@, event@, event_name@, repository@, workflow@, schema@),
{
    let source = check_finished(record, repository, schema)?;
    let intent = record.get("intent");
    let expected = authorized_workflow_text(record, repository);
    if !is_true(field(intent, "hosted")) || !crate::text::str_eq(workflow, expected.as_str()) {
        return Err(rejection("release record does not authorize this workflow"));
    }
    if crate::text::str_eq(event_name, "pull_request_target") {
        if !is_text(event.get("action"), "closed") || !is_true(field(event.get("pull_request"), "merged"))
            || !ov_eq(event.get("number"), field(record.get("review"), "request")) {
            return Err(rejection("merge event does not authorize this release review"));
        }
        return Ok(Authorization::CheckReview);
    }
    let inputs = event.get("inputs");
    if !ov_eq(field(inputs, "transaction"), record.get("transaction_id")) || !ov_eq(
        field(inputs, "intent"),
        field(intent, "identity"),
    ) || (!is_text(field(inputs, "source"), source) && !ov_eq(
        field(inputs, "source"),
        field(intent, "initial_head"),
    )) {
        return Err(rejection("dispatch does not authorize the original release intent"));
    }
    match uint(field(record.get("review"), "request")) {
        Some(n) => Ok(Authorization::ObserveReview(n)),
        None => Ok(Authorization::Authorized),
    }
}

/// The GitHub API path of a pull request.
pub fn review_path(repository: &str, number: u64) -> (r: String)
    ensures
        r@ == "repos/"@ + repository@ + "/pulls/"@ + crate::text::decimal(number as nat),
{
    let mut p = crate::text::owned("repos/");
    push_str(&mut p, repository);
    push_str(&mut p, "/pulls/");
    let n = crate::text::u64_text(number);
    push_str(&mut p, n.as_str());
    p
}

/// Refuses an observed review whose number is not the requested one.
pub fn check_observed_review(observed: &Json, number: u64) -> (r: Result<(), ActionError>)
    ensures
        r is Ok <==> at(observed@, "number"@) == JsonV::UInt(number),
        r matches Err(e) ==> e.kind == ErrorKind::Rejected && e.message@
            == "release review changed its request identity"@,
{
    match uint(observed.get("number")) {
        Some(n) => {
            if n == number {
                return Ok(());
            }
        },
        None => {},
    }
    Err(rejection("release review changed its request identity"))
}

/// An exact commit ID: 40 or 64 hexadecimal digits of either case.
pub open spec fn exact_commit(s: Seq<char>) -> bool {
    &&& (s.len() == 40 || s.len() == 64)
    &&& forall|i: int| 0 <= i < s.len() ==> crate::text::is_hex_digit(#[trigger] s[i])
}

fn exact_commit_text(s: &str) -> (r: bool)
    ensures
        r == exact_commit(s@),
{
    let chars = chars_of(s);
    if chars.len() != 40 && chars.len() != 64 {
        return false;
    }
    let mut i: usize = 0;
    while i < chars.len()
        invariant
            i <= chars@.len(),
            chars@ == s@,
            forall|k: int| 0 <= k < i ==> crate::text::is_hex_digit(#[trigger] chars@[k]),
        decreases chars@.len() - i,
    {
        let c = chars[i];
        if !(('0' <= c && c <= '9') || ('a' <= c && c <= 'f') || ('A' <= c && c <= 'F')) {
            return false;
        }
        i = i + 1;
    }
    true
}

/// Whether a pull request is still the record's review: from the `rail/<transaction>` branch of
/// the repository at the prepared commit, into the intent's branch of the repository.
pub open spec fn review_bound(record: JsonV, pull: JsonV, repository: Seq<char>) -> bool {
    let head = at(pull, "head"@);
    let base = at(pull, "base"@);
    &&& at(head, "sha"@) == at(at(record, "preparation"@), "commit"@)
    &&& at(head, "ref"@) == JsonV::Str("rail/"@ + text_or_empty(at(record, "transaction_id"@)))
    &&& at(at(head, "repo"@), "full_name"@) == JsonV::Str(repository)
    &&& at(at(base, "repo"@), "full_name"@) == JsonV::Str(repository)
    &&& at(base, "ref"@) == at(at(record, "intent"@), "branch"@)
}

/// What checking a review pull request gives: a failure; `None` when the review is still open and
/// nothing was merged; or the merged commit whose tree must equal the prepared one.
pub open spec fn review_outcome(record: JsonV, pull: JsonV, repository: Seq<char>) -> Result<Option<Seq<char>>, Failure> {
    let merged = at(pull, "merged"@);
    let state = at(pull, "state"@);
    if !review_bound(record, pull, repository) {
        Err((ErrorKind::Rejected, "release review changed its repository, branch, or prepared source"@))
    } else if merged == JsonV::Bool(false) && state == JsonV::Str("open"@) && at(at(record, "review"@), "merge"@)
        == JsonV::Null {
        Ok(None)
    } else if merged != JsonV::Bool(true) || state != JsonV::Str("closed"@) || !(at(pull, "merged_at"@) matches JsonV::Str(
        t,
    ) && t.len() > 0) {
        Err((ErrorKind::Rejected, "release review has no observable merge"@))
    } else {
        match at(pull, "merge_commit_sha"@) {
            JsonV::Str(sha) => if !exact_commit(sha) {
                Err((ErrorKind::Rejected, "release review has no exact merged source"@))
            } else if at(at(at(record, "review"@), "merge"@), "commit"@) matches JsonV::Str(retained) && retained
                != sha {
                Err((ErrorKind::Rejected, "release review changed its retained merged commit"@))
            } else {
                Ok(Some(sha))
            },
            _ => Err((ErrorKind::Rejected, "release review has no exact merged source"@)),
        }
    }
}

fn review_bound_exec(record: &Json, pull: &Json, repository: &str) -> (r: bool)
    ensures
        r == review_bound(record@, pull@, repository@),
{
    let head = pull.get("head");
    let base = pull.get("base");
    let mut branch = crate::text::owned("rail/");
    push_str(&mut branch, text_or_empty_exec(record.get("transaction_id")));
    ov_eq(field(head, "sha"), field(record.get("preparation"), "commit")) && is_text(field(head, "ref"), branch.as_str())
        && is_text(field(field(head, "repo"), "full_name"), repository) && is_text(
        field(field(base, "repo"), "full_name"),
        repository,
    ) && ov_eq(field(base, "ref"), field(record.get("intent"), "branch"))
}

/// Checks the review pull request of a retained record: it must still be bound to the record, and
/// either still open with nothing merged, or merged at an exact commit that agrees with any merge
/// the record retains. Gives the merged commit whose tree must be compared.
pub fn check_review(record: &Json, pull: &Json, repository: &str) -> (r: Result<Option<String>, ActionError>)
    ensures
        match (r, review_outcome(record@, pull@, repository@)) {
            (Ok(None), Ok(None)) => true,
            (Ok(Some(s)), Ok(Some(t))) => s@ == t,
            (Err(e), Err(f)) => (e.kind, e.message@) == f,
            _ => false,
        },
{
    if !review_bound_exec(record, pull, repository) {
        return Err(rejection("release review changed its repository, branch, or prepared source"));
    }
    let merged = pull.get("merged");
    let state = pull.get("state");
    let merge = field(record.get("review"), "merge");
    if ov_eq(merged, Some(&Json::Bool(false))) && is_text(state, "open") && is_null(merge) {
        return Ok(None);
    }
    let merged_at = match text(pull.get("merged_at")) {
        Some(t) => !t.is_empty(),
        None => false,
    };
    if !is_true(merged) || !is_text(state, "closed") || !merged_at {
        return Err(rejection("release review has no observable merge"));
    }
    let sha = match text(pull.get("merge_commit_sha")) {
        Some(s) => s,
        None => {
            return Err(rejection("release review has no exact merged source"));
        },
    };
    if !exact_commit_text(sha) {
        return Err(rejection("release review has no exact merged source"));
    }
    match text(field(merge, "commit")) {
        Some(retained) => {
            if !crate::text::str_eq(retained, sha) {
                return Err(rejection("release review changed its retained merged commit"));
            }
        },
        None => {},
    }
    Ok(Some(crate::text::owned(sha)))
}

/// The commit whose tree a merged review must keep: the record's prepared commit, or the empty
/// text.
pub fn prepared_commit<'a>(record: &'a Json) -> (r: &'a str)
    ensures
        r@ == text_or_empty(at(at(record@, "preparation"@), "commit"@)),
{
    text_or_empty_exec(field(record.get("preparation"), "commit"))
}

/// The Git arguments that fetch a merged commit without tags or fetch head.
pub fn fetch_commit_arguments(commit: &str) -> (r: Vec<String>)
    ensures
        strs_view(r@) == seq!["fetch"@, "--no-tags"@, "--no-write-fetch-head"@, "origin"@, commit@],
{
    let base: [&str; 4] = ["fetch", "--no-tags", "--no-write-fetch-head", "origin"];
    let mut argv = literals(&base);
    proof {
        assert(crate::validation::lits_view(base@) =~= seq!["fetch"@, "--no-tags"@, "--no-write-fetch-head"@, "origin"@]);
    }
    argv.push(crate::text::owned(commit));
    proof {
        assert(strs_view(argv@) =~= seq!["fetch"@, "--no-tags"@, "--no-write-fetch-head"@, "origin"@, commit@]);
    }
    argv
}

/// The Git arguments that show the tree of a commit.
pub fn tree_arguments(commit: &str) -> (r: Vec<String>)
    ensures
        strs_view(r@) == seq!["show"@, "-s"@, "--format=%T"@, commit@],
{
    let base: [&str; 3] = ["show", "-s", "--format=%T"];
    let mut argv = literals(&base);
    proof {
        assert(crate::validation::lits_view(base@) =~= seq!["show"@, "-s"@, "--format=%T"@]);
    }
    argv.push(crate::text::owned(commit));
    proof {
        assert(strs_view(argv@) =~= seq!["show"@, "-s"@, "--format=%T"@, commit@]);
    }
    argv
}

/// Refuses a merged review whose tree differs from the prepared tree (both as Git printed them).
pub fn check_merged_tree(merged_tree: &[u8], prepared_tree: &[u8]) -> (r: Result<(), ActionError>)
    ensures
        r is Ok <==> merged_tree@ == prepared_tree@,
        r matches Err(e) ==> e.kind == ErrorKind::Rejected && e.message@
            == "reviewed merge changed the prepared release tree"@,
{
    if merged_tree.len() != prepared_tree.len() {
        return Err(rejection("reviewed merge changed the prepared release tree"));
    }
    let mut i: usize = 0;
    while i < merged_tree.len()
        invariant
            i <= merged_tree@.len(),
            merged_tree@.len() == prepared_tree@.len(),
            merged_tree@.take(i as int) == prepared_tree@.take(i as int),
        decreases merged_tree@.len() - i,
    {
        if merged_tree[i] != prepared_tree[i] {
            proof {
                assert(merged_tree@[i as int] != prepared_tree@[i as int]);
            }
            return Err(rejection("reviewed merge changed the prepared release tree"));
        }
        proof {
            assert(merged_tree@.take(i + 1) =~= merged_tree@.take(i as int).push(merged_tree@[i as int]));
            assert(prepared_tree@.take(i + 1) =~= prepared_tree@.take(i as int).push(prepared_tree@[i as int]));
        }
        i = i + 1;
    }
    proof {
        assert(merged_tree@ =~= merged_tree@.take(i as int));
        assert(prepared_tree@ =~= prepared_tree@.take(i as int));
    }
    Ok(())
}

} // verus!
