//! What a plan compares against and how the history it needs is acquired: the choice of the
//! comparison base, the Git fetches that bring a base into a shallow checkout, and the
//! authorization a fetch may carry.
//!
//! The runner performs each Git query or fetch these functions name and hands back what it saw.

use vstd::prelude::*;
use vstd::utf8::encode_utf8;

use crate::error::{rejection, ActionError, ErrorKind};
use crate::json::{get, Json, JsonV};
use crate::release::literals;
use crate::repository::{
    is_sha, is_zero_sha, spec_base64, spec_head_relative_depth, spec_is_sha, spec_is_zero_sha, valid_ref,
    validate_ref,
};
use crate::text::{chars_of, concat, concat3, decimal, push_str, starts_with, str_eq};
use crate::validation::strs_view;

verus! {

/// What a plan compares against: every package, or the changes since a ref (through the merge
/// base with the checkout when asked).
#[derive(Debug, PartialEq, Eq)]
pub enum Comparison {
    All,
    Since { reference: String, merge_base: bool },
}

/// The value of a comparison.
pub enum ComparisonV {
    All,
    Since(Seq<char>, bool),
}

/// The value of a comparison.
pub open spec fn comparison_view(c: Comparison) -> ComparisonV {
    match c {
        Comparison::All => ComparisonV::All,
        Comparison::Since { reference, merge_base } => ComparisonV::Since(reference@, merge_base),
    }
}

/// What choosing a comparison needs next: nothing more, the previous commit of the push event,
/// the remote's default branch, or whether a well-known branch exists.
#[derive(Debug)]
pub enum ComparisonStep {
    Decided(Comparison),
    ReadPushBefore,
    ReadRemoteDefault,
    CheckCandidate(usize),
}

/// The value of a comparison step.
pub enum StepV {
    Decided(ComparisonV),
    ReadPushBefore,
    ReadRemoteDefault,
    CheckCandidate(nat),
}

/// The value of a comparison step.
pub open spec fn step_view(s: ComparisonStep) -> StepV {
    match s {
        ComparisonStep::Decided(c) => StepV::Decided(comparison_view(c)),
        ComparisonStep::ReadPushBefore => StepV::ReadPushBefore,
        ComparisonStep::ReadRemoteDefault => StepV::ReadRemoteDefault,
        ComparisonStep::CheckCandidate(i) => StepV::CheckCandidate(i as nat),
    }
}

/// The value of a result that holds a step.
pub open spec fn step_outcome(r: Result<ComparisonStep, ActionError>) -> Result<StepV, (ErrorKind, Seq<char>)> {
    match r {
        Ok(s) => Ok(step_view(s)),
        Err(e) => Err((e.kind, e.message@)),
    }
}

/// The message of an invalid ref input.
pub open spec fn ref_message(subject: Seq<char>) -> Seq<char> {
    subject + " must be one bounded, non-option Git ref without padding"@
}

/// The first choice of a comparison: everything when asked; the explicit ref (everything for the
/// zero object name); the push event's previous commit for a push; the pull request's base on
/// `origin` through the merge base; else the remote's default branch.
pub open spec fn first_step(force_all: bool, explicit: &str, event_name: Seq<char>, base_ref: &str) -> Result<
    StepV,
    (ErrorKind, Seq<char>),
> {
    if force_all {
        Ok(StepV::Decided(ComparisonV::All))
    } else if explicit@.len() > 0 {
        if spec_is_zero_sha(explicit@) {
            Ok(StepV::Decided(ComparisonV::All))
        } else {
            Ok(StepV::Decided(ComparisonV::Since(explicit@, false)))
        }
    } else if event_name == "push"@ {
        Ok(StepV::ReadPushBefore)
    } else if base_ref@.len() > 0 {
        if !valid_ref(base_ref) {
            Err((ErrorKind::Rejected, ref_message("pull-request base"@)))
        } else {
            Ok(StepV::Decided(ComparisonV::Since("origin/"@ + base_ref@, true)))
        }
    } else {
        Ok(StepV::ReadRemoteDefault)
    }
}

/// The first choice of a comparison.
pub fn select_comparison(force_all: bool, explicit: &str, event_name: &str, base_ref: &str) -> (r: Result<
    ComparisonStep,
    ActionError,
>)
    ensures
        step_outcome(r) == first_step(force_all, explicit, event_name@, base_ref),
{
    if force_all {
        return Ok(ComparisonStep::Decided(Comparison::All));
    }
    if !explicit.is_empty() {
        if is_zero_sha(explicit) {
            return Ok(ComparisonStep::Decided(Comparison::All));
        }
        return Ok(
            ComparisonStep::Decided(Comparison::Since { reference: crate::text::owned(explicit), merge_base: false }),
        );
    }
    if str_eq(event_name, "push") {
        return Ok(ComparisonStep::ReadPushBefore);
    }
    if !base_ref.is_empty() {
        validate_ref(base_ref, "pull-request base")?;
        return Ok(
            ComparisonStep::Decided(Comparison::Since { reference: concat("origin/", base_ref), merge_base: true }),
        );
    }
    Ok(ComparisonStep::ReadRemoteDefault)
}

/// The previous commit a push event names: a full object name under `before`.
pub open spec fn push_before_outcome(event: JsonV) -> Result<Seq<char>, Seq<char>> {
    match get(event, "before"@) {
        Some(JsonV::Str(s)) => if spec_is_sha(s) {
            Ok(s)
        } else {
            Err("GitHub push event has no valid previous commit SHA"@)
        },
        _ => Err("GitHub push event has no previous commit SHA"@),
    }
}

/// The previous commit a push event names.
pub fn push_before(event: &Json) -> (r: Result<String, ActionError>)
    ensures
        match push_before_outcome(event@) {
            Ok(s) => r matches Ok(t) && t@ == s,
            Err(m) => r matches Err(e) && e.kind == ErrorKind::Rejected && e.message@ == m,
        },
{
    let before = match event.get("before") {
        Some(v) => match v.as_str() {
            Some(s) => s,
            None => {
                return Err(rejection("GitHub push event has no previous commit SHA"));
            },
        },
        None => {
            return Err(rejection("GitHub push event has no previous commit SHA"));
        },
    };
    if !is_sha(before) {
        return Err(rejection("GitHub push event has no valid previous commit SHA"));
    }
    Ok(crate::text::owned(before))
}

/// The comparison a push gives: everything after the zero object name, else its previous commit.
pub fn after_push_before(before: &str) -> (r: Comparison)
    ensures
        comparison_view(r) == if spec_is_zero_sha(before@) {
            ComparisonV::All
        } else {
            ComparisonV::Since(before@, false)
        },
{
    if is_zero_sha(before) {
        Comparison::All
    } else {
        Comparison::Since { reference: crate::text::owned(before), merge_base: false }
    }
}

/// The remote's default branch through the merge base, when Git names one; else the first
/// well-known branch is checked.
pub fn after_remote_default(default: Option<&str>) -> (r: Result<ComparisonStep, ActionError>)
    ensures
        step_outcome(r) == match default {
            Some(d) => if valid_ref(d) {
                Ok(StepV::Decided(ComparisonV::Since(d@, true)))
            } else {
                Err((ErrorKind::Rejected, ref_message("origin default branch"@)))
            },
            None => Ok(StepV::CheckCandidate(0)),
        },
{
    match default {
        Some(d) => {
            validate_ref(d, "origin default branch")?;
            Ok(ComparisonStep::Decided(Comparison::Since { reference: crate::text::owned(d), merge_base: true }))
        },
        None => Ok(ComparisonStep::CheckCandidate(0)),
    }
}

/// The well-known branches checked in turn.
pub open spec fn spec_candidate(index: nat) -> Seq<char> {
    if index == 0 {
        "origin/main"@
    } else {
        "origin/master"@
    }
}

/// The well-known branch of a candidate index.
pub fn comparison_candidate(index: usize) -> (r: &'static str)
    requires
        index < 2,
    ensures
        r@ == spec_candidate(index as nat),
{
    if index == 0 {
        "origin/main"
    } else {
        "origin/master"
    }
}

/// After checking a well-known branch: it, through the merge base, when it exists; else the next
/// one; after the last, the checkout's parent.
pub fn after_candidate(index: usize, found: bool) -> (r: ComparisonStep)
    requires
        index < 2,
    ensures
        step_view(r) == if found {
            StepV::Decided(ComparisonV::Since(spec_candidate(index as nat), true))
        } else if index == 0 {
            StepV::CheckCandidate(1)
        } else {
            StepV::Decided(ComparisonV::Since("HEAD~1"@, false))
        },
{
    if found {
        ComparisonStep::Decided(
            Comparison::Since { reference: crate::text::owned(comparison_candidate(index)), merge_base: true },
        )
    } else if index == 0 {
        ComparisonStep::CheckCandidate(1)
    } else {
        ComparisonStep::Decided(Comparison::Since { reference: crate::text::owned("HEAD~1"), merge_base: false })
    }
}

/// The Git arguments that check that a ref names a commit.
pub fn commit_check_arguments(reference: &str) -> (r: Vec<String>)
    ensures
        strs_view(r@) == seq!["rev-parse"@, "--verify"@, reference@ + "^{commit}"@],
{
    let base: [&str; 2] = ["rev-parse", "--verify"];
    let mut argv = literals(&base);
    proof {
        assert(crate::validation::lits_view(base@) =~= seq!["rev-parse"@, "--verify"@]);
    }
    argv.push(concat(reference, "^{commit}"));
    proof {
        assert(strs_view(argv@) =~= seq!["rev-parse"@, "--verify"@, reference@ + "^{commit}"@]);
    }
    argv
}

/// How a comparison ref's history is acquired: by depth from the checkout, by object name, or by
/// name on the remote.
#[derive(Debug, Clone, Copy, PartialEq, Eq, Structural)]
pub enum HistoryKind {
    Depth(u64),
    Sha,
    Named,
}

/// How a comparison ref's history is acquired, when the ref is valid.
pub open spec fn history_kind(reference: &str) -> Result<HistoryKind, Seq<char>> {
    if !valid_ref(reference) {
        Err(ref_message("comparison ref"@))
    } else if starts_with(reference@, "HEAD~"@) && spec_head_relative_depth(reference@) is None {
        Err("comparison ref has an invalid or excessive HEAD-relative depth"@)
    } else {
        match spec_head_relative_depth(reference@) {
            Some(d) => Ok(HistoryKind::Depth(d)),
            None => if spec_is_sha(reference@) {
                Ok(HistoryKind::Sha)
            } else {
                Ok(HistoryKind::Named)
            },
        }
    }
}

/// How a comparison ref's history is acquired.
pub fn history_start(reference: &str) -> (r: Result<HistoryKind, ActionError>)
    ensures
        match history_kind(reference) {
            Ok(k) => r == Ok::<HistoryKind, ActionError>(k),
            Err(m) => r matches Err(e) && e.kind == ErrorKind::Rejected && e.message@ == m,
        },
{
    validate_ref(reference, "comparison ref")?;
    let depth = crate::repository::head_relative_depth(reference);
    let chars = chars_of(reference);
    let prefix = chars_of("HEAD~");
    if crate::text::has_prefix(&chars, &prefix) && depth.is_none() {
        return Err(rejection("comparison ref has an invalid or excessive HEAD-relative depth"));
    }
    match depth {
        Some(d) => Ok(HistoryKind::Depth(d)),
        None => if is_sha(reference) {
            Ok(HistoryKind::Sha)
        } else {
            Ok(HistoryKind::Named)
        },
    }
}

/// The fetch arguments that deepen the checkout to reach `HEAD~depth`.
pub fn depth_fetch_arguments(depth: u64) -> (r: Vec<String>)
    requires
        depth <= 1_000_000,
    ensures
        strs_view(r@) == seq!["--no-tags"@, "--depth="@ + decimal((depth + 1) as nat), "origin"@, "HEAD"@],
{
    let digits = crate::text::u64_text(depth + 1);
    let mut argv: Vec<String> = Vec::new();
    argv.push(crate::text::owned("--no-tags"));
    argv.push(concat("--depth=", digits.as_str()));
    argv.push(crate::text::owned("origin"));
    argv.push(crate::text::owned("HEAD"));
    proof {
        assert(strs_view(argv@) =~= seq!["--no-tags"@, "--depth="@ + decimal((depth + 1) as nat), "origin"@, "HEAD"@]);
    }
    argv
}

/// The fetch arguments that bring an object by name: first at depth one, then, after unshallowing,
/// with its full history.
pub fn sha_fetch_arguments(sha: &str, shallow: bool) -> (r: Vec<String>)
    ensures
        strs_view(r@) == if shallow {
            seq!["--no-tags"@, "--depth=1"@, "origin"@, sha@]
        } else {
            seq!["--no-tags"@, "origin"@, sha@]
        },
{
    let mut argv: Vec<String> = Vec::new();
    argv.push(crate::text::owned("--no-tags"));
    if shallow {
        argv.push(crate::text::owned("--depth=1"));
    }
    argv.push(crate::text::owned("origin"));
    argv.push(crate::text::owned(sha));
    proof {
        if shallow {
            assert(strs_view(argv@) =~= seq!["--no-tags"@, "--depth=1"@, "origin"@, sha@]);
        } else {
            assert(strs_view(argv@) =~= seq!["--no-tags"@, "origin"@, sha@]);
        }
    }
    argv
}

/// The fetch arguments that unshallow the checkout.
pub fn unshallow_arguments() -> (r: Vec<String>)
    ensures
        strs_view(r@) == seq!["--no-tags"@, "--unshallow"@, "origin"@],
{
    let base: [&str; 3] = ["--no-tags", "--unshallow", "origin"];
    let argv = literals(&base);
    proof {
        assert(crate::validation::lits_view(base@) =~= seq!["--no-tags"@, "--unshallow"@, "origin"@]);
    }
    argv
}

/// A fetch of a named ref: the local ref it fills and the fetch arguments.
#[derive(Debug)]
pub struct NamedFetch {
    pub resolved: String,
    pub arguments: Vec<String>,
}

/// The value of a named fetch.
pub open spec fn named_view(f: NamedFetch) -> (Seq<char>, Seq<Seq<char>>) {
    (f.resolved@, strs_view(f.arguments@))
}

/// The fetch of a remote branch into its remote-tracking ref, without tags, at depth one.
pub open spec fn branch_fetch(branch: Seq<char>) -> (Seq<char>, Seq<Seq<char>>) {
    let resolved = "refs/remotes/origin/"@ + branch;
    (resolved, seq!["--no-tags"@, "--depth=1"@, "origin"@, "refs/heads/"@ + branch + ":"@ + resolved])
}

/// The fetch of a tag into itself, at depth one.
pub open spec fn tag_fetch(tag_ref: Seq<char>) -> (Seq<char>, Seq<Seq<char>>) {
    (tag_ref, seq!["--depth=1"@, "origin"@, tag_ref + ":"@ + tag_ref])
}

/// How a named ref absent from the checkout is fetched: `origin/<b>` and `refs/heads/<b>` as the
/// branch `b`; `refs/tags/...` as that tag; any other name as a branch, and failing that as a tag.
pub open spec fn named_plan(reference: Seq<char>) -> ((Seq<char>, Seq<Seq<char>>), Option<(Seq<char>, Seq<Seq<char>>)>) {
    if starts_with(reference, "origin/"@) {
        (branch_fetch(reference.skip(7)), None)
    } else if starts_with(reference, "refs/heads/"@) {
        (branch_fetch(reference.skip(11)), None)
    } else if starts_with(reference, "refs/tags/"@) {
        (tag_fetch(reference), None)
    } else {
        (branch_fetch(reference), Some(tag_fetch("refs/tags/"@ + reference)))
    }
}

fn branch_fetch_of(branch: &str) -> (r: NamedFetch)
    ensures
        named_view(r) == branch_fetch(branch@),
{
    let resolved = concat("refs/remotes/origin/", branch);
    let mut spec = concat("refs/heads/", branch);
    push_str(&mut spec, ":");
    push_str(&mut spec, resolved.as_str());
    let mut arguments: Vec<String> = Vec::new();
    arguments.push(crate::text::owned("--no-tags"));
    arguments.push(crate::text::owned("--depth=1"));
    arguments.push(crate::text::owned("origin"));
    arguments.push(spec);
    proof {
        assert(strs_view(arguments@) =~= branch_fetch(branch@).1);
    }
    NamedFetch { resolved, arguments }
}

fn tag_fetch_of(tag_ref: &str) -> (r: NamedFetch)
    ensures
        named_view(r) == tag_fetch(tag_ref@),
{
    let spec = concat3(tag_ref, ":", tag_ref);
    let mut arguments: Vec<String> = Vec::new();
    arguments.push(crate::text::owned("--depth=1"));
    arguments.push(crate::text::owned("origin"));
    arguments.push(spec);
    proof {
        assert(strs_view(arguments@) =~= tag_fetch(tag_ref@).1);
    }
    NamedFetch { resolved: crate::text::owned(tag_ref), arguments }
}

fn rest_after(chars: &Vec<char>, n: usize) -> (r: String)
    requires
        n <= chars@.len(),
    ensures
        r@ == chars@.skip(n as int),
{
    let len = chars.len();
    let rest = crate::text::sub_chars(chars, n, len);
    proof {
        assert(chars@.subrange(n as int, len as int) =~= chars@.skip(n as int));
    }
    crate::text::string_of(&rest)
}

/// How a named ref absent from the checkout is fetched: the first fetch, and the one tried when it
/// fails.
pub fn named_fetch_plan(reference: &str) -> (r: (NamedFetch, Option<NamedFetch>))
    ensures
        named_view(r.0) == named_plan(reference@).0,
        match named_plan(reference@).1 {
            Some(f) => r.1 matches Some(g) && named_view(g) == f,
            None => r.1 is None,
        },
{
    let chars = chars_of(reference);
    let origin = chars_of("origin/");
    let heads = chars_of("refs/heads/");
    let tags = chars_of("refs/tags/");
    proof {
        reveal_strlit("origin/");
        reveal_strlit("refs/heads/");
    }
    if crate::text::has_prefix(&chars, &origin) {
        let branch = rest_after(&chars, 7);
        (branch_fetch_of(branch.as_str()), None)
    } else if crate::text::has_prefix(&chars, &heads) {
        let branch = rest_after(&chars, 11);
        (branch_fetch_of(branch.as_str()), None)
    } else if crate::text::has_prefix(&chars, &tags) {
        (tag_fetch_of(reference), None)
    } else {
        let tag_ref = concat("refs/tags/", reference);
        (branch_fetch_of(reference), Some(tag_fetch_of(tag_ref.as_str())))
    }
}

/// The refusal of a comparison ref that no bounded fetch brought.
pub fn unresolved_reference(reference: &str) -> (e: ActionError)
    ensures
        e.kind == ErrorKind::Rejected,
        e.message@ == "cannot resolve comparison ref "@ + reference@ + " after bounded history acquisition"@,
{
    ActionError::rejected(concat3("cannot resolve comparison ref ", reference, " after bounded history acquisition"))
}

/// The full fetch of a remote-tracking branch after unshallowing, when the merge base was missing.
pub open spec fn spec_merge_base_refetch(resolved: Seq<char>) -> Option<Seq<Seq<char>>> {
    if starts_with(resolved, "refs/remotes/origin/"@) {
        let branch = resolved.skip(20);
        Some(seq!["--no-tags"@, "origin"@, "refs/heads/"@ + branch + ":"@ + resolved])
    } else {
        None
    }
}

/// The full fetch of a remote-tracking branch after unshallowing, when the merge base was missing.
pub fn merge_base_refetch(resolved: &str) -> (r: Option<Vec<String>>)
    ensures
        match spec_merge_base_refetch(resolved@) {
            Some(a) => r matches Some(v) && strs_view(v@) == a,
            None => r is None,
        },
{
    let chars = chars_of(resolved);
    let prefix = chars_of("refs/remotes/origin/");
    proof {
        reveal_strlit("refs/remotes/origin/");
    }
    if !crate::text::has_prefix(&chars, &prefix) {
        return None;
    }
    let branch = rest_after(&chars, 20);
    let mut spec = concat("refs/heads/", branch.as_str());
    push_str(&mut spec, ":");
    push_str(&mut spec, resolved);
    let mut argv: Vec<String> = Vec::new();
    argv.push(crate::text::owned("--no-tags"));
    argv.push(crate::text::owned("origin"));
    argv.push(spec);
    proof {
        assert(strs_view(argv@) =~= spec_merge_base_refetch(resolved@)->Some_0);
    }
    Some(argv)
}

/// The Git arguments that print the comparison base: the merge base with the checkout, or the
/// commit the ref names.
pub fn base_arguments(resolved: &str, merge_base: bool) -> (r: Vec<String>)
    ensures
        strs_view(r@) == if merge_base {
            seq!["merge-base"@, "HEAD"@, resolved@]
        } else {
            seq!["rev-parse"@, "--verify"@, resolved@ + "^{commit}"@]
        },
{
    if merge_base {
        let mut argv: Vec<String> = Vec::new();
        argv.push(crate::text::owned("merge-base"));
        argv.push(crate::text::owned("HEAD"));
        argv.push(crate::text::owned(resolved));
        proof {
            assert(strs_view(argv@) =~= seq!["merge-base"@, "HEAD"@, resolved@]);
        }
        argv
    } else {
        commit_check_arguments(resolved)
    }
}

/// The extra HTTP header configuration a fetch carries for a token: its key and value. The
/// checkout's origin must be the GitHub repository, with or without `.git`.
pub open spec fn authorization_outcome(server: Seq<char>, repository: Seq<char>, origin: Seq<char>, token: Seq<char>) -> Result<
    (Seq<char>, Seq<char>),
    Seq<char>,
> {
    let expected = server + "/"@ + repository;
    if origin != expected && origin != expected + ".git"@ {
        Err("origin disagrees with the GitHub repository context; repository-token was not transmitted"@)
    } else {
        Ok(
            (
                "http."@ + expected + "/.extraHeader"@,
                "AUTHORIZATION: basic "@ + spec_base64(encode_utf8("x-access-token:"@ + token)),
            ),
        )
    }
}

/// The extra HTTP header configuration a fetch carries for a token.
pub fn fetch_authorization(server: &str, repository: &str, origin: &str, token: &str) -> (r: Result<
    (String, String),
    ActionError,
>)
    ensures
        match authorization_outcome(server@, repository@, origin@, token@) {
            Ok((k, v)) => r matches Ok((a, b)) && a@ == k && b@ == v,
            Err(m) => r matches Err(e) && e.kind == ErrorKind::Rejected && e.message@ == m,
        },
{
    let expected = concat3(server, "/", repository);
    let with_git = concat(expected.as_str(), ".git");
    if !str_eq(origin, expected.as_str()) && !str_eq(origin, with_git.as_str()) {
        return Err(rejection("origin disagrees with the GitHub repository context; repository-token was not transmitted"));
    }
    let key = concat3("http.", expected.as_str(), "/.extraHeader");
    let credential = concat("x-access-token:", token);
    let bytes = crate::plan::bytes_of(credential.as_str());
    let encoded = crate::repository::base64(bytes.as_slice());
    let value = concat("AUTHORIZATION: basic ", encoded.as_str());
    Ok((key, value))
}

/// The failure of a Git fetch with its exit code (1 when a signal ended it).
pub fn fetch_failure(code: Option<i32>) -> (e: ActionError)
    ensures
        e.kind == ErrorKind::Operational,
        e.message@ == "Git history fetch failed with exit code "@ + crate::subprocess::signed_decimal(
            match code {
                Some(c) => c as int,
                None => 1,
            },
        ) + "; verify the same-repository history authority and retry"@,
{
    let c = match code {
        Some(c) => c,
        None => 1,
    };
    let digits = crate::subprocess::i32_text(c);
    ActionError::operational(concat3(
        "Git history fetch failed with exit code ",
        digits.as_str(),
        "; verify the same-repository history authority and retry",
    ))
}


/// How far acquiring a comparison ref's history has come: the question last asked of Git, whose
/// answer the next step reads.
#[derive(Debug, Clone, Copy, PartialEq, Eq, Structural)]
pub enum HistoryStage {
    /// Whether the ref names a commit in the checkout.
    Presence,
    /// Whether the shallow fetch of an object name succeeded.
    ShaFetched,
    /// Whether the object name is present after that fetch.
    ShaRechecked,
    /// Whether the checkout is shallow, before refetching an object name in full.
    ShallowForSha,
    /// The unshallowing fetch ran, before refetching an object name in full.
    UnshallowedForSha,
    /// The full fetch of an object name ran.
    ShaRefetched,
    /// The depth fetch ran.
    DepthFetched,
    /// Whether the first fetch of a named ref succeeded.
    NamedFetched,
    /// The fallback fetch of a named ref as a tag ran.
    FallbackFetched,
    /// Whether the resolved ref names a commit.
    Resolved,
    /// Whether the checkout and the resolved ref share a merge base.
    MergeBase,
    /// Whether the checkout is shallow, when the merge base was missing.
    ShallowForMerge,
    /// The unshallowing fetch ran, when the merge base was missing.
    UnshallowedForMerge,
    /// The full refetch of the remote-tracking branch ran.
    Refetched,
    /// The base can be printed.
    Done,
}

/// The history acquisition of one comparison ref: the stage, how the ref is acquired, the ref, the
/// local ref that holds it once fetched, and whether the base is the merge base.
#[derive(Debug)]
pub struct HistoryState {
    pub stage: HistoryStage,
    pub kind: HistoryKind,
    pub reference: String,
    pub resolved: String,
    pub merge_base: bool,
}

/// What the runner does next; each but `Resolve` is answered with one yes or no.
#[derive(Debug)]
pub enum HistoryAction {
    /// Whether the ref names a commit (`git rev-parse --verify <ref>^{commit}` succeeds).
    Check(String),
    /// `git fetch` with these arguments: whether it succeeded. When `required`, a failure ends the
    /// acquisition with the fetch's failure.
    Fetch { arguments: Vec<String>, required: bool },
    /// Whether `git rev-parse --is-shallow-repository` prints `true`.
    CheckShallow,
    /// Whether `git merge-base HEAD <ref>` succeeds.
    CheckMergeBase(String),
    /// Print the base with these Git arguments.
    Resolve(Vec<String>),
}

/// The value of a history state.
pub open spec fn state_view(s: HistoryState) -> (HistoryStage, HistoryKind, Seq<char>, Seq<char>, bool) {
    (s.stage, s.kind, s.reference@, s.resolved@, s.merge_base)
}

/// The value of a history action.
pub enum ActionV {
    Check(Seq<char>),
    Fetch(Seq<Seq<char>>, bool),
    CheckShallow,
    CheckMergeBase(Seq<char>),
    Resolve(Seq<Seq<char>>),
}

pub open spec fn action_view(a: HistoryAction) -> ActionV {
    match a {
        HistoryAction::Check(r) => ActionV::Check(r@),
        HistoryAction::Fetch { arguments, required } => ActionV::Fetch(strs_view(arguments@), required),
        HistoryAction::CheckShallow => ActionV::CheckShallow,
        HistoryAction::CheckMergeBase(r) => ActionV::CheckMergeBase(r@),
        HistoryAction::Resolve(a) => ActionV::Resolve(strs_view(a@)),
    }
}

/// The fetch of the commit `depth` steps before `HEAD`.
pub open spec fn depth_argv(depth: u64) -> Seq<Seq<char>> {
    seq!["--no-tags"@, "--depth="@ + decimal((depth + 1) as nat), "origin"@, "HEAD"@]
}

/// The fetch of an object name, at depth one when shallow.
pub open spec fn sha_argv(sha: Seq<char>, shallow: bool) -> Seq<Seq<char>> {
    if shallow {
        seq!["--no-tags"@, "--depth=1"@, "origin"@, sha]
    } else {
        seq!["--no-tags"@, "origin"@, sha]
    }
}

/// The fetch that completes a shallow checkout.
pub open spec fn unshallow_argv() -> Seq<Seq<char>> {
    seq!["--no-tags"@, "--unshallow"@, "origin"@]
}

/// The Git arguments that print the base.
pub open spec fn base_argv(resolved: Seq<char>, merge_base: bool) -> Seq<Seq<char>> {
    if merge_base {
        seq!["merge-base"@, "HEAD"@, resolved]
    } else {
        seq!["rev-parse"@, "--verify"@, resolved + "^{commit}"@]
    }
}

pub type HistoryV = (HistoryStage, HistoryKind, Seq<char>, Seq<char>, bool);

/// After the merge base was missing and the checkout is complete: refetch a remote-tracking
/// branch in full (its failure tolerated), or print the base.
pub open spec fn refetch_or_resolve(s: HistoryV) -> (HistoryV, ActionV) {
    match spec_merge_base_refetch(s.3) {
        Some(a) => ((HistoryStage::Refetched, s.1, s.2, s.3, s.4), ActionV::Fetch(a, false)),
        None => ((HistoryStage::Done, s.1, s.2, s.3, s.4), ActionV::Resolve(base_argv(s.3, true))),
    }
}

/// One step of acquiring the history, given the answer to the last question: an absent ref is
/// fetched by depth, by object name (shallow, then after unshallowing in full), or by name (as a
/// branch, and failing that as a tag); a ref that no fetch brought is refused; a missing merge base
/// unshallows the checkout and refetches a remote-tracking branch before the base is printed.
pub open spec fn next_history(s: HistoryV, answer: bool) -> Result<(HistoryV, ActionV), Seq<char>> {
    let (stage, kind, reference, resolved, merge_base) = s;
    let at = |g: HistoryStage| (g, kind, reference, resolved, merge_base);
    let unresolved = "cannot resolve comparison ref "@ + reference + " after bounded history acquisition"@;
    match stage {
        HistoryStage::Presence => if answer {
            Ok((at(HistoryStage::Resolved), ActionV::Check(resolved)))
        } else {
            match kind {
                HistoryKind::Depth(d) => Ok((at(HistoryStage::DepthFetched), ActionV::Fetch(depth_argv(d), true))),
                HistoryKind::Sha => Ok((at(HistoryStage::ShaFetched), ActionV::Fetch(sha_argv(reference, true), false))),
                HistoryKind::Named => {
                    let (first, fallback) = named_plan(reference);
                    Ok((
                        (HistoryStage::NamedFetched, kind, reference, first.0, merge_base),
                        ActionV::Fetch(first.1, fallback is None),
                    ))
                },
            }
        },
        HistoryStage::ShaFetched => if answer {
            Ok((at(HistoryStage::ShaRechecked), ActionV::Check(reference)))
        } else {
            Ok((at(HistoryStage::ShallowForSha), ActionV::CheckShallow))
        },
        HistoryStage::ShaRechecked => if answer {
            Ok((at(HistoryStage::Resolved), ActionV::Check(resolved)))
        } else {
            Ok((at(HistoryStage::ShallowForSha), ActionV::CheckShallow))
        },
        HistoryStage::ShallowForSha => if answer {
            Ok((at(HistoryStage::UnshallowedForSha), ActionV::Fetch(unshallow_argv(), true)))
        } else {
            Ok((at(HistoryStage::ShaRefetched), ActionV::Fetch(sha_argv(reference, false), true)))
        },
        HistoryStage::UnshallowedForSha => Ok((at(HistoryStage::ShaRefetched), ActionV::Fetch(sha_argv(reference, false), true))),
        HistoryStage::ShaRefetched => Ok((at(HistoryStage::Resolved), ActionV::Check(resolved))),
        HistoryStage::DepthFetched => Ok((at(HistoryStage::Resolved), ActionV::Check(resolved))),
        HistoryStage::NamedFetched => if answer {
            Ok((at(HistoryStage::Resolved), ActionV::Check(resolved)))
        } else {
            match named_plan(reference).1 {
                Some(fallback) => Ok((
                    (HistoryStage::FallbackFetched, kind, reference, fallback.0, merge_base),
                    ActionV::Fetch(fallback.1, true),
                )),
                None => Err(unresolved),
            }
        },
        HistoryStage::FallbackFetched => Ok((at(HistoryStage::Resolved), ActionV::Check(resolved))),
        HistoryStage::Resolved => if !answer {
            Err(unresolved)
        } else if merge_base {
            Ok((at(HistoryStage::MergeBase), ActionV::CheckMergeBase(resolved)))
        } else {
            Ok((at(HistoryStage::Done), ActionV::Resolve(base_argv(resolved, false))))
        },
        HistoryStage::MergeBase => if answer {
            Ok((at(HistoryStage::Done), ActionV::Resolve(base_argv(resolved, true))))
        } else {
            Ok((at(HistoryStage::ShallowForMerge), ActionV::CheckShallow))
        },
        HistoryStage::ShallowForMerge => if answer {
            Ok((at(HistoryStage::UnshallowedForMerge), ActionV::Fetch(unshallow_argv(), true)))
        } else {
            Ok(refetch_or_resolve(s))
        },
        HistoryStage::UnshallowedForMerge => Ok(refetch_or_resolve(s)),
        HistoryStage::Refetched => Ok((at(HistoryStage::Done), ActionV::Resolve(base_argv(resolved, true)))),
        HistoryStage::Done => Ok((at(HistoryStage::Done), ActionV::Resolve(base_argv(resolved, merge_base)))),
    }
}

/// The value of a step's outcome.
pub open spec fn history_outcome(r: Result<(HistoryState, HistoryAction), ActionError>) -> Result<(HistoryV, ActionV), Seq<char>> {
    match r {
        Ok((s, a)) => Ok((state_view(s), action_view(a))),
        Err(e) => Err(e.message@),
    }
}

/// The first step of acquiring a comparison ref's history: the ref must be valid; ask whether it
/// is present.
pub fn begin_history(reference: &str, merge_base: bool) -> (r: Result<(HistoryState, HistoryAction), ActionError>)
    ensures
        r matches Err(e) ==> e.kind == ErrorKind::Rejected,
        history_outcome(r) == match history_kind(reference) {
            Ok(k) => Ok::<(HistoryV, ActionV), Seq<char>>(
                ((HistoryStage::Presence, k, reference@, reference@, merge_base), ActionV::Check(reference@)),
            ),
            Err(m) => Err(m),
        },
{
    let kind = history_start(reference)?;
    Ok((
        HistoryState {
            stage: HistoryStage::Presence,
            kind,
            reference: crate::text::owned(reference),
            resolved: crate::text::owned(reference),
            merge_base,
        },
        HistoryAction::Check(crate::text::owned(reference)),
    ))
}

fn fetch_action(arguments: Vec<String>, required: bool) -> (a: HistoryAction)
    ensures
        action_view(a) == ActionV::Fetch(strs_view(arguments@), required),
{
    HistoryAction::Fetch { arguments, required }
}

fn refetch_or_resolve_exec(state: HistoryState) -> (r: (HistoryState, HistoryAction))
    ensures
        (state_view(r.0), action_view(r.1)) == refetch_or_resolve(state_view(state)),
{
    match merge_base_refetch(state.resolved.as_str()) {
        Some(a) => (HistoryState { stage: HistoryStage::Refetched, ..state }, fetch_action(a, false)),
        None => {
            let args = base_arguments(state.resolved.as_str(), true);
            (HistoryState { stage: HistoryStage::Done, ..state }, HistoryAction::Resolve(args))
        },
    }
}

/// The next step of acquiring the history, given the answer to the last action.
pub fn next_history_step(state: HistoryState, answer: bool) -> (r: Result<(HistoryState, HistoryAction), ActionError>)
    requires
        state.kind matches HistoryKind::Depth(d) ==> d <= 1_000_000,
    ensures
        r matches Err(e) ==> e.kind == ErrorKind::Rejected,
        r matches Ok((s, _)) ==> (s.kind matches HistoryKind::Depth(d) ==> d <= 1_000_000),
        history_outcome(r) == next_history(state_view(state), answer),
{
    match state.stage {
        HistoryStage::Presence => {
            if answer {
                let check = HistoryAction::Check(crate::text::owned(state.resolved.as_str()));
                Ok((HistoryState { stage: HistoryStage::Resolved, ..state }, check))
            } else {
                match state.kind {
                    HistoryKind::Depth(d) => {
                        let a = fetch_action(depth_fetch_arguments(d), true);
                        Ok((HistoryState { stage: HistoryStage::DepthFetched, ..state }, a))
                    },
                    HistoryKind::Sha => {
                        let a = fetch_action(sha_fetch_arguments(state.reference.as_str(), true), false);
                        Ok((HistoryState { stage: HistoryStage::ShaFetched, ..state }, a))
                    },
                    HistoryKind::Named => {
                        let (first, fallback) = named_fetch_plan(state.reference.as_str());
                        let required = fallback.is_none();
                        let a = fetch_action(first.arguments, required);
                        Ok((HistoryState { stage: HistoryStage::NamedFetched, resolved: first.resolved, ..state }, a))
                    },
                }
            }
        },
        HistoryStage::ShaFetched => {
            if answer {
                let check = HistoryAction::Check(crate::text::owned(state.reference.as_str()));
                Ok((HistoryState { stage: HistoryStage::ShaRechecked, ..state }, check))
            } else {
                Ok((HistoryState { stage: HistoryStage::ShallowForSha, ..state }, HistoryAction::CheckShallow))
            }
        },
        HistoryStage::ShaRechecked => {
            if answer {
                let check = HistoryAction::Check(crate::text::owned(state.resolved.as_str()));
                Ok((HistoryState { stage: HistoryStage::Resolved, ..state }, check))
            } else {
                Ok((HistoryState { stage: HistoryStage::ShallowForSha, ..state }, HistoryAction::CheckShallow))
            }
        },
        HistoryStage::ShallowForSha => {
            if answer {
                let a = fetch_action(unshallow_arguments(), true);
                Ok((HistoryState { stage: HistoryStage::UnshallowedForSha, ..state }, a))
            } else {
                let a = fetch_action(sha_fetch_arguments(state.reference.as_str(), false), true);
                Ok((HistoryState { stage: HistoryStage::ShaRefetched, ..state }, a))
            }
        },
        HistoryStage::UnshallowedForSha => {
            let a = fetch_action(sha_fetch_arguments(state.reference.as_str(), false), true);
            Ok((HistoryState { stage: HistoryStage::ShaRefetched, ..state }, a))
        },
        HistoryStage::ShaRefetched | HistoryStage::DepthFetched | HistoryStage::FallbackFetched => {
            let check = HistoryAction::Check(crate::text::owned(state.resolved.as_str()));
            Ok((HistoryState { stage: HistoryStage::Resolved, ..state }, check))
        },
        HistoryStage::NamedFetched => {
            if answer {
                let check = HistoryAction::Check(crate::text::owned(state.resolved.as_str()));
                Ok((HistoryState { stage: HistoryStage::Resolved, ..state }, check))
            } else {
                let (_, fallback) = named_fetch_plan(state.reference.as_str());
                match fallback {
                    Some(f) => {
                        let a = fetch_action(f.arguments, true);
                        Ok((HistoryState { stage: HistoryStage::FallbackFetched, resolved: f.resolved, ..state }, a))
                    },
                    None => Err(unresolved_reference(state.reference.as_str())),
                }
            }
        },
        HistoryStage::Resolved => {
            if !answer {
                Err(unresolved_reference(state.reference.as_str()))
            } else if state.merge_base {
                let check = HistoryAction::CheckMergeBase(crate::text::owned(state.resolved.as_str()));
                Ok((HistoryState { stage: HistoryStage::MergeBase, ..state }, check))
            } else {
                let args = base_arguments(state.resolved.as_str(), false);
                Ok((HistoryState { stage: HistoryStage::Done, ..state }, HistoryAction::Resolve(args)))
            }
        },
        HistoryStage::MergeBase => {
            if answer {
                let args = base_arguments(state.resolved.as_str(), true);
                Ok((HistoryState { stage: HistoryStage::Done, ..state }, HistoryAction::Resolve(args)))
            } else {
                Ok((HistoryState { stage: HistoryStage::ShallowForMerge, ..state }, HistoryAction::CheckShallow))
            }
        },
        HistoryStage::ShallowForMerge => {
            if answer {
                let a = fetch_action(unshallow_arguments(), true);
                Ok((HistoryState { stage: HistoryStage::UnshallowedForMerge, ..state }, a))
            } else {
                Ok(refetch_or_resolve_exec(state))
            }
        },
        HistoryStage::UnshallowedForMerge => Ok(refetch_or_resolve_exec(state)),
        HistoryStage::Refetched => {
            let args = base_arguments(state.resolved.as_str(), true);
            Ok((HistoryState { stage: HistoryStage::Done, ..state }, HistoryAction::Resolve(args)))
        },
        HistoryStage::Done => {
            let args = base_arguments(state.resolved.as_str(), state.merge_base);
            Ok((HistoryState { stage: HistoryStage::Done, ..state }, HistoryAction::Resolve(args)))
        },
    }
}

} // verus!
