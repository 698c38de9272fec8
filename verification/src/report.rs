use vstd::prelude::*;
use vstd::utf8::encode_utf8;

use crate::error::{ActionError, ErrorKind, rejection};
use crate::install::{spec_valid_cargo_rail_version, validate_cargo_rail_version};
use crate::text::{chars_of, str_eq, split_on, split_chars, is_ascii_alnum, is_ascii_digit, is_ascii_lower, decimal};
use crate::validation::{strs_view, text_lt, strictly_sorted, lit_in, lits_view};
use crate::github::{markdown_inline, spec_markdown_inline};

verus! {

/// The largest number of jobs in one workflow report.
pub const MAX_JOBS: usize = 512;

/// The workflow run a record belongs to.
pub struct RunBinding {
    pub repository: String,
    pub run_id: String,
    pub attempt: String,
}

/// The value of a run binding.
pub struct RunV {
    pub repository: Seq<char>,
    pub run_id: Seq<char>,
    pub attempt: Seq<char>,
}

impl View for RunBinding {
    type V = RunV;

    open spec fn view(&self) -> RunV {
        RunV { repository: self.repository@, run_id: self.run_id@, attempt: self.attempt@ }
    }
}

/// A character allowed in a repository name besides letters and digits.
pub open spec fn repository_char(c: char) -> bool {
    is_ascii_alnum(c) || c == '/' || c == '_' || c == '.' || c == '-'
}

/// A run ID or attempt: 1 to 20 ASCII digits.
pub open spec fn run_number(s: Seq<char>) -> bool {
    &&& 0 < s.len() <= 20
    &&& forall|i: int| 0 <= i < s.len() ==> is_ascii_digit(#[trigger] s[i])
}

/// A valid run binding: an `owner/name` repository of at most 256 bytes of safe characters, and
/// decimal run ID and attempt.
pub open spec fn spec_valid_binding(b: RunV) -> bool {
    &&& crate::text::byte_len(b.repository) <= 256
    &&& split_on(b.repository, '/').len() == 2
    &&& forall|i: int| 0 <= i < b.repository.len() ==> repository_char(#[trigger] b.repository[i])
    &&& run_number(b.run_id)
    &&& run_number(b.attempt)
}

fn run_number_exec(s: &str) -> (r: bool)
    ensures
        r == run_number(s@),
{
    let chars = chars_of(s);
    if chars.len() == 0 || chars.len() > 20 {
        return false;
    }
    let mut i: usize = 0;
    while i < chars.len()
        invariant
            i <= chars@.len(),
            chars@ == s@,
            forall|k: int| 0 <= k < i ==> is_ascii_digit(#[trigger] chars@[k]),
        decreases chars@.len() - i,
    {
        if !('0' <= chars[i] && chars[i] <= '9') {
            return false;
        }
        i = i + 1;
    }
    true
}

impl RunBinding {
    /// The binding of the current run, from the repository, run ID and attempt the runner gives.
    pub fn current(repository: String, run_id: String, attempt: String) -> (r: Result<RunBinding, ActionError>)
        ensures
            r is Ok <==> spec_valid_binding(RunV { repository: repository@, run_id: run_id@, attempt: attempt@ }),
            r matches Ok(b) ==> b@ == (RunV { repository: repository@, run_id: run_id@, attempt: attempt@ }),
            r matches Err(e) ==> e.kind == ErrorKind::Rejected,
    {
        let binding = RunBinding { repository, run_id, attempt };
        let chars = chars_of(binding.repository.as_str());
        let parts = split_chars(&chars, '/');
        let mut safe = true;
        let mut i: usize = 0;
        while i < chars.len()
            invariant
                i <= chars@.len(),
                safe == forall|k: int| 0 <= k < i ==> repository_char(#[trigger] chars@[k]),
            decreases chars@.len() - i,
        {
            let c = chars[i];
            let ok = ('a' <= c && c <= 'z') || ('A' <= c && c <= 'Z') || ('0' <= c && c <= '9') || c == '/' || c == '_'
                || c == '.' || c == '-';
            if !ok {
                safe = false;
            }
            i = i + 1;
        }
        if binding.repository.as_str().as_bytes().len() > 256 || parts.len() != 2 || !safe
            || !run_number_exec(binding.run_id.as_str()) || !run_number_exec(binding.attempt.as_str()) {
            return Err(rejection("cache report requires a valid workflow run binding"));
        }
        Ok(binding)
    }

    /// Whether two bindings name the same run and attempt.
    pub fn same(&self, other: &RunBinding) -> (r: bool)
        ensures
            r == (self@ == other@),
    {
        str_eq(self.repository.as_str(), other.repository.as_str()) && str_eq(self.run_id.as_str(),
            other.run_id.as_str()) && str_eq(self.attempt.as_str(), other.attempt.as_str())
    }
}

/// The cache configuration a record was made under.
pub struct Configuration {
    pub schema_version: u32,
    pub cargo_rail: String,
    pub provider: String,
    pub mode: String,
    pub max_bytes: u64,
    pub root_portability: String,
    pub remote_verification: String,
}

/// The value of a configuration.
pub struct ConfigurationV {
    pub schema_version: u32,
    pub cargo_rail: Seq<char>,
    pub provider: Seq<char>,
    pub mode: Seq<char>,
    pub max_bytes: u64,
    pub root_portability: Seq<char>,
    pub remote_verification: Seq<char>,
}

impl View for Configuration {
    type V = ConfigurationV;

    open spec fn view(&self) -> ConfigurationV {
        ConfigurationV {
            schema_version: self.schema_version,
            cargo_rail: self.cargo_rail@,
            provider: self.provider@,
            mode: self.mode@,
            max_bytes: self.max_bytes,
            root_portability: self.root_portability@,
            remote_verification: self.remote_verification@,
        }
    }
}

/// A valid configuration: schema 1, a Cargo-Rail 0.26 release, a known provider, mode, root
/// portability and remote verification, and a positive size bound.
pub open spec fn spec_valid_configuration(c: ConfigurationV) -> bool {
    &&& spec_valid_cargo_rail_version(c.cargo_rail)
    &&& c.schema_version == 1
    &&& seq!["aws-s3"@, "azure-blob"@, "cloudflare-r2"@, "s3-compatible"@].contains(c.provider)
    &&& seq!["read"@, "read-write"@].contains(c.mode)
    &&& c.max_bytes != 0
    &&& seq!["physical"@, "remap"@].contains(c.root_portability)
    &&& seq!["verified"@, "not_requested"@].contains(c.remote_verification)
}

impl Configuration {
    /// Rejects a configuration outside the cache report contract.
    pub fn validate(&self) -> (r: Result<(), ActionError>)
        ensures
            r is Ok <==> spec_valid_configuration(self@),
            r matches Err(e) ==> e.kind == ErrorKind::Rejected,
    {
        validate_cargo_rail_version(self.cargo_rail.as_str())?;
        let providers: [&str; 4] = ["aws-s3", "azure-blob", "cloudflare-r2", "s3-compatible"];
        let modes: [&str; 2] = ["read", "read-write"];
        let portability: [&str; 2] = ["physical", "remap"];
        let verification: [&str; 2] = ["verified", "not_requested"];
        proof {
            assert(lits_view(providers@) =~= seq!["aws-s3"@, "azure-blob"@, "cloudflare-r2"@, "s3-compatible"@]);
            assert(lits_view(modes@) =~= seq!["read"@, "read-write"@]);
            assert(lits_view(portability@) =~= seq!["physical"@, "remap"@]);
            assert(lits_view(verification@) =~= seq!["verified"@, "not_requested"@]);
        }
        if self.schema_version != 1 || !lit_in(&providers, self.provider.as_str()) || !lit_in(&modes, self.mode.as_str())
            || self.max_bytes == 0 || !lit_in(&portability, self.root_portability.as_str())
            || !lit_in(&verification, self.remote_verification.as_str()) {
            return Err(rejection("invalid cache report configuration"));
        }
        Ok(())
    }

    /// Whether two configurations are the same.
    pub fn same(&self, other: &Configuration) -> (r: bool)
        ensures
            r == (self@ == other@),
    {
        self.schema_version == other.schema_version && str_eq(self.cargo_rail.as_str(), other.cargo_rail.as_str())
            && str_eq(self.provider.as_str(), other.provider.as_str()) && str_eq(self.mode.as_str(), other.mode.as_str())
            && self.max_bytes == other.max_bytes && str_eq(self.root_portability.as_str(),
            other.root_portability.as_str()) && str_eq(self.remote_verification.as_str(),
            other.remote_verification.as_str())
    }
}

/// A job label: 1 to 128 bytes of letters, digits, underscores, dots and hyphens.
pub open spec fn spec_valid_job(s: Seq<char>) -> bool {
    &&& 0 < s.len() <= 128
    &&& forall|i: int| 0 <= i < s.len() ==> (is_ascii_alnum(#[trigger] s[i]) || s[i] == '_' || s[i] == '.' || s[i] == '-')
}

/// Whether `value` is a job label.
pub fn valid_job(value: &str) -> (r: bool)
    ensures
        r == spec_valid_job(value@),
{
    let chars = chars_of(value);
    if chars.len() == 0 || chars.len() > 128 {
        return false;
    }
    let mut i: usize = 0;
    while i < chars.len()
        invariant
            i <= chars@.len(),
            chars@ == value@,
            forall|k: int| 0 <= k < i ==> (is_ascii_alnum(#[trigger] chars@[k]) || chars@[k] == '_' || chars@[k] == '.'
                || chars@[k] == '-'),
        decreases chars@.len() - i,
    {
        let c = chars[i];
        if !(('a' <= c && c <= 'z') || ('A' <= c && c <= 'Z') || ('0' <= c && c <= '9') || c == '_' || c == '.'
            || c == '-') {
            return false;
        }
        i = i + 1;
    }
    true
}

/// The values of the reasons of a measurement: reason text and count, in stored order.
pub open spec fn reasons_view(v: Seq<(String, u64)>) -> Seq<(Seq<char>, u64)> {
    v.map_values(|p: (String, u64)| (p.0@, p.1))
}

/// Cache outcomes recorded during one job.
pub struct Measurements {
    pub hits: u64,
    pub misses: u64,
    pub bypasses: u64,
    pub failures: u64,
    pub local_bytes_read: u64,
    pub remote_bytes_read: u64,
    pub remote_bytes_written: u64,
    pub bypass_reasons: Vec<(String, u64)>,
    pub failure_reasons: Vec<(String, u64)>,
    pub incomplete: bool,
}

/// The value of measurements.
pub struct MeasurementsV {
    pub hits: u64,
    pub misses: u64,
    pub bypasses: u64,
    pub failures: u64,
    pub local_bytes_read: u64,
    pub remote_bytes_read: u64,
    pub remote_bytes_written: u64,
    pub bypass_reasons: Seq<(Seq<char>, u64)>,
    pub failure_reasons: Seq<(Seq<char>, u64)>,
    pub incomplete: bool,
}

impl View for Measurements {
    type V = MeasurementsV;

    open spec fn view(&self) -> MeasurementsV {
        MeasurementsV {
            hits: self.hits,
            misses: self.misses,
            bypasses: self.bypasses,
            failures: self.failures,
            local_bytes_read: self.local_bytes_read,
            remote_bytes_read: self.remote_bytes_read,
            remote_bytes_written: self.remote_bytes_written,
            bypass_reasons: reasons_view(self.bypass_reasons@),
            failure_reasons: reasons_view(self.failure_reasons@),
            incomplete: self.incomplete,
        }
    }
}

/// A character of a reason: lowercase ASCII, a digit or an underscore.
pub open spec fn reason_char(c: char) -> bool {
    is_ascii_lower(c) || is_ascii_digit(c) || c == '_'
}

/// A reason: 1 to 96 reason characters with a positive count.
pub open spec fn reason_ok(reason: Seq<char>, count: u64) -> bool {
    &&& 0 < reason.len() <= 96
    &&& count != 0
    &&& forall|i: int| 0 <= i < reason.len() ==> reason_char(#[trigger] reason[i])
}

/// At most 128 reasons, each valid, held as a sorted map (names strictly increasing).
pub open spec fn reasons_ok(r: Seq<(Seq<char>, u64)>) -> bool {
    &&& r.len() <= 128
    &&& forall|i: int| 0 <= i < r.len() ==> reason_ok((#[trigger] r[i]).0, r[i].1)
    &&& reasons_sorted(r)
}

/// Valid measurements: both reason maps are valid.
pub open spec fn spec_valid_measurements(m: MeasurementsV) -> bool {
    reasons_ok(m.bypass_reasons) && reasons_ok(m.failure_reasons)
}

/// A count added under a reason, as a sorted map adds it: to the entry of that reason, or as a new
/// entry before the first reason that sorts after it; `None` when the count overflows.
pub open spec fn reason_add(r: Seq<(Seq<char>, u64)>, key: Seq<char>, count: u64) -> Option<Seq<(Seq<char>, u64)>>
    decreases r.len(),
{
    if r.len() == 0 {
        Some(seq![(key, count)])
    } else if r[0].0 == key {
        if r[0].1 + count <= u64::MAX {
            Some(seq![(key, (r[0].1 + count) as u64)] + r.drop_first())
        } else {
            None
        }
    } else if text_lt(key, r[0].0) {
        Some(seq![(key, count)] + r)
    } else {
        match reason_add(r.drop_first(), key, count) {
            Some(rest) => Some(seq![r[0]] + rest),
            None => None,
        }
    }
}

/// Every count of `from`, in order, added to `into`; `None` when a count overflows.
pub open spec fn merge_reasons(into: Seq<(Seq<char>, u64)>, from: Seq<(Seq<char>, u64)>) -> Option<Seq<(Seq<char>, u64)>>
    decreases from.len(),
{
    if from.len() == 0 {
        Some(into)
    } else {
        match merge_reasons(into, from.drop_last()) {
            Some(acc) => reason_add(acc, from.last().0, from.last().1),
            None => None,
        }
    }
}

/// Two measurements added together: every counter and reason summed and incompleteness joined;
/// `None` when a sum overflows.
pub open spec fn merge_spec(a: MeasurementsV, b: MeasurementsV) -> Option<MeasurementsV> {
    if a.hits + b.hits > u64::MAX || a.misses + b.misses > u64::MAX || a.bypasses + b.bypasses > u64::MAX
        || a.failures + b.failures > u64::MAX || a.local_bytes_read + b.local_bytes_read > u64::MAX
        || a.remote_bytes_read + b.remote_bytes_read > u64::MAX
        || a.remote_bytes_written + b.remote_bytes_written > u64::MAX {
        None
    } else {
        match (merge_reasons(a.bypass_reasons, b.bypass_reasons), merge_reasons(a.failure_reasons, b.failure_reasons)) {
            (Some(bypass), Some(failure)) => Some(MeasurementsV {
                hits: (a.hits + b.hits) as u64,
                misses: (a.misses + b.misses) as u64,
                bypasses: (a.bypasses + b.bypasses) as u64,
                failures: (a.failures + b.failures) as u64,
                local_bytes_read: (a.local_bytes_read + b.local_bytes_read) as u64,
                remote_bytes_read: (a.remote_bytes_read + b.remote_bytes_read) as u64,
                remote_bytes_written: (a.remote_bytes_written + b.remote_bytes_written) as u64,
                bypass_reasons: bypass,
                failure_reasons: failure,
                incomplete: a.incomplete || b.incomplete,
            }),
            _ => None,
        }
    }
}

/// Entries from position `i` on: adding passes the reasons before the place of the key.
proof fn lemma_reason_add_skip(r: Seq<(Seq<char>, u64)>, key: Seq<char>, count: u64, i: int)
    requires
        0 <= i <= r.len(),
        forall|j: int| 0 <= j < i ==> (#[trigger] r[j]).0 != key && !text_lt(key, r[j].0),
    ensures
        reason_add(r, key, count) == match reason_add(r.skip(i), key, count) {
            Some(rest) => Some(r.take(i) + rest),
            None => None::<Seq<(Seq<char>, u64)>>,
        },
    decreases i,
{
    if i > 0 {
        lemma_reason_add_skip(r.drop_first(), key, count, i - 1);
        assert(r.drop_first().skip(i - 1) == r.skip(i));
        assert(r.take(i) == seq![r[0]] + r.drop_first().take(i - 1));
        match reason_add(r.skip(i), key, count) {
            Some(rest) => {
                assert(seq![r[0]] + (r.drop_first().take(i - 1) + rest) == r.take(i) + rest);
            },
            None => {},
        }
    } else {
        assert(r.skip(0) == r);
        assert(r.take(0) + r =~= r);
        match reason_add(r, key, count) {
            Some(rest) => {
                assert(r.take(0) + rest =~= rest);
            },
            None => {},
        }
    }
}

/// Adds a count under a reason; fails and changes nothing when the count overflows.
fn add_reason(reasons: &mut Vec<(String, u64)>, key: &str, count: u64) -> (ok: bool)
    ensures
        ok <==> reason_add(reasons_view(old(reasons)@), key@, count) is Some,
        ok ==> reasons_view(final(reasons)@) == reason_add(reasons_view(old(reasons)@), key@, count)->0,
        !ok ==> final(reasons)@ == old(reasons)@,
{
    let ghost rv = reasons_view(reasons@);
    let mut i: usize = 0;
    while i < reasons.len()
        invariant
            i <= reasons@.len(),
            rv == reasons_view(reasons@),
            forall|j: int| 0 <= j < i ==> (#[trigger] rv[j]).0 != key@ && !text_lt(key@, rv[j].0),
        ensures
            i <= reasons@.len(),
            i < reasons@.len() ==> (rv[i as int].0 == key@ || text_lt(key@, rv[i as int].0)),
            forall|j: int| 0 <= j < i ==> (#[trigger] rv[j]).0 != key@ && !text_lt(key@, rv[j].0),
        decreases reasons@.len() - i,
    {
        proof {
            assert(rv[i as int] == (reasons@[i as int].0@, reasons@[i as int].1));
        }
        if str_eq(reasons[i].0.as_str(), key) || crate::validation::text_less(key, reasons[i].0.as_str()) {
            break;
        }
        i = i + 1;
    }
    proof {
        lemma_reason_add_skip(rv, key@, count, i as int);
    }
    if i < reasons.len() && str_eq(reasons[i].0.as_str(), key) {
        proof {
            assert(rv.skip(i as int)[0] == rv[i as int]);
            assert(rv[i as int] == (reasons@[i as int].0@, reasons@[i as int].1));
        }
        let current = reasons[i].1;
        match current.checked_add(count) {
            Some(total) => {
                reasons.set(i, (key.to_owned(), total));
                proof {
                    assert(reasons_view(reasons@) =~= rv.take(i as int) + (seq![(key@, total)] + rv.skip(i as int).drop_first()));
                }
                true
            },
            None => false,
        }
    } else {
        reasons.insert(i, (key.to_owned(), count));
        proof {
            if i < rv.len() {
                assert(rv.skip(i as int)[0] == rv[i as int]);
                assert(reasons_view(reasons@) =~= rv.take(i as int) + (seq![(key@, count)] + rv.skip(i as int)));
            } else {
                assert(rv.skip(i as int) =~= seq![]);
                assert(reasons_view(reasons@) =~= rv.take(i as int) + seq![(key@, count)]);
            }
        }
        true
    }
}

/// A copy of reasons.
fn copy_reasons(reasons: &Vec<(String, u64)>) -> (r: Vec<(String, u64)>)
    ensures
        reasons_view(r@) == reasons_view(reasons@),
{
    let mut out: Vec<(String, u64)> = Vec::new();
    let mut i: usize = 0;
    while i < reasons.len()
        invariant
            i <= reasons@.len(),
            reasons_view(out@) == reasons_view(reasons@).take(i as int),
        decreases reasons@.len() - i,
    {
        let ghost before = reasons_view(out@);
        out.push((reasons[i].0.as_str().to_owned(), reasons[i].1));
        proof {
            assert(reasons_view(out@) =~= before.push((reasons@[i as int].0@, reasons@[i as int].1)));
            assert(reasons_view(reasons@).take(i + 1) =~= reasons_view(reasons@).take(i as int).push(
                (reasons@[i as int].0@, reasons@[i as int].1)));
        }
        i = i + 1;
    }
    proof {
        assert(reasons_view(reasons@).take(i as int) == reasons_view(reasons@));
    }
    out
}

/// Every count of `from` added to a copy of `into`.
fn merged_reasons(into: &Vec<(String, u64)>, from: &Vec<(String, u64)>) -> (r: Option<Vec<(String, u64)>>)
    ensures
        r is Some <==> merge_reasons(reasons_view(into@), reasons_view(from@)) is Some,
        r matches Some(v) ==> reasons_view(v@) == merge_reasons(reasons_view(into@), reasons_view(from@))->0,
{
    let ghost fv = reasons_view(from@);
    let mut acc = copy_reasons(into);
    let mut i: usize = 0;
    while i < from.len()
        invariant
            i <= from@.len(),
            fv == reasons_view(from@),
            merge_reasons(reasons_view(into@), fv.take(i as int)) == Some(reasons_view(acc@)),
        decreases from@.len() - i,
    {
        proof {
            assert(fv.take(i + 1).drop_last() == fv.take(i as int));
            assert(fv.take(i + 1).last() == (from@[i as int].0@, from@[i as int].1));
        }
        if !add_reason(&mut acc, from[i].0.as_str(), from[i].1) {
            proof {
                lemma_merge_reasons_none(reasons_view(into@), fv, i as int + 1);
            }
            return None;
        }
        i = i + 1;
    }
    proof {
        assert(fv.take(i as int) == fv);
    }
    Some(acc)
}

/// Once a merge overflows, merging more reasons still overflows.
proof fn lemma_merge_reasons_none(into: Seq<(Seq<char>, u64)>, from: Seq<(Seq<char>, u64)>, n: int)
    requires
        0 <= n <= from.len(),
        merge_reasons(into, from.take(n)) is None,
    ensures
        merge_reasons(into, from) is None,
    decreases from.len() - n,
{
    if n < from.len() {
        assert(from.take(n + 1).drop_last() == from.take(n));
        lemma_merge_reasons_none(into, from, n + 1);
    } else {
        assert(from.take(n) == from);
    }
}

impl Measurements {
    /// No outcomes and no reasons.
    pub fn empty() -> (m: Measurements)
        ensures
            m@.hits == 0 && m@.misses == 0 && m@.bypasses == 0 && m@.failures == 0,
            m@.local_bytes_read == 0 && m@.remote_bytes_read == 0 && m@.remote_bytes_written == 0,
            m@.bypass_reasons == Seq::<(Seq<char>, u64)>::empty(),
            m@.failure_reasons == Seq::<(Seq<char>, u64)>::empty(),
            !m@.incomplete,
    {
        let m = Measurements {
            hits: 0,
            misses: 0,
            bypasses: 0,
            failures: 0,
            local_bytes_read: 0,
            remote_bytes_read: 0,
            remote_bytes_written: 0,
            bypass_reasons: Vec::new(),
            failure_reasons: Vec::new(),
            incomplete: false,
        };
        proof {
            assert(reasons_view(m.bypass_reasons@) =~= seq![]);
            assert(reasons_view(m.failure_reasons@) =~= seq![]);
        }
        m
    }

    /// Rejects reasons that are too many, empty, too long, zero or outside the reason alphabet.
    #[verifier::loop_isolation(false)]
    pub fn validate(&self) -> (r: Result<(), ActionError>)
        ensures
            r is Ok <==> spec_valid_measurements(self@),
            r matches Err(e) ==> e.kind == ErrorKind::Rejected,
    {
        if !reasons_valid(&self.bypass_reasons) || !reasons_valid(&self.failure_reasons) {
            return Err(rejection("invalid cache measurement reasons"));
        }
        Ok(())
    }

    /// Adds other measurements to these: every counter and reason summed and incompleteness joined.
    /// When a sum overflows, nothing changes.
    pub fn merge(&mut self, other: &Measurements) -> (r: Result<(), ActionError>)
        ensures
            r is Ok <==> merge_spec(old(self)@, other@) is Some,
            r is Ok ==> final(self)@ == merge_spec(old(self)@, other@)->0,
            r is Err ==> final(self)@ == old(self)@,
            r matches Err(e) ==> e.kind == ErrorKind::Rejected,
    {
        let hits = self.hits.checked_add(other.hits);
        let misses = self.misses.checked_add(other.misses);
        let bypasses = self.bypasses.checked_add(other.bypasses);
        let failures = self.failures.checked_add(other.failures);
        let local = self.local_bytes_read.checked_add(other.local_bytes_read);
        let read = self.remote_bytes_read.checked_add(other.remote_bytes_read);
        let written = self.remote_bytes_written.checked_add(other.remote_bytes_written);
        match (hits, misses, bypasses, failures, local, read, written) {
            (Some(hits), Some(misses), Some(bypasses), Some(failures), Some(local), Some(read), Some(written)) => {
                let bypass = merged_reasons(&self.bypass_reasons, &other.bypass_reasons);
                let failure = merged_reasons(&self.failure_reasons, &other.failure_reasons);
                match (bypass, failure) {
                    (Some(bypass), Some(failure)) => {
                        self.hits = hits;
                        self.misses = misses;
                        self.bypasses = bypasses;
                        self.failures = failures;
                        self.local_bytes_read = local;
                        self.remote_bytes_read = read;
                        self.remote_bytes_written = written;
                        self.bypass_reasons = bypass;
                        self.failure_reasons = failure;
                        self.incomplete = self.incomplete || other.incomplete;
                        Ok(())
                    },
                    _ => Err(rejection("cache report totals overflow")),
                }
            },
            _ => Err(rejection("cache report totals overflow")),
        }
    }

    /// Whether two measurements are the same.
    pub fn same(&self, other: &Measurements) -> (r: bool)
        ensures
            r == (self@ == other@),
    {
        self.hits == other.hits && self.misses == other.misses && self.bypasses == other.bypasses
            && self.failures == other.failures && self.local_bytes_read == other.local_bytes_read
            && self.remote_bytes_read == other.remote_bytes_read
            && self.remote_bytes_written == other.remote_bytes_written && same_reasons(&self.bypass_reasons,
            &other.bypass_reasons) && same_reasons(&self.failure_reasons, &other.failure_reasons)
            && self.incomplete == other.incomplete
    }
}

/// Whether two reason lists are the same.
fn same_reasons(a: &Vec<(String, u64)>, b: &Vec<(String, u64)>) -> (r: bool)
    ensures
        r == (reasons_view(a@) == reasons_view(b@)),
{
    if a.len() != b.len() {
        proof {
            assert(reasons_view(a@).len() != reasons_view(b@).len());
        }
        return false;
    }
    let mut i: usize = 0;
    while i < a.len()
        invariant
            i <= a@.len(),
            a@.len() == b@.len(),
            forall|k: int| 0 <= k < i ==> #[trigger] reasons_view(a@)[k] == reasons_view(b@)[k],
        decreases a@.len() - i,
    {
        if !str_eq(a[i].0.as_str(), b[i].0.as_str()) || a[i].1 != b[i].1 {
            proof {
                assert(reasons_view(a@)[i as int] != reasons_view(b@)[i as int]);
            }
            return false;
        }
        proof {
            assert(reasons_view(a@)[i as int] == reasons_view(b@)[i as int]);
        }
        i = i + 1;
    }
    proof {
        assert(reasons_view(a@) =~= reasons_view(b@));
    }
    true
}

/// Whether a reason list is valid.
#[verifier::loop_isolation(false)]
fn reasons_valid(reasons: &Vec<(String, u64)>) -> (r: bool)
    ensures
        r == reasons_ok(reasons_view(reasons@)),
{
    if reasons.len() > 128 {
        return false;
    }
    let mut i: usize = 0;
    while i < reasons.len()
        invariant
            i <= reasons@.len(),
            reasons@.len() <= 128,
            forall|k: int| 0 <= k < i ==> reason_ok((#[trigger] reasons_view(reasons@)[k]).0, reasons_view(reasons@)[k].1),
            forall|a: int, b: int| 0 <= a < b < i ==> text_lt(
                #[trigger] reasons_view(reasons@)[a].0,
                #[trigger] reasons_view(reasons@)[b].0,
            ),
        decreases reasons@.len() - i,
    {
        let chars = chars_of(reasons[i].0.as_str());
        proof {
            assert(reasons_view(reasons@)[i as int] == (reasons@[i as int].0@, reasons@[i as int].1));
        }
        if chars.len() == 0 || chars.len() > 96 || reasons[i].1 == 0 {
            return false;
        }
        if i > 0 && !crate::validation::text_less(reasons[i - 1].0.as_str(), reasons[i].0.as_str()) {
            proof {
                assert(reasons_view(reasons@)[i - 1] == (reasons@[i - 1].0@, reasons@[i - 1].1));
                assert(!text_lt(reasons_view(reasons@)[i - 1].0, reasons_view(reasons@)[i as int].0));
            }
            return false;
        }
        proof {
            let rv = reasons_view(reasons@);
            if i > 0 {
                assert(rv[i - 1] == (reasons@[i - 1].0@, reasons@[i - 1].1));
                assert(text_lt(rv[i - 1].0, rv[i as int].0));
                assert forall|a: int, b: int| 0 <= a < b < i + 1 implies text_lt(#[trigger] rv[a].0, #[trigger] rv[b].0) by {
                    if b == i && a < i - 1 {
                        assert(text_lt(rv[a].0, rv[i - 1].0));
                        crate::workflow_text::lemma_text_lt_trans(rv[a].0, rv[i - 1].0, rv[i as int].0);
                    }
                }
            }
        }
        let mut k: usize = 0;
        while k < chars.len()
            invariant
                k <= chars@.len(),
                forall|m: int| 0 <= m < k ==> reason_char(#[trigger] chars@[m]),
            decreases chars@.len() - k,
        {
            let c = chars[k];
            if !(('a' <= c && c <= 'z') || ('0' <= c && c <= '9') || c == '_') {
                proof {
                    assert(!reason_char(chars@[k as int]));
                }
                return false;
            }
            k = k + 1;
        }
        i = i + 1;
    }
    true
}

/// The local cache storage of a job and its bound.
#[derive(Debug, Clone, Copy, PartialEq, Eq, Structural)]
pub struct Storage {
    pub bytes: u64,
    pub max_bytes: u64,
}

/// The record of one job: its run, label, configuration, measurements, storage and gaps (a set,
/// held sorted).
pub struct JobRecord {
    pub schema_version: u32,
    pub run: RunBinding,
    pub job: String,
    pub configuration: Configuration,
    pub measurements: Option<Measurements>,
    pub storage: Option<Storage>,
    pub gaps: Vec<String>,
}

/// The value of a job record.
pub struct JobRecordV {
    pub schema_version: u32,
    pub run: RunV,
    pub job: Seq<char>,
    pub configuration: ConfigurationV,
    pub measurements: Option<MeasurementsV>,
    pub storage: Option<Storage>,
    pub gaps: Seq<Seq<char>>,
}

impl View for JobRecord {
    type V = JobRecordV;

    open spec fn view(&self) -> JobRecordV {
        JobRecordV {
            schema_version: self.schema_version,
            run: self.run@,
            job: self.job@,
            configuration: self.configuration@,
            measurements: match self.measurements {
                Some(m) => Some(m@),
                None => None,
            },
            storage: self.storage,
            gaps: strs_view(self.gaps@),
        }
    }
}

/// The values of a list of records.
pub open spec fn records_view(v: Seq<JobRecord>) -> Seq<JobRecordV> {
    v.map_values(|r: JobRecord| r@)
}

/// The gaps of a record are known and agree with its measurements and storage, and its storage
/// bound is its configured bound.
pub open spec fn gaps_ok(r: JobRecordV) -> bool {
    &&& forall|i: int| 0 <= i < r.gaps.len() ==> seq!["measurements_unavailable"@, "recording_incomplete"@,
        "storage_unavailable"@].contains(#[trigger] r.gaps[i])
    &&& (r.measurements is None) == r.gaps.contains("measurements_unavailable"@)
    &&& (r.storage is None) == r.gaps.contains("storage_unavailable"@)
    &&& (r.measurements matches Some(m) && m.incomplete) == r.gaps.contains("recording_incomplete"@)
    &&& !(r.storage matches Some(st) && st.max_bytes != r.configuration.max_bytes)
}

/// A record that the report admits: schema 1, this run, an expected job, a valid configuration and
/// measurements, and consistent gaps.
pub open spec fn record_admissible(r: JobRecordV, run: RunV, expected: Seq<Seq<char>>) -> bool {
    &&& r.schema_version == 1
    &&& r.run == run
    &&& expected.contains(r.job)
    &&& spec_valid_configuration(r.configuration)
    &&& r.measurements matches Some(m) ==> spec_valid_measurements(m)
    &&& gaps_ok(r)
}

/// The first record of the job.
pub open spec fn find_record(records: Seq<JobRecordV>, job: Seq<char>) -> Option<JobRecordV>
    decreases records.len(),
{
    if records.len() == 0 {
        None
    } else if records[0].job == job {
        Some(records[0])
    } else {
        find_record(records.drop_first(), job)
    }
}

/// A record inserted before the first record whose job sorts after it.
pub open spec fn insert_record(records: Seq<JobRecordV>, r: JobRecordV) -> Seq<JobRecordV>
    decreases records.len(),
{
    if records.len() == 0 {
        seq![r]
    } else if text_lt(r.job, records[0].job) {
        seq![r] + records
    } else {
        seq![records[0]] + insert_record(records.drop_first(), r)
    }
}

/// The records after admitting one: unchanged when its job already has a record, else with it
/// inserted in job order.
pub open spec fn admitted(records: Seq<JobRecordV>, r: JobRecordV) -> Seq<JobRecordV> {
    if find_record(records, r.job) is Some {
        records
    } else {
        insert_record(records, r)
    }
}

proof fn lemma_find_record_skip(records: Seq<JobRecordV>, job: Seq<char>, i: int)
    requires
        0 <= i <= records.len(),
        forall|j: int| 0 <= j < i ==> (#[trigger] records[j]).job != job,
    ensures
        find_record(records, job) == find_record(records.skip(i), job),
    decreases i,
{
    if i > 0 {
        lemma_find_record_skip(records.drop_first(), job, i - 1);
        assert(records.drop_first().skip(i - 1) == records.skip(i));
    } else {
        assert(records.skip(0) == records);
    }
}

proof fn lemma_insert_record_skip(records: Seq<JobRecordV>, r: JobRecordV, i: int)
    requires
        0 <= i <= records.len(),
        forall|j: int| 0 <= j < i ==> !text_lt(r.job, (#[trigger] records[j]).job),
    ensures
        insert_record(records, r) == records.take(i) + insert_record(records.skip(i), r),
    decreases i,
{
    if i > 0 {
        lemma_insert_record_skip(records.drop_first(), r, i - 1);
        assert(records.drop_first().skip(i - 1) == records.skip(i));
        assert(records.take(i) == seq![records[0]] + records.drop_first().take(i - 1));
    } else {
        assert(records.skip(0) == records);
        assert(records.take(0) =~= seq![]);
    }
}

/// Whether the gaps hold the given gap.
fn has_gap(gaps: &Vec<String>, gap: &str) -> (r: bool)
    ensures
        r == strs_view(gaps@).contains(gap@),
{
    crate::plan_validation::str_in(gaps, gap)
}

impl JobRecord {
    /// Whether two records are the same.
    pub fn same(&self, other: &JobRecord) -> (r: bool)
        ensures
            r == (self@ == other@),
    {
        let measurements = match (&self.measurements, &other.measurements) {
            (Some(a), Some(b)) => a.same(b),
            (None, None) => true,
            _ => false,
        };
        self.schema_version == other.schema_version && self.run.same(&other.run) && str_eq(self.job.as_str(),
            other.job.as_str()) && self.configuration.same(&other.configuration) && measurements && self.storage
            == other.storage && crate::plan_validation::strings_equal(&self.gaps, &other.gaps)
    }
}

/// Checks that a record's gaps are known and consistent.
#[verifier::loop_isolation(false)]
fn gaps_consistent(record: &JobRecord) -> (r: bool)
    ensures
        r == gaps_ok(record@),
{
    let known: [&str; 3] = ["measurements_unavailable", "recording_incomplete", "storage_unavailable"];
    proof {
        assert(lits_view(known@) =~= seq!["measurements_unavailable"@, "recording_incomplete"@, "storage_unavailable"@]);
    }
    let mut i: usize = 0;
    while i < record.gaps.len()
        invariant
            i <= record.gaps@.len(),
            forall|k: int| 0 <= k < i ==> lits_view(known@).contains(#[trigger] strs_view(record.gaps@)[k]),
        decreases record.gaps@.len() - i,
    {
        proof {
            assert(strs_view(record.gaps@)[i as int] == record.gaps@[i as int]@);
        }
        if !lit_in(&known, record.gaps[i].as_str()) {
            return false;
        }
        i = i + 1;
    }
    let incomplete = match &record.measurements {
        Some(m) => m.incomplete,
        None => false,
    };
    let storage_mismatch = match &record.storage {
        Some(st) => st.max_bytes != record.configuration.max_bytes,
        None => false,
    };
    record.measurements.is_none() == has_gap(&record.gaps, "measurements_unavailable") && record.storage.is_none()
        == has_gap(&record.gaps, "storage_unavailable") && incomplete == has_gap(&record.gaps, "recording_incomplete")
        && !storage_mismatch
}

/// Admits a job record into the records of a workflow report, kept in job order: a record of
/// another run or contract, of an unexpected job, or inconsistent is refused; the same record again
/// changes nothing; a different record for a job already admitted is refused.
#[verifier::loop_isolation(false)]
pub fn admit_record(records: &mut Vec<JobRecord>, record: JobRecord, run: &RunBinding, expected: &Vec<String>)
    -> (r: Result<(), ActionError>)
    ensures
        r is Ok <==> record_admissible(record@, run@, strs_view(expected@))
            && (find_record(records_view(old(records)@), record@.job) matches Some(previous) ==> previous == record@),
        r is Ok ==> records_view(final(records)@) == admitted(records_view(old(records)@), record@),
        r is Err ==> records_view(final(records)@) == records_view(old(records)@),
        r matches Err(e) ==> e.kind == ErrorKind::Rejected,
{
    if record.schema_version != 1 || !record.run.same(run) || !crate::plan_validation::str_in(expected,
        record.job.as_str()) {
        return Err(rejection("cache record belongs to an unexpected job, run, attempt, or contract"));
    }
    record.configuration.validate()?;
    match &record.measurements {
        Some(counts) => counts.validate()?,
        None => {},
    }
    if !gaps_consistent(&record) {
        return Err(rejection("cache record completeness or storage fields disagree"));
    }
    let ghost rv = records_view(records@);
    let mut i: usize = 0;
    while i < records.len()
        invariant
            i <= records@.len(),
            rv == records_view(records@),
            forall|j: int| 0 <= j < i ==> (#[trigger] rv[j]).job != record@.job,
        decreases records@.len() - i,
    {
        proof {
            assert(rv[i as int] == records@[i as int]@);
        }
        if str_eq(records[i].job.as_str(), record.job.as_str()) {
            proof {
                lemma_find_record_skip(rv, record@.job, i as int);
                assert(rv.skip(i as int)[0] == rv[i as int]);
            }
            if !records[i].same(&record) {
                return Err(rejection("conflicting duplicate cache job record"));
            }
            return Ok(());
        }
        i = i + 1;
    }
    proof {
        lemma_find_record_skip(rv, record@.job, i as int);
        assert(rv.skip(i as int) =~= seq![]);
    }
    let mut k: usize = 0;
    while k < records.len() && !crate::validation::text_less(record.job.as_str(), records[k].job.as_str())
        invariant
            k <= records@.len(),
            rv == records_view(records@),
            forall|j: int| 0 <= j < k ==> !text_lt(record@.job, (#[trigger] rv[j]).job),
        decreases records@.len() - k,
    {
        proof {
            assert(rv[k as int] == records@[k as int]@);
        }
        k = k + 1;
    }
    proof {
        lemma_insert_record_skip(rv, record@, k as int);
        if k < rv.len() {
            assert(rv[k as int] == records@[k as int]@);
            assert(rv.skip(k as int)[0] == rv[k as int]);
        } else {
            assert(rv.skip(k as int) =~= seq![]);
        }
    }
    let ghost inserted = record@;
    records.insert(k, record);
    proof {
        if k < rv.len() {
            assert(records_view(records@) =~= rv.take(k as int) + (seq![inserted] + rv.skip(k as int)));
        } else {
            assert(records_view(records@) =~= rv.take(k as int) + seq![inserted]);
        }
    }
    Ok(())
}

/// The number of binary digits of `v`.
pub open spec fn bit_length(v: nat) -> nat
    decreases v,
{
    if v == 0 {
        0
    } else {
        1 + bit_length(v / 2)
    }
}

/// Two to the power `e`.
pub open spec fn pow2(e: nat) -> nat
    decreases e,
{
    if e == 0 {
        1
    } else {
        2 * pow2((e - 1) as nat)
    }
}

/// `n / d` rounded to the nearest integer, ties to even.
pub open spec fn round_half_even(n: nat, d: nat) -> nat {
    let q = n / d;
    let r = n % d;
    if 2 * r > d || (2 * r == d && q % 2 == 1) {
        q + 1
    } else {
        q
    }
}

/// The value of the double nearest to `v`, ties to even, as `v as f64` gives it.
pub open spec fn nearest_double(v: nat) -> nat {
    if bit_length(v) <= 53 {
        v
    } else {
        let e = (bit_length(v) - 53) as nat;
        round_half_even(v, pow2(e)) * pow2(e)
    }
}

/// The binary units that sizes are shown in.
pub open spec fn unit_size(k: nat) -> nat {
    if k == 0 {
        1
    } else if k == 1 {
        1024
    } else if k == 2 {
        1048576
    } else if k == 3 {
        1073741824
    } else {
        1099511627776
    }
}

pub open spec fn unit_name(k: nat) -> Seq<char> {
    if k == 0 {
        "B"@
    } else if k == 1 {
        "KiB"@
    } else if k == 2 {
        "MiB"@
    } else if k == 3 {
        "GiB"@
    } else {
        "TiB"@
    }
}

/// The largest unit that a quantity reaches, up to TiB.
pub open spec fn unit_index(f: nat) -> nat {
    if f < 1024 {
        0
    } else if f < 1048576 {
        1
    } else if f < 1073741824 {
        2
    } else if f < 1099511627776 {
        3
    } else {
        4
    }
}

/// A byte count for people: whole bytes below 1 KiB, else the value as a double divided down to
/// the largest unit up to TiB and shown with one decimal, rounded half to even.
pub open spec fn spec_bytes(v: u64) -> Seq<char> {
    let f = nearest_double(v as nat);
    let k = unit_index(f);
    if k == 0 {
        decimal(v as nat) + " B"@
    } else {
        let t = round_half_even(f * 10, unit_size(k));
        decimal(t / 10) + "."@ + decimal(t % 10) + " "@ + unit_name(k)
    }
}

proof fn lemma_bit_length_bound(v: nat, k: nat)
    requires
        v < pow2(k),
    ensures
        bit_length(v) <= k,
    decreases k,
{
    if v > 0 {
        if k == 0 {
            assert(false);
        } else {
            lemma_bit_length_bound(v / 2, (k - 1) as nat);
        }
    }
}

proof fn lemma_pow2_64()
    ensures
        pow2(64) == 0x1_0000_0000_0000_0000nat,
        pow2(53) == 0x20_0000_0000_0000nat,
{
    reveal_with_fuel(pow2, 65);
}

/// A byte count for people, as the cache report shows it.
pub fn bytes(value: u64) -> (text: String)
    ensures
        text@ == spec_bytes(value),
{
    let mut n: u64 = value;
    let mut length: u64 = 0;
    proof {
        lemma_pow2_64();
        lemma_bit_length_bound(value as nat, 64);
    }
    while n > 0
        invariant
            length + bit_length(n as nat) == bit_length(value as nat),
            bit_length(value as nat) <= 64,
        decreases n,
    {
        n = n / 2;
        length = length + 1;
    }
    let f: u128 = if length <= 53 {
        value as u128
    } else {
        let e = length - 53;
        let mut p: u128 = 1;
        let mut i: u64 = 0;
        while i < e
            invariant
                i <= e,
                e <= 11,
                p == pow2(i as nat),
                1 <= p <= 2048,
            decreases e - i,
        {
            proof {
                assert(pow2((i + 1) as nat) == 2 * pow2(i as nat));
                reveal_with_fuel(pow2, 12);
                assert(pow2(11) == 2048);
                if i + 1 <= 11 {
                    lemma_pow2_monotone((i + 1) as nat, 11);
                }
            }
            p = p * 2;
            i = i + 1;
        }
        let v = value as u128;
        let q = v / p;
        let r = v % p;
        let rounded = if 2 * r > p || (2 * r == p && q % 2 == 1) { q + 1 } else { q };
        proof {
            assert(q <= v);
            assert(rounded * p <= (v + 1) * 2048) by (nonlinear_arith)
                requires
                    rounded <= q + 1,
                    q <= v,
                    p <= 2048,
            ;
        }
        rounded * p
    };
    proof {
        assert(f == nearest_double(value as nat));
    }
    if f < 1024 {
        let mut text = crate::text::u64_text(value);
        crate::text::push_str(&mut text, " B");
        return text;
    }
    let (size, unit): (u128, &str) = if f < 1048576 {
        (1024, "KiB")
    } else if f < 1073741824 {
        (1048576, "MiB")
    } else if f < 1099511627776 {
        (1073741824, "GiB")
    } else {
        (1099511627776, "TiB")
    };
    let scaled = f * 10;
    let q = scaled / size;
    let r = scaled % size;
    let t = if 2 * r > size || (2 * r == size && q % 2 == 1) { q + 1 } else { q };
    proof {
        assert(t <= scaled / 1024 + 1) by (nonlinear_arith)
            requires
                t <= q + 1,
                q == scaled / size,
                size >= 1024,
        ;
    }
    let whole = (t / 10) as u64;
    let tenth = (t % 10) as u64;
    let mut text = crate::text::u64_text(whole);
    crate::text::push_str(&mut text, ".");
    crate::text::push_str(&mut text, crate::text::u64_text(tenth).as_str());
    crate::text::push_str(&mut text, " ");
    crate::text::push_str(&mut text, unit);
    text
}

proof fn lemma_pow2_monotone(a: nat, b: nat)
    requires
        a <= b,
    ensures
        pow2(a) <= pow2(b),
    decreases b,
{
    if a < b {
        lemma_pow2_monotone(a, (b - 1) as nat);
    }
}

/// No outcomes and no reasons.
pub open spec fn empty_measurements() -> MeasurementsV {
    MeasurementsV {
        hits: 0,
        misses: 0,
        bypasses: 0,
        failures: 0,
        local_bytes_read: 0,
        remote_bytes_read: 0,
        remote_bytes_written: 0,
        bypass_reasons: seq![],
        failure_reasons: seq![],
        incomplete: false,
    }
}

/// The measurements of the records added up in order; `None` when a sum overflows.
pub open spec fn totals_of(records: Seq<JobRecordV>) -> Option<MeasurementsV>
    decreases records.len(),
{
    if records.len() == 0 {
        Some(empty_measurements())
    } else {
        match totals_of(records.drop_last()) {
            None => None,
            Some(t) => match records.last().measurements {
                Some(m) => merge_spec(t, m),
                None => Some(t),
            },
        }
    }
}

/// The number of records with measurements.
pub open spec fn measured_count(records: Seq<JobRecordV>) -> nat
    decreases records.len(),
{
    if records.len() == 0 {
        0
    } else if records.last().measurements is Some {
        measured_count(records.drop_last()) + 1
    } else {
        measured_count(records.drop_last())
    }
}

/// The escaped labels of the expected jobs without a record, in order.
pub open spec fn missing_jobs(records: Seq<JobRecordV>, expected: Seq<Seq<char>>) -> Seq<Seq<char>>
    decreases expected.len(),
{
    if expected.len() == 0 {
        seq![]
    } else if find_record(records, expected.last()) is None {
        missing_jobs(records, expected.drop_last()).push(spec_markdown_inline(expected.last()))
    } else {
        missing_jobs(records, expected.drop_last())
    }
}

/// How a gap reads.
pub open spec fn gap_label(gap: Seq<char>) -> Seq<char> {
    if gap == "measurements_unavailable"@ {
        "measurements unavailable"@
    } else if gap == "recording_incomplete"@ {
        "recording incomplete"@
    } else {
        "storage unavailable"@
    }
}

/// How the gaps of a record read.
pub open spec fn gap_labels(gaps: Seq<Seq<char>>) -> Seq<Seq<char>> {
    gaps.map_values(|g: Seq<char>| gap_label(g))
}

/// One line for each record with gaps.
pub open spec fn gap_lines(records: Seq<JobRecordV>) -> Seq<Seq<char>>
    decreases records.len(),
{
    if records.len() == 0 {
        seq![]
    } else if records.last().gaps.len() > 0 {
        gap_lines(records.drop_last()).push("\n**"@ + spec_markdown_inline(records.last().job) + ":** "@
            + crate::plan_summary::join(gap_labels(records.last().gaps), ", "@) + "."@)
    } else {
        gap_lines(records.drop_last())
    }
}

/// A reason with underscores shown as spaces.
pub open spec fn spaced(s: Seq<char>) -> Seq<char> {
    s.map_values(|c: char| if c == '_' { ' ' } else { c })
}

/// One line for each reason and its count.
pub open spec fn reason_lines(r: Seq<(Seq<char>, u64)>) -> Seq<Seq<char>> {
    r.map_values(|p: (Seq<char>, u64)| "- "@ + spaced(p.0) + ": "@ + decimal(p.1 as nat))
}

/// The outcome counts of measurements.
pub open spec fn outcome_text(m: MeasurementsV) -> Seq<char> {
    "Reused: "@ + decimal(m.hits as nat) + " · Misses: "@ + decimal(m.misses as nat) + " · Bypasses: "@
        + decimal(m.bypasses as nat) + " · Wrapper failures: "@ + decimal(m.failures as nat)
}

/// The lines of one record in the job details.
pub open spec fn job_lines_for(r: JobRecordV) -> Seq<Seq<char>> {
    seq!["- **"@ + spec_markdown_inline(r.job) + "** — "@ + r.configuration.provider + " · "@ + r.configuration.mode
        + " · remote "@ + if r.configuration.remote_verification == "verified"@ {
        "verified at setup"@
    } else {
        "not checked at setup"@
    }] + match r.measurements {
        Some(m) => seq!["  - "@ + outcome_text(m)],
        None => seq![],
    } + match r.storage {
        Some(st) => seq!["  - Local storage: "@ + spec_bytes(st.bytes) + " / "@ + spec_bytes(st.max_bytes) + " limit"@],
        None => seq![],
    }
}

/// The lines of every record in the job details.
pub open spec fn job_lines(records: Seq<JobRecordV>) -> Seq<Seq<char>>
    decreases records.len(),
{
    if records.len() == 0 {
        seq![]
    } else {
        job_lines(records.drop_last()) + job_lines_for(records.last())
    }
}

/// The lines about the totals.
pub open spec fn totals_lines(records: Seq<JobRecordV>, t: MeasurementsV) -> Seq<Seq<char>> {
    if measured_count(records) > 0 {
        seq!["**"@ + outcome_text(t) + "**"@, "Local reads: "@ + spec_bytes(t.local_bytes_read) + " · Downloaded: "@
            + spec_bytes(t.remote_bytes_read) + " · Uploaded: "@ + spec_bytes(t.remote_bytes_written)]
            + if t.hits == 0 && t.misses == 0 && t.bypasses == 0 && t.failures == 0 {
            seq!["No compiler-cache outcomes recorded. Cargo freshness can avoid compiler invocation entirely."@]
        } else {
            seq![]
        }
    } else {
        seq!["No cache measurements available."@]
    }
}

/// The lines of the workflow cache summary.
pub open spec fn render_lines(records: Seq<JobRecordV>, expected: Seq<Seq<char>>, t: MeasurementsV) -> Seq<Seq<char>> {
    let missing = missing_jobs(records, expected);
    seq!["## Cargo-Rail cache"@, ""@, decimal(measured_count(records)) + "/"@ + decimal(expected.len()) + " jobs measured"@,
        ""@] + totals_lines(records, t) + (if missing.len() > 0 {
        seq!["\n**Missing job reports:** "@ + crate::plan_summary::join(missing, ", "@) + ". Totals are partial."@]
    } else {
        seq![]
    }) + gap_lines(records) + (if t.failure_reasons.len() > 0 {
        seq!["\n**Cache problems**"@] + reason_lines(t.failure_reasons)
    } else {
        seq![]
    }) + (if t.bypass_reasons.len() > 0 {
        seq!["\n<details><summary>Why compilation bypassed the cache</summary>\n"@] + reason_lines(t.bypass_reasons)
            + seq!["\n</details>"@]
    } else {
        seq![]
    }) + (if records.len() > 0 {
        seq!["\n<details><summary>Jobs, storage, and configuration</summary>\n"@] + job_lines(records)
            + seq!["\n</details>"@]
    } else {
        seq![]
    }) + seq!["\nCounts cover recorded wrapper outcomes between cache setup and collection. Storage is measured per job; shared storage is not added together.\n"@]
}

/// The workflow cache summary; `None` when the totals overflow.
pub open spec fn spec_render(records: Seq<JobRecordV>, expected: Seq<Seq<char>>) -> Option<Seq<char>> {
    match totals_of(records) {
        Some(t) => Some(crate::plan_summary::join(render_lines(records, expected, t), "\n"@)),
        None => None,
    }
}

proof fn lemma_totals_none(records: Seq<JobRecordV>, n: int)
    requires
        0 <= n <= records.len(),
        totals_of(records.take(n)) is None,
    ensures
        totals_of(records) is None,
    decreases records.len() - n,
{
    if n < records.len() {
        assert(records.take(n + 1).drop_last() == records.take(n));
        lemma_totals_none(records, n + 1);
    } else {
        assert(records.take(n) == records);
    }
}

/// The measurements of the records added up, and how many records have measurements.
#[verifier::loop_isolation(false)]
fn totals(records: &Vec<JobRecord>) -> (r: Result<(Measurements, usize), ActionError>)
    ensures
        r is Ok <==> totals_of(records_view(records@)) is Some,
        r matches Ok((t, n)) ==> Some(t@) == totals_of(records_view(records@)) && n == measured_count(records_view(records@)),
        r matches Err(e) ==> e.kind == ErrorKind::Rejected,
{
    let ghost rv = records_view(records@);
    let mut total = Measurements::empty();
    let mut measured: usize = 0;
    proof {
        assert(total@ == empty_measurements());
        assert(rv.take(0) =~= seq![]);
    }
    let mut i: usize = 0;
    while i < records.len()
        invariant
            i <= records@.len(),
            rv == records_view(records@),
            Some(total@) == totals_of(rv.take(i as int)),
            measured == measured_count(rv.take(i as int)),
            measured <= i,
        decreases records@.len() - i,
    {
        proof {
            assert(rv.take(i + 1).drop_last() == rv.take(i as int));
            assert(rv.take(i + 1).last() == records@[i as int]@);
        }
        match &records[i].measurements {
            Some(counts) => {
                if let Err(e) = total.merge(counts) {
                    proof {
                        lemma_totals_none(rv, i as int + 1);
                    }
                    return Err(e);
                }
                measured = measured + 1;
            },
            None => {},
        }
        i = i + 1;
    }
    proof {
        assert(rv.take(i as int) == rv);
    }
    Ok((total, measured))
}

/// Whether a record of the job exists.
fn has_record(records: &Vec<JobRecord>, job: &str) -> (r: bool)
    ensures
        r == find_record(records_view(records@), job@) is Some,
{
    let ghost rv = records_view(records@);
    let mut i: usize = 0;
    while i < records.len()
        invariant
            i <= records@.len(),
            rv == records_view(records@),
            forall|j: int| 0 <= j < i ==> (#[trigger] rv[j]).job != job@,
        decreases records@.len() - i,
    {
        proof {
            assert(rv[i as int] == records@[i as int]@);
        }
        if str_eq(records[i].job.as_str(), job) {
            proof {
                lemma_find_record_skip(rv, job@, i as int);
                assert(rv.skip(i as int)[0] == rv[i as int]);
            }
            return true;
        }
        i = i + 1;
    }
    proof {
        lemma_find_record_skip(rv, job@, i as int);
        assert(rv.skip(i as int) =~= seq![]);
    }
    false
}

/// The escaped labels of the expected jobs without a record.
fn missing_list(records: &Vec<JobRecord>, expected: &Vec<String>) -> (r: Vec<String>)
    ensures
        strs_view(r@) == missing_jobs(records_view(records@), strs_view(expected@)),
{
    let ghost ev = strs_view(expected@);
    let mut out: Vec<String> = Vec::new();
    let mut i: usize = 0;
    while i < expected.len()
        invariant
            i <= expected@.len(),
            ev == strs_view(expected@),
            strs_view(out@) == missing_jobs(records_view(records@), ev.take(i as int)),
        decreases expected@.len() - i,
    {
        proof {
            assert(ev.take(i + 1).drop_last() == ev.take(i as int));
            assert(ev.take(i + 1).last() == expected@[i as int]@);
        }
        if !has_record(records, expected[i].as_str()) {
            let ghost before = strs_view(out@);
            out.push(markdown_inline(expected[i].as_str()));
            proof {
                assert(strs_view(out@) =~= before.push(spec_markdown_inline(expected@[i as int]@)));
            }
        }
        i = i + 1;
    }
    proof {
        assert(ev.take(i as int) == ev);
    }
    out
}

/// The line for the gaps of one record.
fn gap_line(record: &JobRecord) -> (r: String)
    ensures
        r@ == "\n**"@ + spec_markdown_inline(record@.job) + ":** "@ + crate::plan_summary::join(gap_labels(record@.gaps),
            ", "@) + "."@,
{
    let mut labels: Vec<String> = Vec::new();
    let mut i: usize = 0;
    while i < record.gaps.len()
        invariant
            i <= record.gaps@.len(),
            strs_view(labels@) == gap_labels(strs_view(record.gaps@)).take(i as int),
        decreases record.gaps@.len() - i,
    {
        let gap = record.gaps[i].as_str();
        let label = if str_eq(gap, "measurements_unavailable") {
            "measurements unavailable"
        } else if str_eq(gap, "recording_incomplete") {
            "recording incomplete"
        } else {
            "storage unavailable"
        };
        let ghost before = strs_view(labels@);
        labels.push(label.to_owned());
        proof {
            assert(strs_view(labels@) =~= before.push(gap_label(record.gaps@[i as int]@)));
            assert(gap_labels(strs_view(record.gaps@)).take(i + 1) =~= gap_labels(strs_view(record.gaps@)).take(i as int).push(
                gap_label(record.gaps@[i as int]@)));
        }
        i = i + 1;
    }
    proof {
        assert(gap_labels(strs_view(record.gaps@)).take(i as int) == gap_labels(strs_view(record.gaps@)));
    }
    let mut line = "\n**".to_owned();
    crate::text::push_str(&mut line, markdown_inline(record.job.as_str()).as_str());
    crate::text::push_str(&mut line, ":** ");
    crate::text::push_str(&mut line, crate::plan_summary::join_strings(&labels, ", ").as_str());
    crate::text::push_str(&mut line, ".");
    line
}

/// One line for each record with gaps.
fn gap_lines_of(records: &Vec<JobRecord>) -> (r: Vec<String>)
    ensures
        strs_view(r@) == gap_lines(records_view(records@)),
{
    let ghost rv = records_view(records@);
    let mut out: Vec<String> = Vec::new();
    let mut i: usize = 0;
    while i < records.len()
        invariant
            i <= records@.len(),
            rv == records_view(records@),
            strs_view(out@) == gap_lines(rv.take(i as int)),
        decreases records@.len() - i,
    {
        proof {
            assert(rv.take(i + 1).drop_last() == rv.take(i as int));
            assert(rv.take(i + 1).last() == records@[i as int]@);
        }
        if records[i].gaps.len() > 0 {
            let ghost before = strs_view(out@);
            out.push(gap_line(&records[i]));
            proof {
                let rec = records@[i as int]@;
                assert(strs_view(out@) =~= before.push("\n**"@ + spec_markdown_inline(rec.job) + ":** "@
                    + crate::plan_summary::join(gap_labels(rec.gaps), ", "@) + "."@));
            }
        }
        i = i + 1;
    }
    proof {
        assert(rv.take(i as int) == rv);
    }
    out
}

/// A reason with underscores shown as spaces.
fn spaced_text(s: &str) -> (r: String)
    ensures
        r@ == spaced(s@),
{
    let chars = chars_of(s);
    let mut out = String::new();
    let mut i: usize = 0;
    while i < chars.len()
        invariant
            i <= chars@.len(),
            out@ == spaced(chars@.take(i as int)),
        decreases chars@.len() - i,
    {
        let c = chars[i];
        crate::text::push_char(&mut out, if c == '_' { ' ' } else { c });
        proof {
            assert(spaced(chars@.take(i + 1)) =~= spaced(chars@.take(i as int)).push(if c == '_' { ' ' } else { c }));
        }
        i = i + 1;
    }
    proof {
        assert(chars@.take(i as int) == chars@);
    }
    out
}

/// One line for each reason and its count.
fn reason_lines_of(reasons: &Vec<(String, u64)>) -> (r: Vec<String>)
    ensures
        strs_view(r@) == reason_lines(reasons_view(reasons@)),
{
    let mut out: Vec<String> = Vec::new();
    let mut i: usize = 0;
    while i < reasons.len()
        invariant
            i <= reasons@.len(),
            strs_view(out@) == reason_lines(reasons_view(reasons@)).take(i as int),
        decreases reasons@.len() - i,
    {
        let mut line = "- ".to_owned();
        crate::text::push_str(&mut line, spaced_text(reasons[i].0.as_str()).as_str());
        crate::text::push_str(&mut line, ": ");
        crate::text::push_str(&mut line, crate::text::u64_text(reasons[i].1).as_str());
        let ghost before = strs_view(out@);
        out.push(line);
        proof {
            let p = (reasons@[i as int].0@, reasons@[i as int].1);
            assert(reasons_view(reasons@)[i as int] == p);
            assert(strs_view(out@) =~= before.push("- "@ + spaced(p.0) + ": "@ + decimal(p.1 as nat)));
            assert(reason_lines(reasons_view(reasons@)).take(i + 1) =~= reason_lines(reasons_view(reasons@)).take(
                i as int).push("- "@ + spaced(p.0) + ": "@ + decimal(p.1 as nat)));
        }
        i = i + 1;
    }
    proof {
        assert(reason_lines(reasons_view(reasons@)).take(i as int) == reason_lines(reasons_view(reasons@)));
    }
    out
}

/// The outcome counts of measurements.
fn outcome_line(m: &Measurements) -> (r: String)
    ensures
        r@ == outcome_text(m@),
{
    let mut line = "Reused: ".to_owned();
    crate::text::push_str(&mut line, crate::text::u64_text(m.hits).as_str());
    crate::text::push_str(&mut line, " · Misses: ");
    crate::text::push_str(&mut line, crate::text::u64_text(m.misses).as_str());
    crate::text::push_str(&mut line, " · Bypasses: ");
    crate::text::push_str(&mut line, crate::text::u64_text(m.bypasses).as_str());
    crate::text::push_str(&mut line, " · Wrapper failures: ");
    crate::text::push_str(&mut line, crate::text::u64_text(m.failures).as_str());
    line
}

/// The lines of one record in the job details.
fn job_lines_of_record(record: &JobRecord) -> (r: Vec<String>)
    ensures
        strs_view(r@) == job_lines_for(record@),
{
    let configuration = &record.configuration;
    let mut head = "- **".to_owned();
    crate::text::push_str(&mut head, markdown_inline(record.job.as_str()).as_str());
    crate::text::push_str(&mut head, "** — ");
    crate::text::push_str(&mut head, configuration.provider.as_str());
    crate::text::push_str(&mut head, " · ");
    crate::text::push_str(&mut head, configuration.mode.as_str());
    crate::text::push_str(&mut head, " · remote ");
    if str_eq(configuration.remote_verification.as_str(), "verified") {
        crate::text::push_str(&mut head, "verified at setup");
    } else {
        crate::text::push_str(&mut head, "not checked at setup");
    }
    let mut out: Vec<String> = Vec::new();
    let ghost first = head@;
    out.push(head);
    let ghost after_head = strs_view(out@);
    proof {
        assert(after_head =~= seq![first]);
    }
    match &record.measurements {
        Some(m) => {
            let mut line = "  - ".to_owned();
            crate::text::push_str(&mut line, outcome_line(m).as_str());
            out.push(line);
        },
        None => {},
    }
    let ghost after_counts = strs_view(out@);
    proof {
        assert(after_counts =~= after_head + match record@.measurements {
            Some(m) => seq!["  - "@ + outcome_text(m)],
            None => seq![],
        });
    }
    match &record.storage {
        Some(st) => {
            let mut line = "  - Local storage: ".to_owned();
            crate::text::push_str(&mut line, bytes(st.bytes).as_str());
            crate::text::push_str(&mut line, " / ");
            crate::text::push_str(&mut line, bytes(st.max_bytes).as_str());
            crate::text::push_str(&mut line, " limit");
            out.push(line);
        },
        None => {},
    }
    proof {
        assert(strs_view(out@) =~= job_lines_for(record@));
    }
    out
}

/// The lines of every record in the job details.
fn job_lines_of(records: &Vec<JobRecord>) -> (r: Vec<String>)
    ensures
        strs_view(r@) == job_lines(records_view(records@)),
{
    let ghost rv = records_view(records@);
    let mut out: Vec<String> = Vec::new();
    let mut i: usize = 0;
    while i < records.len()
        invariant
            i <= records@.len(),
            rv == records_view(records@),
            strs_view(out@) == job_lines(rv.take(i as int)),
        decreases records@.len() - i,
    {
        proof {
            assert(rv.take(i + 1).drop_last() == rv.take(i as int));
            assert(rv.take(i + 1).last() == records@[i as int]@);
        }
        append_strings(&mut out, job_lines_of_record(&records[i]));
        i = i + 1;
    }
    proof {
        assert(rv.take(i as int) == rv);
    }
    out
}

/// Appends the strings of `b` to `a`.
fn append_strings(a: &mut Vec<String>, b: Vec<String>)
    ensures
        strs_view(final(a)@) == strs_view(old(a)@) + strs_view(b@),
{
    let ghost start = strs_view(a@);
    let mut i: usize = 0;
    while i < b.len()
        invariant
            i <= b@.len(),
            strs_view(a@) == start + strs_view(b@).take(i as int),
        decreases b@.len() - i,
    {
        let ghost before = strs_view(a@);
        a.push(b[i].as_str().to_owned());
        proof {
            assert(strs_view(a@) =~= before.push(b@[i as int]@));
            assert(strs_view(b@).take(i + 1) =~= strs_view(b@).take(i as int).push(b@[i as int]@));
        }
        i = i + 1;
    }
    proof {
        assert(strs_view(b@).take(i as int) == strs_view(b@));
    }
}

/// The lines about the totals.
fn totals_lines_of(total: &Measurements, measured: usize) -> (r: Vec<String>)
    ensures
        forall|records: Seq<JobRecordV>| measured == measured_count(records) ==> strs_view(r@) == totals_lines(records,
            total@),
{
    let mut out: Vec<String> = Vec::new();
    if measured > 0 {
        let mut bold = "**".to_owned();
        crate::text::push_str(&mut bold, outcome_line(total).as_str());
        crate::text::push_str(&mut bold, "**");
        let mut sizes = "Local reads: ".to_owned();
        crate::text::push_str(&mut sizes, bytes(total.local_bytes_read).as_str());
        crate::text::push_str(&mut sizes, " · Downloaded: ");
        crate::text::push_str(&mut sizes, bytes(total.remote_bytes_read).as_str());
        crate::text::push_str(&mut sizes, " · Uploaded: ");
        crate::text::push_str(&mut sizes, bytes(total.remote_bytes_written).as_str());
        let ghost b = bold@;
        let ghost z = sizes@;
        out.push(bold);
        out.push(sizes);
        if total.hits == 0 && total.misses == 0 && total.bypasses == 0 && total.failures == 0 {
            out.push("No compiler-cache outcomes recorded. Cargo freshness can avoid compiler invocation entirely.".to_owned());
        }
        proof {
            assert(strs_view(out@) =~= seq![b, z] + if total.hits == 0 && total.misses == 0 && total.bypasses == 0
                && total.failures == 0 {
                seq!["No compiler-cache outcomes recorded. Cargo freshness can avoid compiler invocation entirely."@]
            } else {
                seq![]
            });
        }
    } else {
        out.push("No cache measurements available.".to_owned());
        proof {
            assert(strs_view(out@) =~= seq!["No cache measurements available."@]);
        }
    }
    out
}

/// A section of lines after an opening line and before an optional closing line, or nothing when
/// there are none.
fn titled(open: &str, body: Vec<String>, close: Option<&str>) -> (r: Vec<String>)
    ensures
        strs_view(r@) == (if body@.len() > 0 {
            seq![open@] + strs_view(body@) + match close {
                Some(c) => seq![c@],
                None => seq![],
            }
        } else {
            seq![]
        }),
{
    let mut out: Vec<String> = Vec::new();
    if body.len() > 0 {
        let ghost bv = strs_view(body@);
        out.push(open.to_owned());
        proof {
            assert(strs_view(out@) =~= seq![open@]);
        }
        append_strings(&mut out, body);
        let ghost mid = strs_view(out@);
        match close {
            Some(c) => {
                out.push(c.to_owned());
                proof {
                    assert(strs_view(out@) =~= mid.push(c@));
                }
            },
            None => {},
        }
        proof {
            assert(strs_view(out@) =~= seq![open@] + bv + match close {
                Some(c) => seq![c@],
                None => seq![],
            });
        }
    } else {
        proof {
            assert(strs_view(out@) =~= seq![]);
        }
    }
    out
}

/// The workflow cache summary: jobs measured, totals and sizes, missing jobs, gaps, problem and
/// bypass reasons, and the details of each job.
pub fn render(records: &Vec<JobRecord>, expected: &Vec<String>) -> (r: Result<String, ActionError>)
    ensures
        r is Ok <==> totals_of(records_view(records@)) is Some,
        r matches Ok(text) ==> spec_render(records_view(records@), strs_view(expected@)) == Some(text@),
        r matches Err(e) ==> e.kind == ErrorKind::Rejected,
{
    let (total, measured) = totals(records)?;
    let ghost rv = records_view(records@);
    let ghost t = total@;
    let missing = missing_list(records, expected);
    let mut counts = crate::text::usize_text(measured);
    crate::text::push_str(&mut counts, "/");
    crate::text::push_str(&mut counts, crate::text::usize_text(expected.len()).as_str());
    crate::text::push_str(&mut counts, " jobs measured");
    let ghost c = counts@;
    let mut lines: Vec<String> = vec!["## Cargo-Rail cache".to_owned(), "".to_owned(), counts, "".to_owned()];
    proof {
        assert(strs_view(lines@) =~= seq!["## Cargo-Rail cache"@, ""@, c, ""@]);
        assert(strs_view(expected@).len() == expected@.len());
    }
    append_strings(&mut lines, totals_lines_of(&total, measured));
    let mut missing_line: Vec<String> = Vec::new();
    if missing.len() > 0 {
        let mut line = "\n**Missing job reports:** ".to_owned();
        crate::text::push_str(&mut line, crate::plan_summary::join_strings(&missing, ", ").as_str());
        crate::text::push_str(&mut line, ". Totals are partial.");
        missing_line.push(line);
    }
    proof {
        assert(strs_view(missing_line@) =~= (if missing_jobs(rv, strs_view(expected@)).len() > 0 {
            seq!["\n**Missing job reports:** "@ + crate::plan_summary::join(missing_jobs(rv, strs_view(expected@)),
                ", "@) + ". Totals are partial."@]
        } else {
            seq![]
        }));
    }
    append_strings(&mut lines, missing_line);
    append_strings(&mut lines, gap_lines_of(records));
    append_strings(&mut lines, titled("\n**Cache problems**", reason_lines_of(&total.failure_reasons), None));
    append_strings(&mut lines, titled("\n<details><summary>Why compilation bypassed the cache</summary>\n",
        reason_lines_of(&total.bypass_reasons), Some("\n</details>")));
    let mut jobs: Vec<String> = Vec::new();
    if records.len() > 0 {
        jobs.push("\n<details><summary>Jobs, storage, and configuration</summary>\n".to_owned());
        proof {
            assert(strs_view(jobs@) =~= seq!["\n<details><summary>Jobs, storage, and configuration</summary>\n"@]);
        }
        let body = job_lines_of(records);
        let ghost bv = strs_view(body@);
        append_strings(&mut jobs, body);
        let ghost mid = strs_view(jobs@);
        jobs.push("\n</details>".to_owned());
        proof {
            assert(strs_view(jobs@) == mid.push("\n</details>"@));
        }
    } else {
        proof {
            assert(strs_view(jobs@) =~= seq![]);
        }
    }
    proof {
        assert(rv.len() == records@.len());
        assert(strs_view(jobs@) =~= (if rv.len() > 0 {
            seq!["\n<details><summary>Jobs, storage, and configuration</summary>\n"@] + job_lines(rv)
                + seq!["\n</details>"@]
        } else {
            seq![]
        }));
    }
    append_strings(&mut lines, jobs);
    let last: Vec<String> = vec!["\nCounts cover recorded wrapper outcomes between cache setup and collection. Storage is measured per job; shared storage is not added together.\n".to_owned()];
    proof {
        assert(strs_view(last@) =~= seq!["\nCounts cover recorded wrapper outcomes between cache setup and collection. Storage is measured per job; shared storage is not added together.\n"@]);
        assert(reason_lines(t.failure_reasons).len() == t.failure_reasons.len());
        assert(reason_lines(t.bypass_reasons).len() == t.bypass_reasons.len());
    }
    append_strings(&mut lines, last);
    proof {
        assert(strs_view(lines@) =~= render_lines(rv, strs_view(expected@), t));
    }
    Ok(crate::plan_summary::join_strings(&lines, "\n"))
}


proof fn lemma_insert_finds_record(records: Seq<JobRecordV>, r: JobRecordV)
    requires
        find_record(records, r.job) is None,
    ensures
        find_record(insert_record(records, r), r.job) == Some(r),
    decreases records.len(),
{
    if records.len() > 0 && !text_lt(r.job, records[0].job) {
        let rest = insert_record(records.drop_first(), r);
        lemma_insert_finds_record(records.drop_first(), r);
        assert((seq![records[0]] + rest).drop_first() =~= rest);
    }
}

/// Admitting an exact duplicate of an admitted record succeeds and changes nothing: a job's
/// record counts once however often it is admitted.
pub proof fn law_duplicate_record_counts_once(records: Seq<JobRecordV>, r: JobRecordV)
    requires
        find_record(records, r.job) matches Some(p) ==> p == r,
    ensures
        find_record(admitted(records, r), r.job) == Some(r),
        admitted(admitted(records, r), r) == admitted(records, r),
{
    if find_record(records, r.job) is None {
        lemma_insert_finds_record(records, r);
    }
}

/// Reasons held as a sorted map: their names strictly increasing.
pub open spec fn reasons_sorted(r: Seq<(Seq<char>, u64)>) -> bool {
    forall|i: int, j: int| 0 <= i < j < r.len() ==> text_lt(#[trigger] r[i].0, #[trigger] r[j].0)
}

/// Every reason has a positive count.
pub open spec fn counts_positive(r: Seq<(Seq<char>, u64)>) -> bool {
    forall|i: int| 0 <= i < r.len() ==> (#[trigger] r[i]).1 > 0
}

/// The total count the reasons record under a name (0 when it is absent).
pub open spec fn reason_count(r: Seq<(Seq<char>, u64)>, key: Seq<char>) -> nat
    decreases r.len(),
{
    if r.len() == 0 {
        0
    } else {
        (if r[0].0 == key {
            r[0].1 as nat
        } else {
            0
        }) + reason_count(r.drop_first(), key)
    }
}

/// Whether some reason has the name.
pub open spec fn has_reason(r: Seq<(Seq<char>, u64)>, key: Seq<char>) -> bool {
    exists|i: int| 0 <= i < r.len() && (#[trigger] r[i]).0 == key
}

proof fn lemma_text_lt_ne(a: Seq<char>, b: Seq<char>)
    requires
        text_lt(a, b),
    ensures
        a != b,
        !text_lt(b, a),
{
    crate::validation::lemma_text_lt_irreflexive(a);
    if text_lt(b, a) {
        crate::workflow_text::lemma_text_lt_trans(a, b, a);
    }
}

/// A name absent from the reasons counts nothing.
proof fn lemma_count_absent(r: Seq<(Seq<char>, u64)>, key: Seq<char>)
    requires
        !has_reason(r, key),
    ensures
        reason_count(r, key) == 0,
    decreases r.len(),
{
    if r.len() > 0 {
        assert(r[0].0 != key);
        assert(!has_reason(r.drop_first(), key)) by {
            if has_reason(r.drop_first(), key) {
                let i = choose|i: int| 0 <= i < r.drop_first().len() && (#[trigger] r.drop_first()[i]).0 == key;
                assert(r[i + 1].0 == key);
            }
        }
        lemma_count_absent(r.drop_first(), key);
    }
}

/// In sorted reasons, a name sorting before the first is absent, and the rest are sorted.
proof fn lemma_sorted_below(r: Seq<(Seq<char>, u64)>, key: Seq<char>)
    requires
        reasons_sorted(r),
        r.len() > 0,
        text_lt(key, r[0].0) || key == r[0].0,
    ensures
        !has_reason(r.drop_first(), key),
        reasons_sorted(r.drop_first()),
        text_lt(key, r[0].0) ==> !has_reason(r, key),
{
    assert forall|i: int| 0 <= i < r.drop_first().len() implies (#[trigger] r.drop_first()[i]).0 != key by {
        assert(text_lt(r[0].0, r[i + 1].0));
        if text_lt(key, r[0].0) {
            crate::workflow_text::lemma_text_lt_trans(key, r[0].0, r[i + 1].0);
        }
        lemma_text_lt_ne(key, r[i + 1].0);
    }
    assert forall|i: int, j: int| 0 <= i < j < r.drop_first().len() implies text_lt(
        #[trigger] r.drop_first()[i].0,
        #[trigger] r.drop_first()[j].0,
    ) by {
        assert(text_lt(r[i + 1].0, r[j + 1].0));
    }
    if text_lt(key, r[0].0) {
        lemma_text_lt_ne(key, r[0].0);
        assert forall|i: int| 0 <= i < r.len() implies (#[trigger] r[i]).0 != key by {
            if i > 0 {
                assert(r.drop_first()[i - 1] == r[i]);
            }
        }
    }
}

/// In sorted reasons, the count under a name is at most one entry's count.
proof fn lemma_count_bounded(r: Seq<(Seq<char>, u64)>, key: Seq<char>)
    requires
        reasons_sorted(r),
    ensures
        reason_count(r, key) <= u64::MAX,
    decreases r.len(),
{
    if r.len() > 0 {
        if r[0].0 == key {
            lemma_sorted_below(r, key);
            lemma_count_absent(r.drop_first(), key);
        } else {
            assert(reasons_sorted(r.drop_first())) by {
                assert forall|i: int, j: int| 0 <= i < j < r.drop_first().len() implies text_lt(
                    #[trigger] r.drop_first()[i].0,
                    #[trigger] r.drop_first()[j].0,
                ) by {
                    assert(text_lt(r[i + 1].0, r[j + 1].0));
                }
            }
            lemma_count_bounded(r.drop_first(), key);
        }
    }
}

/// Adding a positive count to sorted reasons keeps them sorted and positive, adds the count under
/// its name, and overflows exactly when that total does.
proof fn lemma_reason_add(r: Seq<(Seq<char>, u64)>, key: Seq<char>, count: u64)
    requires
        reasons_sorted(r),
        counts_positive(r),
        count > 0,
    ensures
        reason_add(r, key, count) is None <==> reason_count(r, key) + count > u64::MAX,
        reason_add(r, key, count) matches Some(s) ==> reasons_sorted(s) && counts_positive(s) && (forall|x: Seq<char>|
            #[trigger] reason_count(s, x) == reason_count(r, x) + (if x == key {
                count as nat
            } else {
                0
            })) && (forall|j: int| 0 <= j < s.len() ==> (#[trigger] s[j]).0 == key || has_reason(r, s[j].0)),
    decreases r.len(),
{
    if r.len() == 0 {
        let s = seq![(key, count)];
        assert(s.drop_first() =~= Seq::<(Seq<char>, u64)>::empty());
        assert forall|x: Seq<char>| #[trigger] reason_count(s, x) == reason_count(r, x) + (if x == key {
            count as nat
        } else {
            0
        }) by {
            assert(reason_count(s.drop_first(), x) == 0);
        }
    } else if r[0].0 == key {
        lemma_sorted_below(r, key);
        lemma_count_absent(r.drop_first(), key);
        if r[0].1 + count <= u64::MAX {
            let s = seq![(key, (r[0].1 + count) as u64)] + r.drop_first();
            assert(s.drop_first() =~= r.drop_first());
            assert forall|i: int, j: int| 0 <= i < j < s.len() implies text_lt(#[trigger] s[i].0, #[trigger] s[j].0) by {
                assert(s[j] == r[j]);
                if i > 0 {
                    assert(s[i] == r[i]);
                }
            }
            assert forall|i: int| 0 <= i < s.len() implies (#[trigger] s[i]).1 > 0 by {
                if i > 0 {
                    assert(s[i] == r[i]);
                }
            }
            assert forall|j: int| 0 <= j < s.len() implies (#[trigger] s[j]).0 == key || has_reason(r, s[j].0) by {
                if j > 0 {
                    assert(s[j] == r[j]);
                }
            }
        }
    } else if text_lt(key, r[0].0) {
        lemma_sorted_below(r, key);
        lemma_count_absent(r, key);
        let s = seq![(key, count)] + r;
        assert(s.drop_first() =~= r);
        assert forall|i: int, j: int| 0 <= i < j < s.len() implies text_lt(#[trigger] s[i].0, #[trigger] s[j].0) by {
            assert(s[j] == r[j - 1]);
            if i > 0 {
                assert(s[i] == r[i - 1]);
            } else if j > 1 {
                assert(text_lt(r[0].0, r[j - 1].0));
                crate::workflow_text::lemma_text_lt_trans(key, r[0].0, r[j - 1].0);
            }
        }
        assert forall|i: int| 0 <= i < s.len() implies (#[trigger] s[i]).1 > 0 by {
            if i > 0 {
                assert(s[i] == r[i - 1]);
            }
        }
        assert forall|j: int| 0 <= j < s.len() implies (#[trigger] s[j]).0 == key || has_reason(r, s[j].0) by {
            if j > 0 {
                assert(s[j] == r[j - 1]);
            }
        }
    } else {
        crate::validation::lemma_text_lt_total(key, r[0].0);
        let rest = r.drop_first();
        assert(reasons_sorted(rest)) by {
            assert forall|i: int, j: int| 0 <= i < j < rest.len() implies text_lt(#[trigger] rest[i].0, #[trigger] rest[j].0) by {
                assert(text_lt(r[i + 1].0, r[j + 1].0));
            }
        }
        assert(counts_positive(rest)) by {
            assert forall|i: int| 0 <= i < rest.len() implies (#[trigger] rest[i]).1 > 0 by {
                assert(rest[i] == r[i + 1]);
            }
        }
        lemma_reason_add(rest, key, count);
        match reason_add(rest, key, count) {
            Some(t) => {
                let s = seq![r[0]] + t;
                assert(s.drop_first() =~= t);
                assert forall|j: int| 0 <= j < t.len() implies text_lt(r[0].0, #[trigger] t[j].0) by {
                    if t[j].0 != key {
                        let i = choose|i: int| 0 <= i < rest.len() && (#[trigger] rest[i]).0 == t[j].0;
                        assert(text_lt(r[0].0, r[i + 1].0));
                    }
                }
                assert forall|i: int, j: int| 0 <= i < j < s.len() implies text_lt(#[trigger] s[i].0, #[trigger] s[j].0) by {
                    assert(s[j] == t[j - 1]);
                    if i > 0 {
                        assert(s[i] == t[i - 1]);
                    }
                }
                assert forall|i: int| 0 <= i < s.len() implies (#[trigger] s[i]).1 > 0 by {
                    if i > 0 {
                        assert(s[i] == t[i - 1]);
                    }
                }
                assert forall|j: int| 0 <= j < s.len() implies (#[trigger] s[j]).0 == key || has_reason(r, s[j].0) by {
                    if j > 0 {
                        assert(s[j] == t[j - 1]);
                        if t[j - 1].0 != key {
                            let i = choose|i: int| 0 <= i < rest.len() && (#[trigger] rest[i]).0 == t[j - 1].0;
                            assert(r[i + 1] == rest[i]);
                        }
                    } else {
                        assert(r[0].0 == s[0].0);
                    }
                }
                assert forall|x: Seq<char>| #[trigger] reason_count(s, x) == reason_count(r, x) + (if x == key {
                    count as nat
                } else {
                    0
                }) by {
                    assert(reason_count(t, x) == reason_count(rest, x) + (if x == key {
                        count as nat
                    } else {
                        0
                    }));
                }
            },
            None => {},
        }
    }
}

/// The count of the reasons without their last is the count less that last entry's.
proof fn lemma_count_last(r: Seq<(Seq<char>, u64)>, key: Seq<char>)
    requires
        r.len() > 0,
    ensures
        reason_count(r, key) == reason_count(r.drop_last(), key) + (if r.last().0 == key {
            r.last().1 as nat
        } else {
            0
        }),
    decreases r.len(),
{
    if r.len() == 1 {
        assert(r.drop_last() =~= Seq::<(Seq<char>, u64)>::empty());
        assert(r.drop_first() =~= Seq::<(Seq<char>, u64)>::empty());
    } else {
        lemma_count_last(r.drop_first(), key);
        assert(r.drop_first().drop_last() =~= r.drop_last().drop_first());
        assert(r.drop_last()[0] == r[0]);
        assert(r.drop_first().last() == r.last());
    }
}

/// Merging positive reasons into sorted positive reasons sums every count, keeps them sorted and
/// positive, and overflows exactly when some total does.
proof fn lemma_merge_reasons(a: Seq<(Seq<char>, u64)>, b: Seq<(Seq<char>, u64)>)
    requires
        reasons_sorted(a),
        counts_positive(a),
        counts_positive(b),
    ensures
        merge_reasons(a, b) is None <==> exists|x: Seq<char>| #[trigger] reason_count(a, x) + reason_count(b, x)
            > u64::MAX,
        merge_reasons(a, b) matches Some(s) ==> reasons_sorted(s) && counts_positive(s) && forall|x: Seq<char>|
            #[trigger] reason_count(s, x) == reason_count(a, x) + reason_count(b, x),
    decreases b.len(),
{
    if b.len() == 0 {
        assert forall|x: Seq<char>| #[trigger] reason_count(a, x) + reason_count(b, x) <= u64::MAX by {
            lemma_count_bounded(a, x);
        }
    } else {
        let b0 = b.drop_last();
        assert(counts_positive(b0)) by {
            assert forall|i: int| 0 <= i < b0.len() implies (#[trigger] b0[i]).1 > 0 by {
                assert(b0[i] == b[i]);
            }
        }
        lemma_merge_reasons(a, b0);
        assert(b.last() == b[b.len() - 1]);
        assert forall|x: Seq<char>| #[trigger] reason_count(b, x) == reason_count(b0, x) + (if b.last().0 == x {
            b.last().1 as nat
        } else {
            0
        }) by {
            lemma_count_last(b, x);
        }
        match merge_reasons(a, b0) {
            None => {
                let x = choose|x: Seq<char>| #[trigger] reason_count(a, x) + reason_count(b0, x) > u64::MAX;
                assert(reason_count(a, x) + reason_count(b, x) > u64::MAX);
            },
            Some(acc) => {
                lemma_reason_add(acc, b.last().0, b.last().1);
                match reason_add(acc, b.last().0, b.last().1) {
                    None => {
                        let x = b.last().0;
                        assert(reason_count(a, x) + reason_count(b, x) > u64::MAX);
                    },
                    Some(s) => {
                        assert forall|x: Seq<char>| #[trigger] reason_count(s, x) == reason_count(a, x) + reason_count(
                            b,
                            x,
                        ) by {}
                        assert forall|x: Seq<char>| #[trigger] reason_count(a, x) + reason_count(b, x) <= u64::MAX by {
                            lemma_count_bounded(s, x);
                        }
                    },
                }
            },
        }
    }
}

/// Sorted positive reasons are fixed by their counts.
proof fn lemma_reasons_unique(r: Seq<(Seq<char>, u64)>, s: Seq<(Seq<char>, u64)>)
    requires
        reasons_sorted(r),
        reasons_sorted(s),
        counts_positive(r),
        counts_positive(s),
        forall|x: Seq<char>| #[trigger] reason_count(r, x) == reason_count(s, x),
    ensures
        r == s,
    decreases r.len() + s.len(),
{
    if r.len() == 0 && s.len() == 0 {
        assert(r =~= s);
    } else if r.len() == 0 {
        assert(reason_count(s, s[0].0) >= s[0].1);
        assert(reason_count(r, s[0].0) == 0);
    } else if s.len() == 0 {
        assert(reason_count(r, r[0].0) >= r[0].1);
        assert(reason_count(s, r[0].0) == 0);
    } else {
        if r[0].0 != s[0].0 {
            crate::validation::lemma_text_lt_total(r[0].0, s[0].0);
            if text_lt(r[0].0, s[0].0) {
                lemma_sorted_below(s, r[0].0);
                lemma_count_absent(s, r[0].0);
                assert(reason_count(r, r[0].0) >= r[0].1);
            } else {
                lemma_sorted_below(r, s[0].0);
                lemma_count_absent(r, s[0].0);
                assert(reason_count(s, s[0].0) >= s[0].1);
            }
        }
        let k = r[0].0;
        lemma_sorted_below(r, k);
        lemma_sorted_below(s, k);
        lemma_count_absent(r.drop_first(), k);
        lemma_count_absent(s.drop_first(), k);
        assert(reason_count(r, k) == r[0].1);
        assert(reason_count(s, k) == s[0].1);
        assert(r[0] == s[0]);
        let rr = r.drop_first();
        let ss = s.drop_first();
        assert(counts_positive(rr)) by {
            assert forall|i: int| 0 <= i < rr.len() implies (#[trigger] rr[i]).1 > 0 by {
                assert(rr[i] == r[i + 1]);
            }
        }
        assert(counts_positive(ss)) by {
            assert forall|i: int| 0 <= i < ss.len() implies (#[trigger] ss[i]).1 > 0 by {
                assert(ss[i] == s[i + 1]);
            }
        }
        assert forall|x: Seq<char>| #[trigger] reason_count(rr, x) == reason_count(ss, x) by {
            assert(reason_count(r, x) == reason_count(s, x));
        }
        lemma_reasons_unique(rr, ss);
        assert(r =~= seq![r[0]] + rr);
        assert(s =~= seq![s[0]] + ss);
    }
}

/// Law: merging two sorted maps of positive reason counts gives the same result in either order.
pub proof fn law_merge_reasons_commute(a: Seq<(Seq<char>, u64)>, b: Seq<(Seq<char>, u64)>)
    requires
        reasons_sorted(a),
        reasons_sorted(b),
        counts_positive(a),
        counts_positive(b),
    ensures
        merge_reasons(a, b) == merge_reasons(b, a),
{
    lemma_merge_reasons(a, b);
    lemma_merge_reasons(b, a);
    if merge_reasons(a, b) is None {
        let x = choose|x: Seq<char>| #[trigger] reason_count(a, x) + reason_count(b, x) > u64::MAX;
        assert(reason_count(b, x) + reason_count(a, x) > u64::MAX);
    } else if merge_reasons(b, a) is None {
        let x = choose|x: Seq<char>| #[trigger] reason_count(b, x) + reason_count(a, x) > u64::MAX;
        assert(reason_count(a, x) + reason_count(b, x) > u64::MAX);
    } else {
        let s = merge_reasons(a, b)->0;
        let t = merge_reasons(b, a)->0;
        assert forall|x: Seq<char>| #[trigger] reason_count(s, x) == reason_count(t, x) by {
            assert(reason_count(s, x) == reason_count(a, x) + reason_count(b, x));
            assert(reason_count(t, x) == reason_count(b, x) + reason_count(a, x));
        }
        lemma_reasons_unique(s, t);
    }
}

/// Law: merging the measurements of two valid jobs sums every counter and every reason count
/// (an absent reason counting 0) and joins incompleteness; it overflows exactly when some sum does;
/// and it gives the same result in either order.
pub proof fn law_merge_commutes(a: MeasurementsV, b: MeasurementsV)
    requires
        spec_valid_measurements(a),
        spec_valid_measurements(b),
    ensures
        merge_spec(a, b) == merge_spec(b, a),
        merge_spec(a, b) matches Some(m) ==> {
            &&& m.hits == a.hits + b.hits && m.misses == a.misses + b.misses && m.bypasses == a.bypasses + b.bypasses
            &&& m.failures == a.failures + b.failures && m.local_bytes_read == a.local_bytes_read + b.local_bytes_read
            &&& m.remote_bytes_read == a.remote_bytes_read + b.remote_bytes_read
            &&& m.remote_bytes_written == a.remote_bytes_written + b.remote_bytes_written
            &&& m.incomplete == (a.incomplete || b.incomplete)
            &&& forall|x: Seq<char>| #[trigger] reason_count(m.bypass_reasons, x) == reason_count(a.bypass_reasons, x)
                + reason_count(b.bypass_reasons, x)
            &&& forall|x: Seq<char>| #[trigger] reason_count(m.failure_reasons, x) == reason_count(a.failure_reasons, x)
                + reason_count(b.failure_reasons, x)
        },
        (exists|x: Seq<char>| #[trigger] reason_count(a.bypass_reasons, x) + reason_count(b.bypass_reasons, x) > u64::MAX)
            ==> merge_spec(a, b) is None,
        (exists|x: Seq<char>| #[trigger] reason_count(a.failure_reasons, x) + reason_count(b.failure_reasons, x)
            > u64::MAX) ==> merge_spec(a, b) is None,
{
    assert(counts_positive(a.bypass_reasons));
    assert(counts_positive(a.failure_reasons));
    assert(counts_positive(b.bypass_reasons));
    assert(counts_positive(b.failure_reasons));
    law_merge_reasons_commute(a.bypass_reasons, b.bypass_reasons);
    law_merge_reasons_commute(a.failure_reasons, b.failure_reasons);
    lemma_merge_reasons(a.bypass_reasons, b.bypass_reasons);
    lemma_merge_reasons(a.failure_reasons, b.failure_reasons);
}


/// The bytes read from local storage, summed over the records with measurements.
pub open spec fn local_read_total(records: Seq<JobRecordV>) -> int
    decreases records.len(),
{
    if records.len() == 0 {
        0
    } else {
        local_read_total(records.drop_last()) + match records.last().measurements {
            Some(m) => m.local_bytes_read as int,
            None => 0,
        }
    }
}

/// The bytes downloaded from the remote, summed over the records with measurements.
pub open spec fn remote_read_total(records: Seq<JobRecordV>) -> int
    decreases records.len(),
{
    if records.len() == 0 {
        0
    } else {
        remote_read_total(records.drop_last()) + match records.last().measurements {
            Some(m) => m.remote_bytes_read as int,
            None => 0,
        }
    }
}

/// The bytes uploaded to the remote, summed over the records with measurements.
pub open spec fn remote_written_total(records: Seq<JobRecordV>) -> int
    decreases records.len(),
{
    if records.len() == 0 {
        0
    } else {
        remote_written_total(records.drop_last()) + match records.last().measurements {
            Some(m) => m.remote_bytes_written as int,
            None => 0,
        }
    }
}

proof fn lemma_totals_sum(records: Seq<JobRecordV>)
    requires
        totals_of(records) is Some,
    ensures
        totals_of(records)->0.local_bytes_read == local_read_total(records),
        totals_of(records)->0.remote_bytes_read == remote_read_total(records),
        totals_of(records)->0.remote_bytes_written == remote_written_total(records),
    decreases records.len(),
{
    if records.len() > 0 {
        lemma_totals_sum(records.drop_last());
    }
}

/// When some record has measurements, the sizes line of the report gives the bytes read
/// locally, then as `Downloaded` the bytes read from the remote and as `Uploaded` the bytes
/// written to it, each summed over the records.
pub proof fn law_report_sizes_line(records: Seq<JobRecordV>, expected: Seq<Seq<char>>)
    requires
        totals_of(records) is Some,
        measured_count(records) > 0,
    ensures
        render_lines(records, expected, totals_of(records)->0)[5] == "Local reads: "@ + spec_bytes(
            local_read_total(records) as u64) + " · Downloaded: "@ + spec_bytes(remote_read_total(records) as u64)
            + " · Uploaded: "@ + spec_bytes(remote_written_total(records) as u64),
{
    let t = totals_of(records)->0;
    lemma_totals_sum(records);
    let head = seq!["## Cargo-Rail cache"@, ""@, decimal(measured_count(records)) + "/"@ + decimal(expected.len())
        + " jobs measured"@, ""@];
    let tl = totals_lines(records, t);
    assert(tl[1] == "Local reads: "@ + spec_bytes(t.local_bytes_read) + " · Downloaded: "@ + spec_bytes(
        t.remote_bytes_read) + " · Uploaded: "@ + spec_bytes(t.remote_bytes_written));
    let lines = render_lines(records, expected, t);
    assert(tl.len() >= 2);
    assert((head + tl)[5] == tl[1]);
    assert(lines[5] == tl[1]);
}

} // verus!
