//! Collecting one job's cache record and gathering the records of a workflow: which labels and
//! record files are admissible, what a job's record says when a measurement could not be taken,
//! and what the storage status of a job is.

use vstd::prelude::*;

use crate::error::{rejection, ActionError, ErrorKind};
use crate::json::{at, get, Json, JsonV};
use crate::report::{
    spec_valid_job, valid_job, Configuration, JobRecord, JobRecordV, Measurements, RunBinding, Storage, MAX_JOBS,
};
use crate::text::{chars_of, str_eq};
use crate::validation::strs_view;

verus! {

/// Refuses a job label that is not 1 to 128 letters, digits, dots, hyphens or underscores.
pub fn check_job_label(job: &str) -> (r: Result<(), ActionError>)
    ensures
        r is Ok <==> spec_valid_job(job@),
        r matches Err(e) ==> e.kind == ErrorKind::Rejected && e.message@
            == "cache report job must be a short unique label using letters, digits, dots, hyphens, or underscores"@,
{
    if !valid_job(job) {
        return Err(rejection(
            "cache report job must be a short unique label using letters, digits, dots, hyphens, or underscores",
        ));
    }
    Ok(())
}

/// Refuses a recording context that is not of this run: another schema, another run binding,
/// relative paths, or a recording outside the context's directory.
pub fn check_context(
    schema_version: u32,
    context_run: &RunBinding,
    run: &RunBinding,
    paths_absolute: bool,
    recording_beside_context: bool,
) -> (r: Result<(), ActionError>)
    ensures
        r is Ok <==> schema_version == 1 && context_run@ == run@ && paths_absolute && recording_beside_context,
        r matches Err(e) ==> e.kind == ErrorKind::Rejected && e.message@
            == "cache recording context does not belong to this run"@,
{
    if schema_version != 1 || !context_run.same(run) || !paths_absolute || !recording_beside_context {
        return Err(rejection("cache recording context does not belong to this run"));
    }
    Ok(())
}

/// The gaps of a job record, in order: measurements that could not be collected, a recording
/// that did not complete, storage that could not be read.
pub open spec fn record_gaps(measurements: Option<bool>, storage_known: bool) -> Seq<Seq<char>> {
    (if measurements is None {
        seq!["measurements_unavailable"@]
    } else {
        Seq::empty()
    }) + (if measurements == Some(true) {
        seq!["recording_incomplete"@]
    } else {
        Seq::empty()
    }) + (if !storage_known {
        seq!["storage_unavailable"@]
    } else {
        Seq::empty()
    })
}

/// The record of a job from what could be collected: nothing for measurements or storage that
/// could not be collected, each absence noted among the gaps.
pub fn job_record(
    run: RunBinding,
    job: String,
    configuration: Configuration,
    measurements: Option<Measurements>,
    storage: Option<Storage>,
) -> (r: JobRecord)
    ensures
        r@ == (JobRecordV {
            schema_version: 1,
            run: run@,
            job: job@,
            configuration: configuration@,
            measurements: match measurements {
                Some(m) => Some(m@),
                None => None,
            },
            storage: storage,
            gaps: record_gaps(
                match measurements {
                    Some(m) => Some(m.incomplete),
                    None => None,
                },
                storage is Some,
            ),
        }),
{
    let mut gaps: Vec<String> = Vec::new();
    let incomplete = match &measurements {
        Some(m) => m.incomplete,
        None => false,
    };
    if measurements.is_none() {
        gaps.push(crate::text::owned("measurements_unavailable"));
    }
    if incomplete {
        gaps.push(crate::text::owned("recording_incomplete"));
    }
    if storage.is_none() {
        gaps.push(crate::text::owned("storage_unavailable"));
    }
    proof {
        assert(strs_view(gaps@) =~= record_gaps(
            match measurements {
                Some(m) => Some(m.incomplete),
                None => None,
            },
            storage is Some,
        ));
    }
    JobRecord { schema_version: 1, run, job, configuration, measurements, storage, gaps }
}

/// Refuses a new record for a job whose existing record differs.
pub fn check_existing(previous: &JobRecord, record: &JobRecord) -> (r: Result<(), ActionError>)
    ensures
        r is Ok <==> previous@ == record@,
        r matches Err(e) ==> e.kind == ErrorKind::Rejected && e.message@
            == "conflicting cache record already exists for this job"@,
{
    if !previous.same(record) {
        return Err(rejection("conflicting cache record already exists for this job"));
    }
    Ok(())
}

/// Refuses a finished recording's report whose operation is not `finish`.
pub fn check_finished_recording(value: &Json) -> (r: Result<(), ActionError>)
    ensures
        r is Ok <==> at(value@, "operation"@) == JsonV::Str("finish"@),
        r matches Err(e) ==> e.kind == ErrorKind::Rejected && e.message@ == "cache recording did not finish"@,
{
    if !crate::json_nav::is_text(value.get("operation"), "finish") {
        return Err(rejection("cache recording did not finish"));
    }
    Ok(())
}

/// The local cache of a validated status document.
pub open spec fn local_cache(value: JsonV) -> JsonV {
    at(at(at(value, "status"@), "local"@), "cache"@)
}

/// The storage of a job from its validated status: the local cache's bytes, and its bound, which
/// must still be the configured one.
pub open spec fn storage_outcome(value: JsonV, max_bytes: u64) -> Result<Storage, Seq<char>> {
    match at(local_cache(value), "bytes"@) {
        JsonV::UInt(bytes) => match at(local_cache(value), "max_bytes"@) {
            JsonV::UInt(m) => if m == max_bytes {
                Ok(Storage { bytes, max_bytes: m })
            } else {
                Err("cache storage authority changed during the job"@)
            },
            _ => Err("cache storage authority changed during the job"@),
        },
        _ => Err("cache storage bytes are unavailable"@),
    }
}

/// The storage of a job from its validated status.
pub fn storage_of(value: &Json, max_bytes: u64) -> (r: Result<Storage, ActionError>)
    ensures
        match storage_outcome(value@, max_bytes) {
            Ok(s) => r == Ok::<Storage, ActionError>(s),
            Err(m) => r matches Err(e) && e.kind == ErrorKind::Rejected && e.message@ == m,
        },
{
    let cache = crate::json_nav::field(crate::json_nav::field(value.get("status"), "local"), "cache");
    let bytes = match crate::json_nav::uint(crate::json_nav::field(cache, "bytes")) {
        Some(b) => b,
        None => {
            return Err(rejection("cache storage bytes are unavailable"));
        },
    };
    match crate::json_nav::uint(crate::json_nav::field(cache, "max_bytes")) {
        Some(m) => {
            if m != max_bytes {
                return Err(rejection("cache storage authority changed during the job"));
            }
            Ok(Storage { bytes, max_bytes: m })
        },
        None => Err(rejection("cache storage authority changed during the job")),
    }
}

/// No two labels are the same.
pub open spec fn labels_unique(v: Seq<Seq<char>>) -> bool {
    forall|i: int, j: int| 0 <= i < j < v.len() ==> v[i] != v[j]
}

/// Whether the expected jobs of a report are between 1 and 512 unique valid labels.
pub open spec fn expected_jobs_ok(v: Seq<Seq<char>>) -> bool {
    &&& 0 < v.len() <= MAX_JOBS
    &&& labels_unique(v)
    &&& forall|i: int| 0 <= i < v.len() ==> spec_valid_job(#[trigger] v[i])
}

/// The jobs of the `expected-jobs` input, given its parsed JSON (nothing when it is not JSON): it
/// must be an array of between 1 and 512 unique valid job labels.
pub fn parse_expected_jobs(value: Option<&Json>) -> (r: Result<Vec<String>, ActionError>)
    ensures
        r matches Err(e) ==> e.kind == ErrorKind::Rejected,
        match value {
            Some(v) => match crate::validation::strings_of(v@) {
                Some(s) => (r is Ok <==> expected_jobs_ok(s)) && (r matches Ok(jobs) ==> strs_view(jobs@) == s) && (
                r matches Err(e) ==> e.message@ == "expected-jobs must contain unique valid job labels"@),
                None => r matches Err(e) && e.message@ == "expected-jobs must be a JSON array"@,
            },
            None => r matches Err(e) && e.message@ == "expected-jobs must be a JSON array"@,
        },
{
    let jobs = match value {
        Some(v) => match crate::validation::string_list(v, "expected-jobs", false, false) {
            Ok(j) => j,
            Err(_) => {
                return Err(rejection("expected-jobs must be a JSON array"));
            },
        },
        None => {
            return Err(rejection("expected-jobs must be a JSON array"));
        },
    };
    validate_expected_jobs(&jobs)?;
    Ok(jobs)
}

/// Refuses expected jobs that are not between 1 and 512 unique valid labels.
pub fn validate_expected_jobs(expected: &Vec<String>) -> (r: Result<(), ActionError>)
    ensures
        r is Ok <==> expected_jobs_ok(strs_view(expected@)),
        r matches Err(e) ==> e.kind == ErrorKind::Rejected && e.message@
            == "expected-jobs must contain unique valid job labels"@,
{
    let ghost v = strs_view(expected@);
    if expected.len() == 0 || expected.len() > MAX_JOBS {
        return Err(rejection("expected-jobs must contain unique valid job labels"));
    }
    let mut i: usize = 0;
    while i < expected.len()
        invariant
            i <= expected@.len(),
            v == strs_view(expected@),
            forall|a: int, b: int| 0 <= a < b < i ==> v[a] != v[b],
            forall|a: int| 0 <= a < i ==> spec_valid_job(#[trigger] v[a]),
        decreases expected@.len() - i,
    {
        proof {
            assert(v[i as int] == expected@[i as int]@);
        }
        if !valid_job(expected[i].as_str()) {
            return Err(rejection("expected-jobs must contain unique valid job labels"));
        }
        let mut j: usize = 0;
        while j < i
            invariant
                j <= i < expected@.len(),
                v == strs_view(expected@),
                forall|b: int| 0 <= b < j ==> v[b] != v[i as int],
            decreases i - j,
        {
            proof {
                assert(v[j as int] == expected@[j as int]@);
            }
            if str_eq(expected[j].as_str(), expected[i].as_str()) {
                proof {
                    assert(v[j as int] == v[i as int]);
                    assert(!labels_unique(v));
                }
                return Err(rejection("expected-jobs must contain unique valid job labels"));
            }
            j = j + 1;
        }
        i = i + 1;
    }
    Ok(())
}

/// The position of the last `.` of a name, or -1.
pub open spec fn last_dot(name: Seq<char>) -> int
    decreases name.len(),
{
    if name.len() == 0 {
        -1
    } else if name.last() == '.' {
        name.len() - 1
    } else {
        last_dot(name.drop_last())
    }
}

/// Whether a file name has the extension `json`: the text after its last `.`, where that `.` does
/// not begin the name.
pub open spec fn json_file_name(name: Seq<char>) -> bool {
    name != ".."@ && last_dot(name) > 0 && name.skip(last_dot(name) + 1) == "json"@
}

/// Refuses the `index`th entry of a record directory beyond the job bound, or one that is not a
/// JSON file.
pub fn check_record_entry(index: usize, name: &str) -> (r: Result<(), ActionError>)
    ensures
        r is Ok <==> index < MAX_JOBS && json_file_name(name@),
        r matches Err(e) ==> e.kind == ErrorKind::Rejected && e.message@ == if index >= MAX_JOBS {
            "cache record directory exceeds the job bound"@
        } else {
            "cache record directory must contain only job JSON records"@
        },
{
    if index >= MAX_JOBS {
        return Err(rejection("cache record directory exceeds the job bound"));
    }
    let chars = chars_of(name);
    let mut k: usize = chars.len();
    proof {
        assert(chars@.take(k as int) =~= chars@);
    }
    while k > 0 && chars[k - 1] != '.'
        invariant
            k <= chars@.len(),
            chars@ == name@,
            last_dot(name@) == last_dot(chars@.take(k as int)),
        decreases k,
    {
        proof {
            assert(chars@.take(k as int).drop_last() =~= chars@.take(k - 1));
        }
        k = k - 1;
    }
    proof {
        if k > 0 {
            assert(chars@.take(k as int).last() == '.');
        } else {
            assert(chars@.take(0) =~= Seq::<char>::empty());
        }
    }
    let n = chars.len();
    let ok = !crate::text::chars_are(&chars, "..") && k > 1 && {
        let ext = crate::text::sub_chars(&chars, k, n);
        proof {
            assert(chars@.subrange(k as int, n as int) =~= name@.skip(k as int));
        }
        crate::text::chars_are(&ext, "json")
    };
    if !ok {
        return Err(rejection("cache record directory must contain only job JSON records"));
    }
    Ok(())
}


/// The JSON value of a run binding.
pub open spec fn run_value(r: crate::report::RunV) -> JsonV {
    JsonV::Object(
        seq![
            ("repository"@, JsonV::Str(r.repository)),
            ("run_id"@, JsonV::Str(r.run_id)),
            ("attempt"@, JsonV::Str(r.attempt)),
        ],
    )
}

/// The JSON value of a configuration.
pub open spec fn configuration_value(c: crate::report::ConfigurationV) -> JsonV {
    JsonV::Object(
        seq![
            ("schema_version"@, JsonV::UInt(c.schema_version as u64)),
            ("cargo_rail"@, JsonV::Str(c.cargo_rail)),
            ("provider"@, JsonV::Str(c.provider)),
            ("mode"@, JsonV::Str(c.mode)),
            ("max_bytes"@, JsonV::UInt(c.max_bytes)),
            ("root_portability"@, JsonV::Str(c.root_portability)),
            ("remote_verification"@, JsonV::Str(c.remote_verification)),
        ],
    )
}

/// The JSON value of reason counts: an object from reason to count, in stored order.
pub open spec fn reasons_value(v: Seq<(Seq<char>, u64)>) -> JsonV {
    JsonV::Object(v.map_values(|e: (Seq<char>, u64)| (e.0, JsonV::UInt(e.1))))
}

/// The JSON value of measurements.
pub open spec fn measurements_value(m: crate::report::MeasurementsV) -> JsonV {
    JsonV::Object(
        seq![
            ("hits"@, JsonV::UInt(m.hits)),
            ("misses"@, JsonV::UInt(m.misses)),
            ("bypasses"@, JsonV::UInt(m.bypasses)),
            ("failures"@, JsonV::UInt(m.failures)),
            ("local_bytes_read"@, JsonV::UInt(m.local_bytes_read)),
            ("remote_bytes_read"@, JsonV::UInt(m.remote_bytes_read)),
            ("remote_bytes_written"@, JsonV::UInt(m.remote_bytes_written)),
            ("bypass_reasons"@, reasons_value(m.bypass_reasons)),
            ("failure_reasons"@, reasons_value(m.failure_reasons)),
            ("incomplete"@, JsonV::Bool(m.incomplete)),
        ],
    )
}

/// The JSON value of a job record, its fields in declaration order; what is missing is null.
pub open spec fn record_value(r: JobRecordV) -> JsonV {
    JsonV::Object(
        seq![
            ("schema_version"@, JsonV::UInt(r.schema_version as u64)),
            ("run"@, run_value(r.run)),
            ("job"@, JsonV::Str(r.job)),
            ("configuration"@, configuration_value(r.configuration)),
            ("measurements"@, match r.measurements {
                Some(m) => measurements_value(m),
                None => JsonV::Null,
            }),
            ("storage"@, match r.storage {
                Some(s) => JsonV::Object(
                    seq![("bytes"@, JsonV::UInt(s.bytes)), ("max_bytes"@, JsonV::UInt(s.max_bytes))],
                ),
                None => JsonV::Null,
            }),
            ("gaps"@, JsonV::Array(r.gaps.map_values(|g: Seq<char>| JsonV::Str(g)))),
        ],
    )
}

fn text_json(s: &String) -> (r: Json)
    ensures
        r@ == JsonV::Str(s@),
{
    Json::Str(crate::text::owned(s.as_str()))
}

fn object_of(entries: Vec<(String, Json)>) -> (r: Json)
    ensures
        r@ == JsonV::Object(crate::json::entries_view(entries@)),
{
    proof {
        crate::json::lemma_entries(entries@, entries@.len());
    }
    Json::Object(entries)
}

fn reasons_json(v: &Vec<(String, u64)>) -> (r: Json)
    ensures
        r@ == reasons_value(crate::report::reasons_view(v@)),
{
    let mut entries: Vec<(String, Json)> = Vec::new();
    let mut i: usize = 0;
    while i < v.len()
        invariant
            i <= v@.len(),
            crate::json::entries_view(entries@) == crate::report::reasons_view(v@).take(i as int).map_values(
                |e: (Seq<char>, u64)| (e.0, JsonV::UInt(e.1)),
            ),
        decreases v@.len() - i,
    {
        let ghost before = entries@;
        entries.push((crate::text::owned(v[i].0.as_str()), Json::UInt(v[i].1)));
        proof {
            crate::json::lemma_entries(entries@, entries@.len());
            crate::json::lemma_entries(before, before.len());
            assert(entries@.drop_last() =~= before);
            assert(crate::json::entries_view(entries@) =~= crate::json::entries_view(before).push(
                (v@[i as int].0@, JsonV::UInt(v@[i as int].1)),
            ));
            assert(crate::report::reasons_view(v@).take(i + 1) =~= crate::report::reasons_view(v@).take(
                i as int,
            ).push(crate::report::reasons_view(v@)[i as int]));
            assert(crate::json::entries_view(entries@) =~= crate::report::reasons_view(v@).take(i + 1).map_values(
                |e: (Seq<char>, u64)| (e.0, JsonV::UInt(e.1)),
            ));
        }
        i = i + 1;
    }
    proof {
        assert(crate::report::reasons_view(v@).take(i as int) =~= crate::report::reasons_view(v@));
    }
    object_of(entries)
}

fn run_json(r: &RunBinding) -> (j: Json)
    ensures
        j@ == run_value(r@),
{
    let entries: Vec<(String, Json)> = vec![
        (crate::text::owned("repository"), text_json(&r.repository)),
        (crate::text::owned("run_id"), text_json(&r.run_id)),
        (crate::text::owned("attempt"), text_json(&r.attempt)),
    ];
    proof {
        crate::json::lemma_entries(entries@, 3);
        assert(crate::json::entries_view(entries@) =~= run_value(r@)->Object_0);
    }
    object_of(entries)
}

fn configuration_json(c: &Configuration) -> (j: Json)
    ensures
        j@ == configuration_value(c@),
{
    let entries: Vec<(String, Json)> = vec![
        (crate::text::owned("schema_version"), Json::UInt(c.schema_version as u64)),
        (crate::text::owned("cargo_rail"), text_json(&c.cargo_rail)),
        (crate::text::owned("provider"), text_json(&c.provider)),
        (crate::text::owned("mode"), text_json(&c.mode)),
        (crate::text::owned("max_bytes"), Json::UInt(c.max_bytes)),
        (crate::text::owned("root_portability"), text_json(&c.root_portability)),
        (crate::text::owned("remote_verification"), text_json(&c.remote_verification)),
    ];
    proof {
        crate::json::lemma_entries(entries@, 7);
        assert(crate::json::entries_view(entries@) =~= configuration_value(c@)->Object_0);
    }
    object_of(entries)
}

fn measurements_json(m: &Measurements) -> (j: Json)
    ensures
        j@ == measurements_value(m@),
{
    let entries: Vec<(String, Json)> = vec![
        (crate::text::owned("hits"), Json::UInt(m.hits)),
        (crate::text::owned("misses"), Json::UInt(m.misses)),
        (crate::text::owned("bypasses"), Json::UInt(m.bypasses)),
        (crate::text::owned("failures"), Json::UInt(m.failures)),
        (crate::text::owned("local_bytes_read"), Json::UInt(m.local_bytes_read)),
        (crate::text::owned("remote_bytes_read"), Json::UInt(m.remote_bytes_read)),
        (crate::text::owned("remote_bytes_written"), Json::UInt(m.remote_bytes_written)),
        (crate::text::owned("bypass_reasons"), reasons_json(&m.bypass_reasons)),
        (crate::text::owned("failure_reasons"), reasons_json(&m.failure_reasons)),
        (crate::text::owned("incomplete"), Json::Bool(m.incomplete)),
    ];
    proof {
        crate::json::lemma_entries(entries@, 10);
        assert(crate::json::entries_view(entries@) =~= measurements_value(m@)->Object_0);
    }
    object_of(entries)
}

fn gaps_json(gaps: &Vec<String>) -> (j: Json)
    ensures
        j@ == JsonV::Array(strs_view(gaps@).map_values(|g: Seq<char>| JsonV::Str(g))),
{
    let mut items: Vec<Json> = Vec::new();
    let mut i: usize = 0;
    while i < gaps.len()
        invariant
            i <= gaps@.len(),
            crate::json::items_view(items@) == strs_view(gaps@).take(i as int).map_values(|g: Seq<char>| JsonV::Str(g)),
        decreases gaps@.len() - i,
    {
        let ghost before = items@;
        items.push(text_json(&gaps[i]));
        proof {
            crate::json::lemma_items(items@, items@.len());
            crate::json::lemma_items(before, before.len());
            assert(crate::json::items_view(items@) =~= crate::json::items_view(before).push(JsonV::Str(gaps@[i as int]@)));
            assert(strs_view(gaps@).take(i + 1) =~= strs_view(gaps@).take(i as int).push(gaps@[i as int]@));
            assert(crate::json::items_view(items@) =~= strs_view(gaps@).take(i + 1).map_values(
                |g: Seq<char>| JsonV::Str(g),
            ));
        }
        i = i + 1;
    }
    proof {
        assert(strs_view(gaps@).take(i as int) =~= strs_view(gaps@));
        crate::json::lemma_items(items@, items@.len());
    }
    Json::Array(items)
}

/// The JSON document of a job record, as its record file holds it.
pub fn record_json(record: &JobRecord) -> (j: Json)
    ensures
        j@ == record_value(record@),
{
    let measurements = match &record.measurements {
        Some(m) => measurements_json(m),
        None => Json::Null,
    };
    let storage = match &record.storage {
        Some(s) => {
            let entries: Vec<(String, Json)> = vec![
                (crate::text::owned("bytes"), Json::UInt(s.bytes)),
                (crate::text::owned("max_bytes"), Json::UInt(s.max_bytes)),
            ];
            proof {
                crate::json::lemma_entries(entries@, 2);
                assert(crate::json::entries_view(entries@) =~= seq![
                    ("bytes"@, JsonV::UInt(s.bytes)),
                    ("max_bytes"@, JsonV::UInt(s.max_bytes)),
                ]);
            }
            object_of(entries)
        },
        None => Json::Null,
    };
    let entries: Vec<(String, Json)> = vec![
        (crate::text::owned("schema_version"), Json::UInt(record.schema_version as u64)),
        (crate::text::owned("run"), run_json(&record.run)),
        (crate::text::owned("job"), text_json(&record.job)),
        (crate::text::owned("configuration"), configuration_json(&record.configuration)),
        (crate::text::owned("measurements"), measurements),
        (crate::text::owned("storage"), storage),
        (crate::text::owned("gaps"), gaps_json(&record.gaps)),
    ];
    proof {
        crate::json::lemma_entries(entries@, 7);
        assert(crate::json::entries_view(entries@) =~= record_value(record@)->Object_0);
    }
    object_of(entries)
}

/// The largest record file, in bytes.
pub const MAX_RECORD_BYTES: u64 = 32768;

/// Refuses a record encoding over the record bound.
pub fn check_record_size(len: usize) -> (r: Result<(), ActionError>)
    ensures
        r is Ok <==> len <= MAX_RECORD_BYTES,
        r matches Err(e) ==> e.kind == ErrorKind::Rejected && e.message@ == "cache record exceeds its byte bound"@,
{
    if len as u64 > MAX_RECORD_BYTES {
        return Err(rejection("cache record exceeds its byte bound"));
    }
    Ok(())
}

/// A record collected for a job names exactly the gaps that its measurements and storage leave,
/// so a report admits it whenever its storage bound is the configured one.
pub proof fn law_collected_gaps_are_consistent(
    run: crate::report::RunV,
    job: Seq<char>,
    configuration: crate::report::ConfigurationV,
    measurements: Option<crate::report::MeasurementsV>,
    storage: Option<Storage>,
)
    requires
        storage matches Some(s) ==> s.max_bytes == configuration.max_bytes,
    ensures
        crate::report::gaps_ok(
            JobRecordV {
                schema_version: 1,
                run,
                job,
                configuration,
                measurements,
                storage,
                gaps: record_gaps(
                    match measurements {
                        Some(m) => Some(m.incomplete),
                        None => None,
                    },
                    storage is Some,
                ),
            },
        ),
{
    reveal_strlit("measurements_unavailable");
    reveal_strlit("recording_incomplete");
    reveal_strlit("storage_unavailable");
    let m = "measurements_unavailable"@;
    let i = "recording_incomplete"@;
    let st = "storage_unavailable"@;
    assert(m.len() == 24 && i.len() == 20 && st.len() == 19);
    assert(m != i && m != st && i != st);
    let gaps = record_gaps(
        match measurements {
            Some(x) => Some(x.incomplete),
            None => None,
        },
        storage is Some,
    );
    let known = seq![m, i, st];
    assert(known.contains(m) && known.contains(i) && known.contains(st)) by {
        assert(known[0] == m && known[1] == i && known[2] == st);
    }
    assert forall|k: int| 0 <= k < gaps.len() implies known.contains(#[trigger] gaps[k]) by {
        assert(gaps[k] == m || gaps[k] == i || gaps[k] == st);
    }
    if measurements is None {
        assert(gaps[0] == m);
    }
    if gaps.contains(m) {
        let k = choose|k: int| 0 <= k < gaps.len() && gaps[k] == m;
        assert(measurements is None);
    }
    if storage is None {
        assert(gaps[gaps.len() - 1] == st);
    }
    if gaps.contains(st) {
        let k = choose|k: int| 0 <= k < gaps.len() && gaps[k] == st;
        assert(storage is None);
    }
    if measurements matches Some(x) && x.incomplete {
        assert(gaps[0] == i);
    }
    if gaps.contains(i) {
        let k = choose|k: int| 0 <= k < gaps.len() && gaps[k] == i;
        assert(measurements matches Some(x) && x.incomplete);
    }
}
} // verus!
