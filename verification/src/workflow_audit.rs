//! The checks of the workflow audit: each step that uses the Action, each job that uses it, and
//! each workflow whose jobs read what those jobs export.

use vstd::prelude::*;

use crate::audit::{
    conditions_view, Condition, ConditionV,
    action_name, action_name_of, find_interface, interface_for, interfaces_view, keys_of, object_keys,
    references_view, findings_view, Audit, Finding, FindingV, Interface, InterfaceV, Reference, ReferenceV,
    Severity, CURRENT_MAJOR, OWNER,
};
use crate::json::{
    find,
    entries_view, get, items_view, jv, jv_entries, jv_items, lemma_entries, lemma_items, text_of, write_text, Json,
    JsonV,
};
use crate::repository::spec_is_sha;
use crate::text::{chars_of, decimal, push_str, string_of, sub_chars, trim, starts_with, u64_text};
use crate::validation::strs_view;
use crate::workflow_text::{
    ascii_lower, contains_chars, contains_text, lower_chars,
    expressions, expressions_in, find_char, index_of, line_of, lines_view, locate, major_version, pairs_view,
    parse_uses, sorted_pairs, spec_major_version, spec_parse_uses, trim_chars, trim_start, trim_start_chars,
};

verus! {

broadcast use vstd::std_specs::vec::axiom_vec_index_decreases, vstd::std_specs::vec::axiom_vec_decreases_to_view;

/// Every string in a value, in document order.
pub open spec fn json_strings(v: JsonV) -> Seq<Seq<char>>
    decreases v, 0nat,
{
    match v {
        JsonV::Str(s) => seq![s],
        JsonV::Array(items) => strings_items(items, items.len()),
        JsonV::Object(entries) => strings_entries(entries, entries.len()),
        _ => seq![],
    }
}

/// Every string in the first `n` items.
pub open spec fn strings_items(items: Seq<JsonV>, n: nat) -> Seq<Seq<char>>
    decreases items, n,
{
    if n == 0 || n > items.len() {
        seq![]
    } else {
        strings_items(items, (n - 1) as nat) + json_strings(items[n - 1])
    }
}

/// Every string in the values of the first `n` entries.
pub open spec fn strings_entries(entries: Seq<(Seq<char>, JsonV)>, n: nat) -> Seq<Seq<char>>
    decreases entries, n,
{
    if n == 0 || n > entries.len() {
        seq![]
    } else {
        strings_entries(entries, (n - 1) as nat) + json_strings(entries[n - 1].1)
    }
}

/// Appends every string in `j`, in document order.
pub fn collect_strings(j: &Json, out: &mut Vec<String>)
    ensures
        strs_view(final(out)@) == strs_view(old(out)@) + json_strings(j@),
    decreases j,
{
    let ghost start = strs_view(out@);
    match j {
        Json::Str(s) => {
            out.push(crate::text::owned(s.as_str()));
            proof {
                assert(strs_view(out@) =~= start + json_strings(j@));
            }
        },
        Json::Array(items) => {
            let ghost values = items_view(items@);
            proof {
                lemma_items(items@, items@.len());
            }
            let mut i: usize = 0;
            while i < items.len()
                invariant
                    i <= items@.len(),
                    values == items_view(items@),
                    *j == Json::Array(*items),
                    values.len() == items@.len(),
                    forall|k: int| 0 <= k < items@.len() ==> #[trigger] values[k] == jv(items@[k]),
                    strs_view(out@) == start + strings_items(values, i as nat),
                decreases items@.len() - i,
            {
                proof {
                    assert(decreases_to!(*j => (*j)->Array_0));
                    assert(decreases_to!(*items => items[i as int]));
                    assert(decreases_to!(*j => items@[i as int]));
                }
                collect_strings(&items[i], out);
                proof {
                    assert(start + strings_items(values, (i + 1) as nat) =~= start + strings_items(values, i as nat)
                        + json_strings(values[i as int]));
                }
                i = i + 1;
            }
            proof {
                assert(values == jv_items(items@, items@.len()));
            }
        },
        Json::Object(entries) => {
            let ghost values = entries_view(entries@);
            proof {
                lemma_entries(entries@, entries@.len());
            }
            let mut i: usize = 0;
            while i < entries.len()
                invariant
                    i <= entries@.len(),
                    values == entries_view(entries@),
                    *j == Json::Object(*entries),
                    values.len() == entries@.len(),
                    forall|k: int| 0 <= k < entries@.len() ==> #[trigger] values[k] == (entries@[k].0@, jv(entries@[k].1)),
                    strs_view(out@) == start + strings_entries(values, i as nat),
                decreases entries@.len() - i,
            {
                proof {
                    assert(decreases_to!(*j => (*j)->Object_0));
                    assert(decreases_to!(*entries => entries[i as int]));
                    assert(decreases_to!(entries[i as int] => entries[i as int].1));
                    assert(decreases_to!(*j => entries@[i as int].1));
                }
                collect_strings(&entries[i].1, out);
                proof {
                    assert(start + strings_entries(values, (i + 1) as nat) =~= start + strings_entries(
                        values,
                        i as nat,
                    ) + json_strings(values[i as int].1));
                }
                i = i + 1;
            }
            proof {
                assert(values == jv_entries(entries@, entries@.len()));
            }
        },
        _ => {
            proof {
                assert(strs_view(out@) =~= start + json_strings(j@));
            }
        },
    }
}

/// The string items of a list, in order.
pub open spec fn str_items(items: Seq<JsonV>) -> Seq<Seq<char>>
    decreases items.len(),
{
    if items.len() == 0 {
        seq![]
    } else {
        str_items(items.drop_last()) + match items.last() {
            JsonV::Str(s) => seq![s],
            _ => seq![],
        }
    }
}

/// The jobs a job needs: one name, or the string items of a list.
pub open spec fn needs_of(job: JsonV) -> Seq<Seq<char>> {
    match get(job, "needs"@) {
        Some(JsonV::Str(name)) => seq![name],
        Some(JsonV::Array(items)) => str_items(items),
        _ => seq![],
    }
}

/// The jobs a job needs.
pub fn needs(job: &Json) -> (r: Vec<String>)
    ensures
        strs_view(r@) == needs_of(job@),
{
    let mut out: Vec<String> = Vec::new();
    match job.get("needs") {
        Some(value) => match value {
            Json::Str(name) => {
                out.push(crate::text::owned(name.as_str()));
                proof {
                    assert(strs_view(out@) =~= seq![name@]);
                }
            },
            Json::Array(items) => {
                let ghost values = items_view(items@);
                proof {
                    lemma_items(items@, items@.len());
                }
                let mut i: usize = 0;
                while i < items.len()
                    invariant
                        i <= items@.len(),
                        values == items_view(items@),
                        values.len() == items@.len(),
                        forall|k: int| 0 <= k < items@.len() ==> #[trigger] values[k] == jv(items@[k]),
                        strs_view(out@) == str_items(values.take(i as int)),
                    decreases items@.len() - i,
                {
                    proof {
                        assert(values.take(i + 1).drop_last() =~= values.take(i as int));
                    }
                    match items[i].as_str() {
                        Some(name) => {
                            out.push(crate::text::owned(name));
                            proof {
                                assert(strs_view(out@) =~= str_items(values.take(i + 1)));
                            }
                        },
                        None => {
                            proof {
                                assert(strs_view(out@) =~= str_items(values.take(i + 1)));
                            }
                        },
                    }
                    i = i + 1;
                }
                proof {
                    assert(values.take(i as int) =~= values);
                }
            },
            _ => {
                proof {
                    assert(strs_view(out@) =~= seq![]);
                }
            },
        },
        None => {
            proof {
                assert(strs_view(out@) =~= seq![]);
            }
        },
    }
    out
}

/// The runner of a job: its `runs-on` label, the JSON text of any other `runs-on` value, or a
/// phrase saying it has none.
pub open spec fn runs_on_of(job: JsonV) -> Seq<char> {
    match get(job, "runs-on"@) {
        Some(JsonV::Str(label)) => label,
        Some(other) => text_of(other),
        None => "an unspecified runner"@,
    }
}

/// The runner of a job.
pub fn runs_on(job: &Json) -> (r: String)
    ensures
        r@ == runs_on_of(job@),
{
    match job.get("runs-on") {
        Some(value) => match value.as_str() {
            Some(label) => crate::text::owned(label),
            None => {
                let mut out = String::new();
                write_text(value, &mut out);
                proof {
                    assert(out@ =~= text_of(value@));
                }
                out
            },
        },
        None => crate::text::owned("an unspecified runner"),
    }
}

/// A finding at a line of the audited file.
pub open spec fn finding(path: Seq<char>, line: nat, severity: Severity, message: Seq<char>) -> FindingV {
    FindingV { file: path, line: line as usize, severity, message }
}

/// What the checks know of the audited file: its path, its lines and the interfaces of the
/// actions this release provides.
pub struct AuditContext {
    pub path: Seq<char>,
    pub lines: Seq<Seq<char>>,
    pub ifs: Seq<InterfaceV>,
}

/// The line a job is declared on: `<name>:` alone, or `<name>: ` followed by more.
pub open spec fn is_job_line(line: Seq<char>, name: Seq<char>) -> bool {
    trim(line) == name + seq![':'] || starts_with(trim_start(line), name + seq![':', ' '])
}

/// The index of the first line at or after `from` that declares the job.
pub open spec fn first_job_line(lines: Seq<Seq<char>>, name: Seq<char>, from: int) -> Option<int>
    decreases lines.len() - from,
{
    if from < 0 || from >= lines.len() {
        None
    } else if is_job_line(lines[from], name) {
        Some(from)
    } else {
        first_job_line(lines, name, from + 1)
    }
}

/// The zero-based index of the line that declares a job, or 0.
pub open spec fn job_line_of(lines: Seq<Seq<char>>, name: Seq<char>) -> nat {
    match first_job_line(lines, name, 0) {
        Some(k) => k as nat,
        None => 0,
    }
}

proof fn lemma_first_job_line(lines: Seq<Seq<char>>, name: Seq<char>, from: int, k: int)
    requires
        0 <= from <= k <= lines.len(),
        forall|j: int| from <= j < k ==> !is_job_line(#[trigger] lines[j], name),
    ensures
        k < lines.len() && is_job_line(lines[k], name) ==> first_job_line(lines, name, from) == Some(k),
        k == lines.len() ==> first_job_line(lines, name, from) is None,
    decreases k - from,
{
    if from < k {
        lemma_first_job_line(lines, name, from + 1, k);
    }
}

fn chars_equal(a: &[char], b: &[char]) -> (r: bool)
    ensures
        r == (a@ == b@),
{
    if a.len() != b.len() {
        return false;
    }
    let mut i: usize = 0;
    while i < a.len()
        invariant
            a@.len() == b@.len(),
            i <= a@.len(),
            forall|k: int| 0 <= k < i ==> a@[k] == b@[k],
        decreases a@.len() - i,
    {
        if a[i] != b[i] {
            return false;
        }
        i = i + 1;
    }
    proof {
        assert(a@ =~= b@);
    }
    true
}

/// The zero-based index of the line that declares a job, or 0.
pub fn job_line(lines: &Vec<Vec<char>>, name: &str) -> (r: usize)
    ensures
        r as nat == job_line_of(lines_view(lines@), name@),
{
    let n = chars_of(name);
    let mut key = n.clone();
    key.push(':');
    let mut spaced = key.clone();
    spaced.push(' ');
    proof {
        assert(key@ =~= name@ + seq![':']);
        assert(spaced@ =~= name@ + seq![':', ' ']);
    }
    let ghost view = lines_view(lines@);
    let mut k: usize = 0;
    while k < lines.len()
        invariant
            k <= lines@.len(),
            view == lines_view(lines@),
            key@ == name@ + seq![':'],
            spaced@ == name@ + seq![':', ' '],
            forall|j: int| 0 <= j < k ==> !is_job_line(#[trigger] view[j], name@),
        decreases lines@.len() - k,
    {
        let trimmed = trim_chars(&lines[k]);
        let start = trim_start_chars(&lines[k]);
        if chars_equal(&trimmed, &key) || crate::text::has_prefix(&start, &spaced) {
            proof {
                lemma_first_job_line(view, name@, 0, k as int);
            }
            return k;
        }
        k = k + 1;
    }
    proof {
        lemma_first_job_line(view, name@, 0, k as int);
    }
    0
}

/// The trimmed text after the first `#` of a line, when the line exists and has one.
pub open spec fn comment_of(lines: Seq<Seq<char>>, line: nat) -> Option<Seq<char>> {
    if 1 <= line <= lines.len() {
        let l = lines[line - 1];
        match index_of(l, '#') {
            Some(h) => Some(trim(l.skip(h + 1))),
            None => None,
        }
    } else {
        None
    }
}

/// The trimmed comment of a line.
fn comment(lines: &Vec<Vec<char>>, line: usize) -> (r: Option<Vec<char>>)
    ensures
        match r {
            Some(c) => comment_of(lines_view(lines@), line as nat) == Some(c@),
            None => comment_of(lines_view(lines@), line as nat) is None,
        },
{
    if line < 1 || line > lines.len() {
        return None;
    }
    let l = &lines[line - 1];
    proof {
        assert(lines_view(lines@)[line - 1] == l@);
    }
    match find_char(l, '#') {
        Some(h) => {
            let ln = l.len();
            let after = sub_chars(l, h + 1, ln);
            proof {
                assert(after@ =~= l@.skip(h + 1));
            }
            Some(trim_chars(&after))
        },
        None => None,
    }
}

/// The effect of one reference on the Action's version: an error for an action this release does
/// not provide or for an older major version, a warning for a newer or unknown one.
pub open spec fn version_findings(
    path: Seq<char>,
    line: nat,
    action: Seq<char>,
    reference: Seq<char>,
    major: Option<u64>,
    known: bool,
) -> Seq<FindingV> {
    let name = action_name_of(action);
    let current = decimal(CURRENT_MAJOR as nat);
    if !known {
        seq![finding(path, line, Severity::Error, name + " is not an action this release provides"@)]
    } else {
        match major {
            Some(m) => if m < CURRENT_MAJOR {
                seq![
                    finding(
                        path,
                        line,
                        Severity::Error,
                        name + seq!['@'] + reference + " is v"@ + decimal(m as nat)
                            + "; migrate every Cargo-Rail Action reference to v"@ + current + " together"@,
                    ),
                ]
            } else if m > CURRENT_MAJOR {
                seq![
                    finding(
                        path,
                        line,
                        Severity::Warning,
                        seq!['v'] + decimal(m as nat) + " is newer than this v"@ + current
                            + " audit; run the matching release's audit"@,
                    ),
                ]
            } else {
                seq![]
            },
            None => seq![
                finding(
                    path,
                    line,
                    Severity::Warning,
                    "cannot tell which release "@ + name + " names; pin a commit with a trailing `# v"@ + current
                        + ".x.y` comment or use a release tag"@,
                ),
            ],
        }
    }
}

fn push_finding(audit: &mut Audit, file: &str, line: usize, severity: Severity, message: String)
    ensures
        findings_view(final(audit).findings@) == findings_view(old(audit).findings@).push(
            finding(file@, line as nat, severity, message@),
        ),
        final(audit).references@ == old(audit).references@,
        final(audit).conditions@ == old(audit).conditions@,
{
    audit.findings.push(Finding { file: crate::text::owned(file), line, severity, message });
    proof {
        assert(findings_view(audit.findings@) =~= findings_view(old(audit).findings@).push(
            finding(file@, line as nat, severity, message@),
        ));
    }
}

fn version_check(
    audit: &mut Audit,
    path: &str,
    line: usize,
    action: &str,
    reference: &str,
    major: Option<u64>,
    known: bool,
)
    ensures
        findings_view(final(audit).findings@) == findings_view(old(audit).findings@) + version_findings(
            path@,
            line as nat,
            action@,
            reference@,
            major,
            known,
        ),
        final(audit).references@ == old(audit).references@,
        final(audit).conditions@ == old(audit).conditions@,
{
    let ghost before = findings_view(audit.findings@);
    let name = action_name(action);
    let current = u64_text(CURRENT_MAJOR);
    if !known {
        let mut m = name;
        push_str(&mut m, " is not an action this release provides");
        push_finding(audit, path, line, Severity::Error, m);
    } else {
        match major {
            Some(v) => {
                if v < CURRENT_MAJOR {
                    let mut m = name;
                    crate::text::push_char(&mut m, '@');
                    push_str(&mut m, reference);
                    push_str(&mut m, " is v");
                    let d = u64_text(v);
                    push_str(&mut m, d.as_str());
                    push_str(&mut m, "; migrate every Cargo-Rail Action reference to v");
                    push_str(&mut m, current.as_str());
                    push_str(&mut m, " together");
                    proof {
                        assert(m@ =~= action_name_of(action@) + seq!['@'] + reference@ + " is v"@ + decimal(v as nat)
                            + "; migrate every Cargo-Rail Action reference to v"@ + decimal(CURRENT_MAJOR as nat)
                            + " together"@);
                    }
                    push_finding(audit, path, line, Severity::Error, m);
                } else if v > CURRENT_MAJOR {
                    let mut m = String::new();
                    crate::text::push_char(&mut m, 'v');
                    let d = u64_text(v);
                    push_str(&mut m, d.as_str());
                    push_str(&mut m, " is newer than this v");
                    push_str(&mut m, current.as_str());
                    push_str(&mut m, " audit; run the matching release's audit");
                    push_finding(audit, path, line, Severity::Warning, m);
                }
            },
            None => {
                let mut m = crate::text::owned("cannot tell which release ");
                push_str(&mut m, name.as_str());
                push_str(&mut m, " names; pin a commit with a trailing `# v");
                push_str(&mut m, current.as_str());
                push_str(&mut m, ".x.y` comment or use a release tag");
                push_finding(audit, path, line, Severity::Warning, m);
            },
        }
    }
    proof {
        assert(findings_view(audit.findings@) =~= before + version_findings(
            path@,
            line as nat,
            action@,
            reference@,
            major,
            known,
        ));
    }
}

/// An error for each input of a step that the action does not declare, located at the first line
/// at or after the step's `uses:` line that names it.
pub open spec fn unknown_inputs(
    path: Seq<char>,
    lines: Seq<Seq<char>>,
    line: nat,
    action: Seq<char>,
    inputs: Seq<Seq<char>>,
    known: Seq<Seq<char>>,
) -> Seq<FindingV>
    decreases inputs.len(),
{
    if inputs.len() == 0 {
        seq![]
    } else {
        let input = inputs.last();
        unknown_inputs(path, lines, line, action, inputs.drop_last(), known) + if known.contains(input) {
            seq![]
        } else {
            seq![
                finding(
                    path,
                    line_of(lines, input + seq![':'], line - 1),
                    Severity::Error,
                    action_name_of(action) + " has no input "@ + input + "; inputs are "@
                        + crate::plan_summary::join(known, ", "@),
                ),
            ]
        }
    }
}

fn input_check(
    audit: &mut Audit,
    path: &str,
    lines: &Vec<Vec<char>>,
    line: usize,
    action: &str,
    inputs: &Vec<String>,
    known: &Vec<String>,
)
    requires
        line >= 1,
    ensures
        findings_view(final(audit).findings@) == findings_view(old(audit).findings@) + unknown_inputs(
            path@,
            lines_view(lines@),
            line as nat,
            action@,
            strs_view(inputs@),
            strs_view(known@),
        ),
        final(audit).references@ == old(audit).references@,
        final(audit).conditions@ == old(audit).conditions@,
{
    let ghost before = findings_view(audit.findings@);
    let listed = crate::plan_summary::join_strings(known, ", ");
    let name = action_name(action);
    let mut i: usize = 0;
    while i < inputs.len()
        invariant
            i <= inputs@.len(),
            line >= 1,
            listed@ == crate::plan_summary::join(strs_view(known@), ", "@),
            name@ == action_name_of(action@),
            findings_view(audit.findings@) == before + unknown_inputs(
                path@,
                lines_view(lines@),
                line as nat,
                action@,
                strs_view(inputs@).take(i as int),
                strs_view(known@),
            ),
            audit.references@ == old(audit).references@,
            audit.conditions@ == old(audit).conditions@,
        decreases inputs@.len() - i,
    {
        proof {
            assert(strs_view(inputs@).take(i + 1).drop_last() =~= strs_view(inputs@).take(i as int));
            assert(strs_view(inputs@).take(i + 1).last() == inputs@[i as int]@);
        }
        let input = inputs[i].as_str();
        if !crate::plan_validation::str_in(known, input) {
            let mut needle = crate::text::owned(input);
            crate::text::push_char(&mut needle, ':');
            let at = locate(lines, needle.as_str(), line - 1);
            let mut m = crate::text::owned(name.as_str());
            push_str(&mut m, " has no input ");
            push_str(&mut m, input);
            push_str(&mut m, "; inputs are ");
            push_str(&mut m, listed.as_str());
            proof {
                assert(needle@ =~= input@ + seq![':']);
                assert(m@ =~= action_name_of(action@) + " has no input "@ + input@ + "; inputs are "@
                    + crate::plan_summary::join(strs_view(known@), ", "@));
            }
            push_finding(audit, path, at, Severity::Error, m);
            proof {
                assert(findings_view(audit.findings@) =~= before + unknown_inputs(
                    path@,
                    lines_view(lines@),
                    line as nat,
                    action@,
                    strs_view(inputs@).take(i + 1),
                    strs_view(known@),
                ));
            }
        } else {
            proof {
                assert(findings_view(audit.findings@) =~= before + unknown_inputs(
                    path@,
                    lines_view(lines@),
                    line as nat,
                    action@,
                    strs_view(inputs@).take(i + 1),
                    strs_view(known@),
                ));
            }
        }
        i = i + 1;
    }
    proof {
        assert(strs_view(inputs@).take(i as int) =~= strs_view(inputs@));
    }
}

/// The index of the first entry with the key.
pub open spec fn assoc_index(m: Seq<(Seq<char>, Seq<char>)>, key: Seq<char>) -> Option<int>
    decreases m.len(),
{
    if m.len() == 0 {
        None
    } else if m[0].0 == key {
        Some(0)
    } else {
        match assoc_index(m.drop_first(), key) {
            Some(k) => Some(k + 1),
            None => None,
        }
    }
}

/// The value of the first entry with the key.
pub open spec fn assoc_get(m: Seq<(Seq<char>, Seq<char>)>, key: Seq<char>) -> Option<Seq<char>> {
    match assoc_index(m, key) {
        Some(k) => Some(m[k].1),
        None => None,
    }
}

/// The entries with the value of the key replaced, or the entry added when the key is new.
pub open spec fn assoc_put(m: Seq<(Seq<char>, Seq<char>)>, key: Seq<char>, value: Seq<char>) -> Seq<
    (Seq<char>, Seq<char>),
> {
    match assoc_index(m, key) {
        Some(k) => m.update(k, (key, value)),
        None => m.push((key, value)),
    }
}

proof fn lemma_assoc_index(m: Seq<(Seq<char>, Seq<char>)>, key: Seq<char>, i: int)
    requires
        0 <= i <= m.len(),
        forall|j: int| 0 <= j < i ==> (#[trigger] m[j]).0 != key,
    ensures
        i < m.len() && m[i].0 == key ==> assoc_index(m, key) == Some(i),
        i == m.len() ==> assoc_index(m, key) is None,
    decreases i,
{
    if i > 0 {
        lemma_assoc_index(m.drop_first(), key, i - 1);
    }
}

/// The index of the first entry with the key.
fn assoc_find(m: &Vec<(String, String)>, key: &str) -> (r: Option<usize>)
    ensures
        r matches Some(k) ==> assoc_index(pairs_view(m@), key@) == Some(k as int) && k < m@.len(),
        r is None ==> assoc_index(pairs_view(m@), key@) is None,
{
    let ghost view = pairs_view(m@);
    let mut i: usize = 0;
    while i < m.len()
        invariant
            i <= m@.len(),
            view == pairs_view(m@),
            forall|j: int| 0 <= j < i ==> (#[trigger] view[j]).0 != key@,
        decreases m@.len() - i,
    {
        if crate::text::str_eq(m[i].0.as_str(), key) {
            proof {
                lemma_assoc_index(view, key@, i as int);
            }
            return Some(i);
        }
        i = i + 1;
    }
    proof {
        lemma_assoc_index(view, key@, i as int);
    }
    None
}

/// Records the value of a key.
fn assoc_set(m: &mut Vec<(String, String)>, key: &str, value: &str)
    ensures
        pairs_view(final(m)@) == assoc_put(pairs_view(old(m)@), key@, value@),
{
    match assoc_find(m, key) {
        Some(k) => {
            m.set(k, (crate::text::owned(key), crate::text::owned(value)));
            proof {
                assert(pairs_view(m@) =~= pairs_view(old(m)@).update(k as int, (key@, value@)));
            }
        },
        None => {
            m.push((crate::text::owned(key), crate::text::owned(value)));
            proof {
                assert(pairs_view(m@) =~= pairs_view(old(m)@).push((key@, value@)));
            }
        },
    }
}

/// The `uses:` text, action and ref of a step that uses an action of this repository.
pub open spec fn step_use(step: JsonV) -> Option<(Seq<char>, Seq<char>, Seq<char>)> {
    match get(step, "uses"@) {
        Some(JsonV::Str(uses)) => match spec_parse_uses(uses, OWNER@) {
            Some((action, reference)) => Some((uses, action, reference)),
            None => None,
        },
        _ => None,
    }
}

/// The major version a reference names: its tag, or for a commit pin the tag in the trailing
/// comment of its line.
pub open spec fn use_major(lines: Seq<Seq<char>>, line: nat, reference: Seq<char>) -> Option<u64> {
    if spec_is_sha(reference) {
        match comment_of(lines, line) {
            Some(c) => spec_major_version(c),
            None => None,
        }
    } else {
        spec_major_version(reference)
    }
}

/// What the audit learns from the steps of a job so far: findings, references, the action each
/// step ID runs, and whether a step runs the planner.
pub struct StepsState {
    pub findings: Seq<FindingV>,
    pub references: Seq<ReferenceV>,
    pub steps: Seq<(Seq<char>, Seq<char>)>,
    pub plans: bool,
}

/// The findings of one step that uses an action of this repository.
pub open spec fn use_findings(
    c: AuditContext,
    start: nat,
    step: JsonV,
    uses: Seq<char>,
    action: Seq<char>,
    reference: Seq<char>,
) -> Seq<FindingV> {
    let line = line_of(c.lines, uses, start as int);
    let major = use_major(c.lines, line, reference);
    let iface = find_interface(c.ifs, action);
    version_findings(c.path, line, action, reference, major, iface is Some) + match iface {
        Some(i) => unknown_inputs(c.path, c.lines, line, action, object_keys(get(step, "with"@)), i.inputs),
        None => seq![],
    }
}

/// The reference one step makes to an action of this repository.
pub open spec fn use_reference(
    c: AuditContext,
    name: Seq<char>,
    start: nat,
    step: JsonV,
    uses: Seq<char>,
    action: Seq<char>,
    reference: Seq<char>,
) -> ReferenceV {
    let line = line_of(c.lines, uses, start as int);
    ReferenceV {
        file: c.path,
        line: line as usize,
        action,
        reference,
        immutable: spec_is_sha(reference),
        major: use_major(c.lines, line, reference),
        job: name,
        inputs: object_keys(get(step, "with"@)),
    }
}

/// The state after one more step of a job.
pub open spec fn step_next(c: AuditContext, name: Seq<char>, start: nat, st: StepsState, step: JsonV) -> StepsState {
    match step_use(step) {
        None => st,
        Some((uses, action, reference)) => StepsState {
            findings: st.findings + use_findings(c, start, step, uses, action, reference),
            references: st.references.push(use_reference(c, name, start, step, uses, action, reference)),
            steps: match get(step, "id"@) {
                Some(JsonV::Str(id)) => assoc_put(st.steps, id, action),
                _ => st.steps,
            },
            plans: st.plans || action.len() == 0,
        },
    }
}

/// The state after the first `n` steps.
pub open spec fn steps_fold(
    c: AuditContext,
    name: Seq<char>,
    start: nat,
    init: StepsState,
    items: Seq<JsonV>,
    n: nat,
) -> StepsState
    decreases n,
{
    if n == 0 || n > items.len() {
        init
    } else {
        step_next(c, name, start, steps_fold(c, name, start, init, items, (n - 1) as nat), items[n - 1])
    }
}

/// The facts a job's steps establish, in executable form.
pub struct JobFacts {
    pub steps: Vec<(String, String)>,
    pub exports: Vec<String>,
    pub plans: bool,
}

/// The value of a job's facts.
pub struct FactsV {
    pub steps: Seq<(Seq<char>, Seq<char>)>,
    pub exports: Seq<Seq<char>>,
    pub plans: bool,
}

impl View for JobFacts {
    type V = FactsV;

    open spec fn view(&self) -> FactsV {
        FactsV { steps: pairs_view(self.steps@), exports: strs_view(self.exports@), plans: self.plans }
    }
}

/// Audits one step of a job.
fn audit_step(
    audit: &mut Audit,
    facts: &mut JobFacts,
    path: &str,
    lines: &Vec<Vec<char>>,
    ifs: &Vec<Interface>,
    name: &str,
    start: usize,
    step: &Json,
)
    ensures
        ({
            let c = AuditContext { path: path@, lines: lines_view(lines@), ifs: interfaces_view(ifs@) };
            let st = StepsState {
                findings: findings_view(old(audit).findings@),
                references: references_view(old(audit).references@),
                steps: pairs_view(old(facts).steps@),
                plans: old(facts).plans,
            };
            let next = step_next(c, name@, start as nat, st, step@);
            &&& findings_view(final(audit).findings@) == next.findings
            &&& references_view(final(audit).references@) == next.references
            &&& pairs_view(final(facts).steps@) == next.steps
            &&& final(facts).plans == next.plans
        }),
        final(audit).conditions@ == old(audit).conditions@,
        final(facts).exports@ == old(facts).exports@,
{
    let uses = match step.get("uses") {
        Some(u) => match u.as_str() {
            Some(text) => text,
            None => return,
        },
        None => return,
    };
    let (action, reference) = match parse_uses(uses, OWNER) {
        Some(parsed) => parsed,
        None => return,
    };
    let line = locate(lines, uses, start);
    let immutable = crate::repository::is_sha(reference.as_str());
    let major = if immutable {
        match comment(lines, line) {
            Some(text) => major_version(string_of(&text).as_str()),
            None => None,
        }
    } else {
        major_version(reference.as_str())
    };
    let inputs = keys_of(step.get("with"));
    let iface = interface_for(ifs, action.as_str());
    version_check(audit, path, line, action.as_str(), reference.as_str(), major, iface.is_some());
    match iface {
        Some(i) => {
            input_check(audit, path, lines, line, action.as_str(), &inputs, &i.inputs);
        },
        None => {
            proof {
                assert(findings_view(audit.findings@) =~= findings_view(audit.findings@) + seq![]);
            }
        },
    }
    if action.as_str().is_empty() {
        facts.plans = true;
    }
    match step.get("id") {
        Some(id) => match id.as_str() {
            Some(text) => {
                assoc_set(&mut facts.steps, text, action.as_str());
            },
            None => {},
        },
        None => {},
    }
    audit.references.push(
        Reference {
            file: crate::text::owned(path),
            line,
            action,
            reference,
            immutable,
            major,
            job: crate::text::owned(name),
            inputs,
        },
    );
    proof {
        assert(references_view(audit.references@) =~= references_view(old(audit).references@).push(
            audit.references@.last()@,
        ));
    }
}

/// The steps of a job.
pub open spec fn step_items(job: JsonV) -> Seq<JsonV> {
    match get(job, "steps"@) {
        Some(JsonV::Array(items)) => items,
        _ => seq![],
    }
}

/// The entries of a job's `outputs` object.
pub open spec fn output_entries(job: JsonV) -> Seq<(Seq<char>, JsonV)> {
    match get(job, "outputs"@) {
        Some(JsonV::Object(entries)) => entries,
        _ => seq![],
    }
}

/// An error for a job that calls this repository as a reusable workflow.
pub open spec fn reusable_findings(c: AuditContext, name: Seq<char>, start: nat, job: JsonV) -> Seq<FindingV> {
    match get(job, "uses"@) {
        Some(JsonV::Str(uses)) => if contains_text(ascii_lower(uses), OWNER@) {
            seq![
                finding(
                    c.path,
                    line_of(c.lines, uses, start as int),
                    Severity::Error,
                    "job "@ + name + " calls "@ + uses + " as a reusable workflow; Cargo-Rail Action provides none"@,
                ),
            ]
        } else {
            seq![]
        },
        _ => seq![],
    }
}

/// An error for each `steps.<id>.outputs.<output>` reference to an output that the action run
/// by step `id` does not declare.
pub open spec fn output_findings(
    c: AuditContext,
    start: nat,
    steps: Seq<(Seq<char>, Seq<char>)>,
    pairs: Seq<(Seq<char>, Seq<char>)>,
) -> Seq<FindingV>
    decreases pairs.len(),
{
    if pairs.len() == 0 {
        seq![]
    } else {
        let id = pairs.last().0;
        let output = pairs.last().1;
        output_findings(c, start, steps, pairs.drop_last()) + match assoc_get(steps, id) {
            Some(action) => match find_interface(c.ifs, action) {
                Some(i) => if i.outputs.contains(output) {
                    seq![]
                } else {
                    seq![
                        finding(
                            c.path,
                            line_of(c.lines, "steps."@ + id + ".outputs."@ + output, start as int),
                            Severity::Error,
                            action_name_of(action) + " has no output "@ + output + "; outputs are "@
                                + crate::plan_summary::join(i.outputs, ", "@) + ", so steps."@ + id + ".outputs."@
                                + output + " is always empty"@,
                        ),
                    ]
                },
                None => seq![],
            },
            None => seq![],
        }
    }
}

/// A warning for each reference to the planner's `plan-file` output in the value of a job output.
pub open spec fn plan_file_exports(
    c: AuditContext,
    name: Seq<char>,
    start: nat,
    steps: Seq<(Seq<char>, Seq<char>)>,
    export: Seq<char>,
    pairs: Seq<(Seq<char>, Seq<char>)>,
) -> Seq<FindingV>
    decreases pairs.len(),
{
    if pairs.len() == 0 {
        seq![]
    } else {
        let id = pairs.last().0;
        let output = pairs.last().1;
        plan_file_exports(c, name, start, steps, export, pairs.drop_last()) + if assoc_get(steps, id) == Some(
            Seq::<char>::empty(),
        ) && output == "plan-file"@ {
            seq![
                finding(
                    c.path,
                    line_of(c.lines, "steps."@ + id + ".outputs.plan-file"@, start as int),
                    Severity::Warning,
                    "job "@ + name + " exports plan-file as output "@ + export
                        + "; it is a path on this runner only, so upload the file as an artifact instead"@,
                ),
            ]
        } else {
            seq![]
        }
    }
}

/// The warnings for job outputs that export the planner's `plan-file`.
pub open spec fn export_findings(
    c: AuditContext,
    name: Seq<char>,
    start: nat,
    steps: Seq<(Seq<char>, Seq<char>)>,
    entries: Seq<(Seq<char>, JsonV)>,
) -> Seq<FindingV>
    decreases entries.len(),
{
    if entries.len() == 0 {
        seq![]
    } else {
        export_findings(c, name, start, steps, entries.drop_last()) + match entries.last().1 {
            JsonV::Str(value) => plan_file_exports(
                c,
                name,
                start,
                steps,
                entries.last().0,
                sorted_pairs(expressions_in(seq![value], "steps."@)),
            ),
            _ => seq![],
        }
    }
}

/// What auditing one job adds: findings, references, and the facts its steps establish.
pub struct JobOutcome {
    pub findings: Seq<FindingV>,
    pub references: Seq<ReferenceV>,
    pub facts: FactsV,
}

/// The empty state a job's steps start from, after the reusable-workflow check.
pub open spec fn job_init(c: AuditContext, name: Seq<char>, job: JsonV) -> StepsState {
    StepsState {
        findings: reusable_findings(c, name, job_line_of(c.lines, name), job),
        references: seq![],
        steps: seq![],
        plans: false,
    }
}

/// What auditing one job adds.
pub open spec fn job_outcome(c: AuditContext, name: Seq<char>, job: JsonV) -> JobOutcome {
    let start = job_line_of(c.lines, name);
    let items = step_items(job);
    let st = steps_fold(c, name, start, job_init(c, name, job), items, items.len());
    if st.steps.len() == 0 {
        JobOutcome {
            findings: st.findings,
            references: st.references,
            facts: FactsV { steps: st.steps, exports: seq![], plans: st.plans },
        }
    } else {
        let outs = output_findings(c, start, st.steps, sorted_pairs(expressions_in(json_strings(job), "steps."@)));
        let exps = export_findings(c, name, start, st.steps, output_entries(job));
        JobOutcome {
            findings: st.findings + outs + exps,
            references: st.references,
            facts: FactsV { steps: st.steps, exports: object_keys(get(job, "outputs"@)), plans: st.plans },
        }
    }
}

/// Earlier findings and references stay in front of what the steps add.
proof fn lemma_steps_fold_prefix(
    c: AuditContext,
    name: Seq<char>,
    start: nat,
    init: StepsState,
    f: Seq<FindingV>,
    r: Seq<ReferenceV>,
    items: Seq<JsonV>,
    n: nat,
)
    ensures
        ({
            let shifted = StepsState {
                findings: f + init.findings,
                references: r + init.references,
                steps: init.steps,
                plans: init.plans,
            };
            let a = steps_fold(c, name, start, shifted, items, n);
            let b = steps_fold(c, name, start, init, items, n);
            &&& a.findings == f + b.findings
            &&& a.references == r + b.references
            &&& a.steps == b.steps
            &&& a.plans == b.plans
        }),
    decreases n,
{
    if n > 0 && n <= items.len() {
        lemma_steps_fold_prefix(c, name, start, init, f, r, items, (n - 1) as nat);
        let shifted = StepsState {
            findings: f + init.findings,
            references: r + init.references,
            steps: init.steps,
            plans: init.plans,
        };
        let a = steps_fold(c, name, start, shifted, items, (n - 1) as nat);
        let b = steps_fold(c, name, start, init, items, (n - 1) as nat);
        let step = items[n - 1];
        match step_use(step) {
            None => {},
            Some((uses, action, reference)) => {
                assert(f + b.findings + use_findings(c, start, step, uses, action, reference) =~= f + (b.findings
                    + use_findings(c, start, step, uses, action, reference)));
                assert((r + b.references).push(use_reference(c, name, start, step, uses, action, reference)) =~= r
                    + b.references.push(use_reference(c, name, start, step, uses, action, reference)));
            },
        }
    }
}

fn reusable_check(audit: &mut Audit, path: &str, lines: &Vec<Vec<char>>, name: &str, start: usize, job: &Json)
    ensures
        findings_view(final(audit).findings@) == findings_view(old(audit).findings@) + reusable_findings(
            AuditContext { path: path@, lines: lines_view(lines@), ifs: seq![] },
            name@,
            start as nat,
            job@,
        ),
        final(audit).references@ == old(audit).references@,
        final(audit).conditions@ == old(audit).conditions@,
{
    let ghost before = findings_view(audit.findings@);
    match job.get("uses") {
        Some(value) => match value.as_str() {
            Some(uses) => {
                let lower = lower_chars(&chars_of(uses));
                let owner = chars_of(OWNER);
                if contains_chars(&lower, &owner) {
                    let line = locate(lines, uses, start);
                    let mut m = crate::text::owned("job ");
                    push_str(&mut m, name);
                    push_str(&mut m, " calls ");
                    push_str(&mut m, uses);
                    push_str(&mut m, " as a reusable workflow; Cargo-Rail Action provides none");
                    push_finding(audit, path, line, Severity::Error, m);
                    proof {
                        assert(findings_view(audit.findings@) =~= before + reusable_findings(
                            AuditContext { path: path@, lines: lines_view(lines@), ifs: seq![] },
                            name@,
                            start as nat,
                            job@,
                        ));
                    }
                    return;
                }
            },
            None => {},
        },
        None => {},
    }
    proof {
        assert(findings_view(audit.findings@) =~= before + reusable_findings(
            AuditContext { path: path@, lines: lines_view(lines@), ifs: seq![] },
            name@,
            start as nat,
            job@,
        ));
    }
}

fn output_check(
    audit: &mut Audit,
    path: &str,
    lines: &Vec<Vec<char>>,
    ifs: &Vec<Interface>,
    start: usize,
    steps: &Vec<(String, String)>,
    pairs: &Vec<(String, String)>,
)
    ensures
        findings_view(final(audit).findings@) == findings_view(old(audit).findings@) + output_findings(
            AuditContext { path: path@, lines: lines_view(lines@), ifs: interfaces_view(ifs@) },
            start as nat,
            pairs_view(steps@),
            pairs_view(pairs@),
        ),
        final(audit).references@ == old(audit).references@,
        final(audit).conditions@ == old(audit).conditions@,
{
    let ghost c = AuditContext { path: path@, lines: lines_view(lines@), ifs: interfaces_view(ifs@) };
    let ghost before = findings_view(audit.findings@);
    let mut i: usize = 0;
    while i < pairs.len()
        invariant
            i <= pairs@.len(),
            c == (AuditContext { path: path@, lines: lines_view(lines@), ifs: interfaces_view(ifs@) }),
            findings_view(audit.findings@) == before + output_findings(
                c,
                start as nat,
                pairs_view(steps@),
                pairs_view(pairs@).take(i as int),
            ),
            audit.references@ == old(audit).references@,
            audit.conditions@ == old(audit).conditions@,
        decreases pairs@.len() - i,
    {
        let ghost prefix = pairs_view(pairs@).take(i + 1);
        proof {
            assert(prefix.drop_last() =~= pairs_view(pairs@).take(i as int));
            assert(prefix.last() == (pairs@[i as int].0@, pairs@[i as int].1@));
        }
        let id = pairs[i].0.as_str();
        let output = pairs[i].1.as_str();
        match assoc_find(steps, id) {
            Some(k) => {
                let action = steps[k].1.as_str();
                proof {
                    assert(pairs_view(steps@)[k as int].1 == action@);
                }
                match interface_for(ifs, action) {
                    Some(iface) => {
                        if !crate::plan_validation::str_in(&iface.outputs, output) {
                            let mut needle = crate::text::owned("steps.");
                            push_str(&mut needle, id);
                            push_str(&mut needle, ".outputs.");
                            push_str(&mut needle, output);
                            let line = locate(lines, needle.as_str(), start);
                            let mut m = action_name(action);
                            push_str(&mut m, " has no output ");
                            push_str(&mut m, output);
                            push_str(&mut m, "; outputs are ");
                            let listed = crate::plan_summary::join_strings(&iface.outputs, ", ");
                            push_str(&mut m, listed.as_str());
                            push_str(&mut m, ", so steps.");
                            push_str(&mut m, id);
                            push_str(&mut m, ".outputs.");
                            push_str(&mut m, output);
                            push_str(&mut m, " is always empty");
                            proof {
                                assert(needle@ =~= "steps."@ + id@ + ".outputs."@ + output@);
                                assert(m@ =~= action_name_of(action@) + " has no output "@ + output@ + "; outputs are "@
                                    + crate::plan_summary::join(iface@.outputs, ", "@) + ", so steps."@ + id@
                                    + ".outputs."@ + output@ + " is always empty"@);
                            }
                            push_finding(audit, path, line, Severity::Error, m);
                        }
                    },
                    None => {},
                }
            },
            None => {},
        }
        proof {
            assert(findings_view(audit.findings@) =~= before + output_findings(
                c,
                start as nat,
                pairs_view(steps@),
                prefix,
            ));
        }
        i = i + 1;
    }
    proof {
        assert(pairs_view(pairs@).take(i as int) =~= pairs_view(pairs@));
    }
}

fn plan_file_check(
    audit: &mut Audit,
    path: &str,
    lines: &Vec<Vec<char>>,
    name: &str,
    start: usize,
    steps: &Vec<(String, String)>,
    export: &str,
    pairs: &Vec<(String, String)>,
)
    ensures
        forall|ifs: Seq<InterfaceV>| findings_view(final(audit).findings@) == findings_view(old(audit).findings@)
            + plan_file_exports(
            AuditContext { path: path@, lines: lines_view(lines@), ifs },
            name@,
            start as nat,
            pairs_view(steps@),
            export@,
            pairs_view(pairs@),
        ),
        final(audit).references@ == old(audit).references@,
        final(audit).conditions@ == old(audit).conditions@,
{
    let ghost before = findings_view(audit.findings@);
    let mut i: usize = 0;
    while i < pairs.len()
        invariant
            i <= pairs@.len(),
            forall|ifs: Seq<InterfaceV>| findings_view(audit.findings@) == before + plan_file_exports(
                AuditContext { path: path@, lines: lines_view(lines@), ifs },
                name@,
                start as nat,
                pairs_view(steps@),
                export@,
                pairs_view(pairs@).take(i as int),
            ),
            audit.references@ == old(audit).references@,
            audit.conditions@ == old(audit).conditions@,
        decreases pairs@.len() - i,
    {
        let ghost prefix = pairs_view(pairs@).take(i + 1);
        proof {
            assert(prefix.drop_last() =~= pairs_view(pairs@).take(i as int));
            assert(prefix.last() == (pairs@[i as int].0@, pairs@[i as int].1@));
        }
        let id = pairs[i].0.as_str();
        let output = pairs[i].1.as_str();
        let mut hit = false;
        match assoc_find(steps, id) {
            Some(k) => {
                proof {
                    assert(pairs_view(steps@)[k as int].1 == steps@[k as int].1@);
                    if steps@[k as int].1@.len() == 0 {
                        assert(steps@[k as int].1@ =~= Seq::<char>::empty());
                    }
                }
                if steps[k].1.as_str().is_empty() && crate::text::str_eq(output, "plan-file") {
                    hit = true;
                }
            },
            None => {},
        }
        proof {
            assert(hit == (assoc_get(pairs_view(steps@), id@) == Some(Seq::<char>::empty()) && output@
                == "plan-file"@));
        }
        if hit {
            let mut needle = crate::text::owned("steps.");
            push_str(&mut needle, id);
            push_str(&mut needle, ".outputs.plan-file");
            let line = locate(lines, needle.as_str(), start);
            let mut m = crate::text::owned("job ");
            push_str(&mut m, name);
            push_str(&mut m, " exports plan-file as output ");
            push_str(&mut m, export);
            push_str(&mut m, "; it is a path on this runner only, so upload the file as an artifact instead");
            proof {
                assert(needle@ =~= "steps."@ + id@ + ".outputs.plan-file"@);
                assert(m@ =~= "job "@ + name@ + " exports plan-file as output "@ + export@
                    + "; it is a path on this runner only, so upload the file as an artifact instead"@);
            }
            push_finding(audit, path, line, Severity::Warning, m);
        }
        proof {
            assert forall|ifs: Seq<InterfaceV>| findings_view(audit.findings@) == before + plan_file_exports(
                AuditContext { path: path@, lines: lines_view(lines@), ifs },
                name@,
                start as nat,
                pairs_view(steps@),
                export@,
                prefix,
            ) by {
                assert(findings_view(audit.findings@) =~= before + plan_file_exports(
                    AuditContext { path: path@, lines: lines_view(lines@), ifs },
                    name@,
                    start as nat,
                    pairs_view(steps@),
                    export@,
                    prefix,
                ));
            }
        }
        i = i + 1;
    }
    proof {
        assert(pairs_view(pairs@).take(i as int) =~= pairs_view(pairs@));
    }
}

fn export_check(
    audit: &mut Audit,
    path: &str,
    lines: &Vec<Vec<char>>,
    name: &str,
    start: usize,
    steps: &Vec<(String, String)>,
    job: &Json,
)
    ensures
        forall|ifs: Seq<InterfaceV>| findings_view(final(audit).findings@) == findings_view(old(audit).findings@)
            + export_findings(
            AuditContext { path: path@, lines: lines_view(lines@), ifs },
            name@,
            start as nat,
            pairs_view(steps@),
            output_entries(job@),
        ),
        final(audit).references@ == old(audit).references@,
        final(audit).conditions@ == old(audit).conditions@,
{
    let ghost before = findings_view(audit.findings@);
    let entries = match job.get("outputs") {
        Some(value) => match value.as_object() {
            Some(entries) => entries,
            None => {
                proof {
                    assert forall|ifs: Seq<InterfaceV>| findings_view(audit.findings@) == before + export_findings(
                        AuditContext { path: path@, lines: lines_view(lines@), ifs },
                        name@,
                        start as nat,
                        pairs_view(steps@),
                        output_entries(job@),
                    ) by {
                        assert(before =~= before + seq![]);
                    }
                }
                return;
            },
        },
        None => {
            proof {
                assert forall|ifs: Seq<InterfaceV>| findings_view(audit.findings@) == before + export_findings(
                    AuditContext { path: path@, lines: lines_view(lines@), ifs },
                    name@,
                    start as nat,
                    pairs_view(steps@),
                    output_entries(job@),
                ) by {
                    assert(before =~= before + seq![]);
                }
            }
            return;
        },
    };
    let ghost values = entries_view(entries@);
    proof {
        lemma_entries(entries@, entries@.len());
        assert(output_entries(job@) == values);
    }
    let mut i: usize = 0;
    while i < entries.len()
        invariant
            i <= entries@.len(),
            values == entries_view(entries@),
            values.len() == entries@.len(),
            forall|k: int| 0 <= k < entries@.len() ==> #[trigger] values[k] == (entries@[k].0@, jv(entries@[k].1)),
            forall|ifs: Seq<InterfaceV>| findings_view(audit.findings@) == before + export_findings(
                AuditContext { path: path@, lines: lines_view(lines@), ifs },
                name@,
                start as nat,
                pairs_view(steps@),
                values.take(i as int),
            ),
            audit.references@ == old(audit).references@,
            audit.conditions@ == old(audit).conditions@,
        decreases entries@.len() - i,
    {
        let ghost prefix = values.take(i + 1);
        let ghost mid = findings_view(audit.findings@);
        proof {
            assert(prefix.drop_last() =~= values.take(i as int));
            assert(prefix.last() == values[i as int]);
        }
        match entries[i].1.as_str() {
            Some(value) => {
                let mut one: Vec<String> = Vec::new();
                one.push(crate::text::owned(value));
                proof {
                    assert(strs_view(one@) =~= seq![value@]);
                }
                proof {
                    reveal_strlit("steps.");
                }
                let pairs = expressions(&one, "steps.");
                plan_file_check(audit, path, lines, name, start, steps, entries[i].0.as_str(), &pairs);
                proof {
                    assert forall|ifs: Seq<InterfaceV>| findings_view(audit.findings@) == before + export_findings(
                        AuditContext { path: path@, lines: lines_view(lines@), ifs },
                        name@,
                        start as nat,
                        pairs_view(steps@),
                        prefix,
                    ) by {
                        let c = AuditContext { path: path@, lines: lines_view(lines@), ifs };
                        assert(findings_view(audit.findings@) =~= mid + plan_file_exports(
                            c,
                            name@,
                            start as nat,
                            pairs_view(steps@),
                            entries@[i as int].0@,
                            pairs_view(pairs@),
                        ));
                    }
                }
            },
            None => {
                proof {
                    assert forall|ifs: Seq<InterfaceV>| findings_view(audit.findings@) == before + export_findings(
                        AuditContext { path: path@, lines: lines_view(lines@), ifs },
                        name@,
                        start as nat,
                        pairs_view(steps@),
                        prefix,
                    ) by {
                        let c = AuditContext { path: path@, lines: lines_view(lines@), ifs };
                        assert(export_findings(c, name@, start as nat, pairs_view(steps@), prefix) =~= export_findings(
                            c,
                            name@,
                            start as nat,
                            pairs_view(steps@),
                            values.take(i as int),
                        ) + seq![]);
                    }
                }
            },
        }
        i = i + 1;
    }
    proof {
        assert(values.take(i as int) =~= values);
    }
}

/// Audits one job: the reusable-workflow check, each step that uses the Action, and, when some
/// step of this repository has an ID, the step outputs the job reads and the plan files it exports.
fn audit_job(
    audit: &mut Audit,
    path: &str,
    lines: &Vec<Vec<char>>,
    ifs: &Vec<Interface>,
    name: &str,
    job: &Json,
) -> (facts: JobFacts)
    ensures
        ({
            let o = job_outcome(
                AuditContext { path: path@, lines: lines_view(lines@), ifs: interfaces_view(ifs@) },
                name@,
                job@,
            );
            &&& findings_view(final(audit).findings@) == findings_view(old(audit).findings@) + o.findings
            &&& references_view(final(audit).references@) == references_view(old(audit).references@)
                + o.references
            &&& facts@ == o.facts
        }),
        final(audit).conditions@ == old(audit).conditions@,
{
    let ghost c = AuditContext { path: path@, lines: lines_view(lines@), ifs: interfaces_view(ifs@) };
    let ghost f0 = findings_view(audit.findings@);
    let ghost r0 = references_view(audit.references@);
    let start = job_line(lines, name);
    reusable_check(audit, path, lines, name, start, job);
    proof {
        assert(reusable_findings(AuditContext { path: path@, lines: lines_view(lines@), ifs: seq![] }, name@, start as nat, job@)
            == reusable_findings(c, name@, start as nat, job@));
    }
    let mut facts = JobFacts { steps: Vec::new(), exports: Vec::new(), plans: false };
    let ghost init = job_init(c, name@, job@);
    let ghost shifted = StepsState { findings: f0 + init.findings, references: r0 + init.references, steps: init.steps, plans: init.plans };
    let empty: Vec<Json> = Vec::new();
    let items = match job.get("steps") {
        Some(value) => match value.as_array() {
            Some(items) => items,
            None => &empty,
        },
        None => &empty,
    };
    let ghost values = items_view(items@);
    proof {
        lemma_items(items@, items@.len());
        assert(items_view(empty@) =~= seq![]);
        assert(step_items(job@) == values);
        assert(pairs_view(facts.steps@) =~= seq![]);
        assert(references_view(audit.references@) =~= r0 + seq![]);
    }
    let mut i: usize = 0;
    while i < items.len()
        invariant
            i <= items@.len(),
            c == (AuditContext { path: path@, lines: lines_view(lines@), ifs: interfaces_view(ifs@) }),
            values == items_view(items@),
            values.len() == items@.len(),
            forall|k: int| 0 <= k < items@.len() ==> #[trigger] values[k] == jv(items@[k]),
            facts.exports@.len() == 0,
            ({
                let st = steps_fold(c, name@, start as nat, shifted, values, i as nat);
                &&& findings_view(audit.findings@) == st.findings
                &&& references_view(audit.references@) == st.references
                &&& pairs_view(facts.steps@) == st.steps
                &&& facts.plans == st.plans
            }),
            audit.conditions@ == old(audit).conditions@,
        decreases items@.len() - i,
    {
        audit_step(audit, &mut facts, path, lines, ifs, name, start, &items[i]);
        i = i + 1;
    }
    proof {
        lemma_steps_fold_prefix(c, name@, start as nat, init, f0, r0, values, values.len());
    }
    if facts.steps.len() == 0 {
        proof {
            assert(strs_view(facts.exports@) =~= seq![]);
        }
        return facts;
    }
    let mut strings: Vec<String> = Vec::new();
    collect_strings(job, &mut strings);
    proof {
        assert(strs_view(strings@) =~= json_strings(job@));
    }
    proof {
        reveal_strlit("steps.");
    }
    let pairs = expressions(&strings, "steps.");
    output_check(audit, path, lines, ifs, start, &facts.steps, &pairs);
    export_check(audit, path, lines, name, start, &facts.steps, job);
    facts.exports = keys_of(job.get("outputs"));
    proof {
        let st = steps_fold(c, name@, start as nat, init, values, values.len());
        let outs = output_findings(c, start as nat, st.steps, sorted_pairs(expressions_in(json_strings(job@), "steps."@)));
        let exps = export_findings(c, name@, start as nat, st.steps, output_entries(job@));
        assert(findings_view(audit.findings@) =~= f0 + (st.findings + outs + exps));
    }
    facts
}

/// The facts of the first job with the name.
pub open spec fn facts_get(facts: Seq<(Seq<char>, FactsV)>, name: Seq<char>) -> Option<FactsV>
    decreases facts.len(),
{
    if facts.len() == 0 {
        None
    } else if facts[0].0 == name {
        Some(facts[0].1)
    } else {
        facts_get(facts.drop_first(), name)
    }
}

/// The values of a list of named job facts.
pub open spec fn named_facts_view(v: Seq<(String, JobFacts)>) -> Seq<(Seq<char>, FactsV)> {
    v.map_values(|p: (String, JobFacts)| (p.0@, p.1@))
}

proof fn lemma_facts_get(facts: Seq<(Seq<char>, FactsV)>, name: Seq<char>, i: int)
    requires
        0 <= i <= facts.len(),
        forall|j: int| 0 <= j < i ==> (#[trigger] facts[j]).0 != name,
    ensures
        i < facts.len() && facts[i].0 == name ==> facts_get(facts, name) == Some(facts[i].1),
        i == facts.len() ==> facts_get(facts, name) is None,
    decreases i,
{
    if i > 0 {
        lemma_facts_get(facts.drop_first(), name, i - 1);
    }
}

/// The facts of the first job with the name.
fn facts_for<'a>(facts: &'a Vec<(String, JobFacts)>, name: &str) -> (r: Option<&'a JobFacts>)
    ensures
        r matches Some(f) ==> facts_get(named_facts_view(facts@), name@) == Some(f@),
        r is None ==> facts_get(named_facts_view(facts@), name@) is None,
{
    let ghost view = named_facts_view(facts@);
    let mut i: usize = 0;
    while i < facts.len()
        invariant
            i <= facts@.len(),
            view == named_facts_view(facts@),
            forall|j: int| 0 <= j < i ==> (#[trigger] view[j]).0 != name@,
        decreases facts@.len() - i,
    {
        if crate::text::str_eq(facts[i].0.as_str(), name) {
            proof {
                lemma_facts_get(view, name@, i as int);
            }
            return Some(&facts[i].1);
        }
        i = i + 1;
    }
    proof {
        lemma_facts_get(view, name@, i as int);
    }
    None
}

/// What the first pass over a workflow's jobs adds: the findings and references of each job
/// that is an object, and its facts under its name.
pub struct FirstPass {
    pub findings: Seq<FindingV>,
    pub references: Seq<ReferenceV>,
    pub facts: Seq<(Seq<char>, FactsV)>,
}

/// The first pass over the first `n` jobs.
pub open spec fn first_pass(c: AuditContext, jobs: Seq<(Seq<char>, JsonV)>, n: nat) -> FirstPass
    decreases n,
{
    if n == 0 || n > jobs.len() {
        FirstPass { findings: seq![], references: seq![], facts: seq![] }
    } else {
        let p = first_pass(c, jobs, (n - 1) as nat);
        let name = jobs[n - 1].0;
        let job = jobs[n - 1].1;
        if job is Object {
            let o = job_outcome(c, name, job);
            FirstPass {
                findings: p.findings + o.findings,
                references: p.references + o.references,
                facts: p.facts.push((name, o.facts)),
            }
        } else {
            p
        }
    }
}

/// An error for each `needs.<job>.outputs.<output>` read of an output that a job using the
/// Action does not export.
pub open spec fn needs_findings(
    c: AuditContext,
    name: Seq<char>,
    start: nat,
    facts: Seq<(Seq<char>, FactsV)>,
    pairs: Seq<(Seq<char>, Seq<char>)>,
) -> Seq<FindingV>
    decreases pairs.len(),
{
    if pairs.len() == 0 {
        seq![]
    } else {
        let producer = pairs.last().0;
        let output = pairs.last().1;
        needs_findings(c, name, start, facts, pairs.drop_last()) + match facts_get(facts, producer) {
            Some(pf) => if pf.steps.len() == 0 || pf.exports.contains(output) {
                seq![]
            } else {
                seq![
                    finding(
                        c.path,
                        line_of(c.lines, "needs."@ + producer + ".outputs."@ + output, start as int),
                        Severity::Error,
                        "job "@ + name + " reads needs."@ + producer + ".outputs."@ + output + ", which job "@
                            + producer + " does not export; GitHub evaluates it as empty"@,
                    ),
                ]
            },
            None => seq![],
        }
    }
}

/// Whether a job of that name runs a step of this repository with an ID.
pub open spec fn uses_action(facts: Seq<(Seq<char>, FactsV)>, producer: Seq<char>) -> bool {
    facts_get(facts, producer) matches Some(pf) && pf.steps.len() > 0
}

/// The job's condition, when it reads an output of a job that uses the Action.
pub open spec fn condition_of(
    c: AuditContext,
    name: Seq<char>,
    start: nat,
    facts: Seq<(Seq<char>, FactsV)>,
    job: JsonV,
) -> Seq<ConditionV> {
    match get(job, "if"@) {
        Some(JsonV::Str(cond)) => if exists|p: (Seq<char>, Seq<char>)| #[trigger] expressions_in(seq![cond], "needs."@).contains(p)
            && uses_action(facts, p.0) {
            seq![
                ConditionV {
                    file: c.path,
                    line: line_of(c.lines, "if:"@, start as int) as usize,
                    job: name,
                    condition: trim(cond),
                },
            ]
        } else {
            seq![]
        },
        _ => seq![],
    }
}

/// Whether some text of the job runs a plan selector.
pub open spec fn reads_plan(job: JsonV) -> bool {
    exists|i: int| 0 <= i < json_strings(job).len() && contains_text(#[trigger] json_strings(job)[i], "cargo-rail-action plan "@)
}

/// A warning for each needed job that plans on another runner than this job, which reads a plan.
pub open spec fn platform_findings(
    c: AuditContext,
    name: Seq<char>,
    start: nat,
    facts: Seq<(Seq<char>, FactsV)>,
    jobs: Seq<(Seq<char>, JsonV)>,
    job: JsonV,
    producers: Seq<Seq<char>>,
) -> Seq<FindingV>
    decreases producers.len(),
{
    if producers.len() == 0 {
        seq![]
    } else {
        let producer = producers.last();
        platform_findings(c, name, start, facts, jobs, job, producers.drop_last()) + match find(jobs, producer) {
            Some(pj) => if pj is Object && plans_itself(facts, producer) && runs_on_of(job) != runs_on_of(pj) {
                seq![
                    finding(
                        c.path,
                        line_of(c.lines, "runs-on"@, start as int),
                        Severity::Warning,
                        "job "@ + name + " reads a plan from job "@ + producer + ", which runs on "@ + runs_on_of(pj)
                            + ", but this job runs on "@ + runs_on_of(job)
                            + "; a plan authorizes selectors only on its own platform, so plan again in this job"@,
                    ),
                ]
            } else {
                seq![]
            },
            None => seq![],
        }
    }
}

/// Whether the job of that name runs the planner itself.
pub open spec fn plans_itself(facts: Seq<(Seq<char>, FactsV)>, name: Seq<char>) -> bool {
    facts_get(facts, name) matches Some(f) && f.plans
}

/// The findings the second pass adds for one job.
pub open spec fn job_cross_findings(
    c: AuditContext,
    facts: Seq<(Seq<char>, FactsV)>,
    jobs: Seq<(Seq<char>, JsonV)>,
    name: Seq<char>,
    job: JsonV,
) -> Seq<FindingV> {
    let start = job_line_of(c.lines, name);
    needs_findings(c, name, start, facts, sorted_pairs(expressions_in(json_strings(job), "needs."@))) + if reads_plan(
        job,
    ) && !plans_itself(facts, name) {
        platform_findings(c, name, start, facts, jobs, job, needs_of(job))
    } else {
        seq![]
    }
}

/// What the second pass adds for the first `n` jobs: findings and conditions.
pub open spec fn second_pass(
    c: AuditContext,
    facts: Seq<(Seq<char>, FactsV)>,
    jobs: Seq<(Seq<char>, JsonV)>,
    n: nat,
) -> (Seq<FindingV>, Seq<ConditionV>)
    decreases n,
{
    if n == 0 || n > jobs.len() {
        (seq![], seq![])
    } else {
        let p = second_pass(c, facts, jobs, (n - 1) as nat);
        let name = jobs[n - 1].0;
        let job = jobs[n - 1].1;
        if job is Object {
            (
                p.0 + job_cross_findings(c, facts, jobs, name, job),
                p.1 + condition_of(c, name, job_line_of(c.lines, name), facts, job),
            )
        } else {
            p
        }
    }
}

fn needs_check(
    audit: &mut Audit,
    path: &str,
    lines: &Vec<Vec<char>>,
    name: &str,
    start: usize,
    facts: &Vec<(String, JobFacts)>,
    pairs: &Vec<(String, String)>,
)
    ensures
        forall|ifs: Seq<InterfaceV>| findings_view(final(audit).findings@) == findings_view(old(audit).findings@)
            + needs_findings(
            AuditContext { path: path@, lines: lines_view(lines@), ifs },
            name@,
            start as nat,
            named_facts_view(facts@),
            pairs_view(pairs@),
        ),
        final(audit).references@ == old(audit).references@,
        final(audit).conditions@ == old(audit).conditions@,
{
    let ghost before = findings_view(audit.findings@);
    let mut i: usize = 0;
    while i < pairs.len()
        invariant
            i <= pairs@.len(),
            forall|ifs: Seq<InterfaceV>| findings_view(audit.findings@) == before + needs_findings(
                AuditContext { path: path@, lines: lines_view(lines@), ifs },
                name@,
                start as nat,
                named_facts_view(facts@),
                pairs_view(pairs@).take(i as int),
            ),
            audit.references@ == old(audit).references@,
            audit.conditions@ == old(audit).conditions@,
        decreases pairs@.len() - i,
    {
        let ghost prefix = pairs_view(pairs@).take(i + 1);
        let ghost mid = findings_view(audit.findings@);
        proof {
            assert(prefix.drop_last() =~= pairs_view(pairs@).take(i as int));
            assert(prefix.last() == (pairs@[i as int].0@, pairs@[i as int].1@));
        }
        let producer = pairs[i].0.as_str();
        let output = pairs[i].1.as_str();
        let mut missing = false;
        match facts_for(facts, producer) {
            Some(pf) => {
                if pf.steps.len() > 0 && !crate::plan_validation::str_in(&pf.exports, output) {
                    missing = true;
                }
            },
            None => {},
        }
        if missing {
            let mut needle = crate::text::owned("needs.");
            push_str(&mut needle, producer);
            push_str(&mut needle, ".outputs.");
            push_str(&mut needle, output);
            let line = locate(lines, needle.as_str(), start);
            let mut m = crate::text::owned("job ");
            push_str(&mut m, name);
            push_str(&mut m, " reads needs.");
            push_str(&mut m, producer);
            push_str(&mut m, ".outputs.");
            push_str(&mut m, output);
            push_str(&mut m, ", which job ");
            push_str(&mut m, producer);
            push_str(&mut m, " does not export; GitHub evaluates it as empty");
            proof {
                assert(needle@ =~= "needs."@ + producer@ + ".outputs."@ + output@);
                assert(m@ =~= "job "@ + name@ + " reads needs."@ + producer@ + ".outputs."@ + output@ + ", which job "@
                    + producer@ + " does not export; GitHub evaluates it as empty"@);
            }
            push_finding(audit, path, line, Severity::Error, m);
        }
        proof {
            assert forall|ifs: Seq<InterfaceV>| findings_view(audit.findings@) == before + needs_findings(
                AuditContext { path: path@, lines: lines_view(lines@), ifs },
                name@,
                start as nat,
                named_facts_view(facts@),
                prefix,
            ) by {
                assert(findings_view(audit.findings@) =~= before + needs_findings(
                    AuditContext { path: path@, lines: lines_view(lines@), ifs },
                    name@,
                    start as nat,
                    named_facts_view(facts@),
                    prefix,
                ));
            }
        }
        i = i + 1;
    }
    proof {
        assert(pairs_view(pairs@).take(i as int) =~= pairs_view(pairs@));
    }
}

fn condition_check(
    audit: &mut Audit,
    path: &str,
    lines: &Vec<Vec<char>>,
    name: &str,
    start: usize,
    facts: &Vec<(String, JobFacts)>,
    job: &Json,
)
    ensures
        forall|ifs: Seq<InterfaceV>| conditions_view(final(audit).conditions@) == conditions_view(old(audit).conditions@)
            + condition_of(
            AuditContext { path: path@, lines: lines_view(lines@), ifs },
            name@,
            start as nat,
            named_facts_view(facts@),
            job@,
        ),
        final(audit).references@ == old(audit).references@,
        final(audit).findings@ == old(audit).findings@,
{
    let ghost before = conditions_view(audit.conditions@);
    let cond = match job.get("if") {
        Some(value) => match value.as_str() {
            Some(text) => text,
            None => {
                proof {
                    assert(before =~= before + seq![]);
                }
                return;
            },
        },
        None => {
            proof {
                assert(before =~= before + seq![]);
            }
            return;
        },
    };
    let mut one: Vec<String> = Vec::new();
    one.push(crate::text::owned(cond));
    proof {
        assert(strs_view(one@) =~= seq![cond@]);
        reveal_strlit("needs.");
    }
    let pairs = expressions(&one, "needs.");
    let ghost set = expressions_in(seq![cond@], "needs."@);
    let ghost fv = named_facts_view(facts@);
    let mut found = false;
    let mut i: usize = 0;
    while i < pairs.len()
        invariant
            i <= pairs@.len(),
            fv == named_facts_view(facts@),
            forall|x: (Seq<char>, Seq<char>)| pairs_view(pairs@).contains(x) <==> set.contains(x),
            found ==> exists|p: (Seq<char>, Seq<char>)| #[trigger] set.contains(p) && uses_action(fv, p.0),
            !found ==> forall|k: int| 0 <= k < i ==> !uses_action(fv, (#[trigger] pairs_view(pairs@)[k]).0),
        decreases pairs@.len() - i,
    {
        let producer = pairs[i].0.as_str();
        let ghost p = pairs_view(pairs@)[i as int];
        proof {
            assert(p.0 == producer@);
            assert(pairs_view(pairs@).contains(p));
        }
        match facts_for(facts, producer) {
            Some(pf) => {
                if pf.steps.len() > 0 {
                    proof {
                        assert(set.contains(p) && uses_action(fv, p.0));
                    }
                    found = true;
                }
            },
            None => {},
        }
        i = i + 1;
    }
    proof {
        if !found {
            assert forall|p: (Seq<char>, Seq<char>)| #[trigger] set.contains(p) implies !uses_action(fv, p.0) by {
                assert(pairs_view(pairs@).contains(p));
                let k = choose|k: int| 0 <= k < pairs_view(pairs@).len() && pairs_view(pairs@)[k] == p;
            }
        }
    }
    if found {
        let line = locate(lines, "if:", start);
        let trimmed = trim_chars(&chars_of(cond));
        audit.conditions.push(
            Condition {
                file: crate::text::owned(path),
                line,
                job: crate::text::owned(name),
                condition: string_of(&trimmed),
            },
        );
        proof {
            assert(conditions_view(audit.conditions@) =~= before.push(audit.conditions@.last()@));
        }
    } else {
        proof {
            assert(before =~= before + seq![]);
        }
    }
}

/// Whether some text runs a plan selector.
fn any_reads_plan(strings: &Vec<String>) -> (r: bool)
    ensures
        r == exists|i: int| 0 <= i < strs_view(strings@).len() && contains_text(
            #[trigger] strs_view(strings@)[i],
            "cargo-rail-action plan "@,
        ),
{
    let mut i: usize = 0;
    while i < strings.len()
        invariant
            i <= strings@.len(),
            forall|k: int| 0 <= k < i ==> !contains_text(#[trigger] strs_view(strings@)[k], "cargo-rail-action plan "@),
        decreases strings@.len() - i,
    {
        if crate::workflow_text::contains_str(strings[i].as_str(), "cargo-rail-action plan ") {
            proof {
                assert(strs_view(strings@)[i as int] == strings@[i as int]@);
            }
            return true;
        }
        proof {
            assert(strs_view(strings@)[i as int] == strings@[i as int]@);
        }
        i = i + 1;
    }
    false
}

fn platform_check(
    audit: &mut Audit,
    path: &str,
    lines: &Vec<Vec<char>>,
    name: &str,
    start: usize,
    facts: &Vec<(String, JobFacts)>,
    jobs: &Json,
    job: &Json,
    producers: &Vec<String>,
)
    requires
        jobs@ is Object,
    ensures
        forall|ifs: Seq<InterfaceV>| findings_view(final(audit).findings@) == findings_view(old(audit).findings@)
            + platform_findings(
            AuditContext { path: path@, lines: lines_view(lines@), ifs },
            name@,
            start as nat,
            named_facts_view(facts@),
            jobs@->Object_0,
            job@,
            strs_view(producers@),
        ),
        final(audit).references@ == old(audit).references@,
        final(audit).conditions@ == old(audit).conditions@,
{
    let ghost before = findings_view(audit.findings@);
    let consumer = runs_on(job);
    let mut i: usize = 0;
    while i < producers.len()
        invariant
            i <= producers@.len(),
            jobs@ is Object,
            consumer@ == runs_on_of(job@),
            forall|ifs: Seq<InterfaceV>| findings_view(audit.findings@) == before + platform_findings(
                AuditContext { path: path@, lines: lines_view(lines@), ifs },
                name@,
                start as nat,
                named_facts_view(facts@),
                jobs@->Object_0,
                job@,
                strs_view(producers@).take(i as int),
            ),
            audit.references@ == old(audit).references@,
            audit.conditions@ == old(audit).conditions@,
        decreases producers@.len() - i,
    {
        let ghost prefix = strs_view(producers@).take(i + 1);
        proof {
            assert(prefix.drop_last() =~= strs_view(producers@).take(i as int));
            assert(prefix.last() == producers@[i as int]@);
        }
        let producer = producers[i].as_str();
        let mut warn = false;
        let mut planner = String::new();
        match jobs.get(producer) {
            Some(pj) => {
                if pj.as_object().is_some() {
                    match facts_for(facts, producer) {
                        Some(pf) => {
                            if pf.plans {
                                planner = runs_on(pj);
                                if !crate::text::str_eq(consumer.as_str(), planner.as_str()) {
                                    warn = true;
                                }
                            }
                        },
                        None => {},
                    }
                }
                proof {
                    if warn {
                        assert(planner@ == runs_on_of(pj@));
                    }
                }
            },
            None => {},
        }
        if warn {
            let line = locate(lines, "runs-on", start);
            let mut m = crate::text::owned("job ");
            push_str(&mut m, name);
            push_str(&mut m, " reads a plan from job ");
            push_str(&mut m, producer);
            push_str(&mut m, ", which runs on ");
            push_str(&mut m, planner.as_str());
            push_str(&mut m, ", but this job runs on ");
            push_str(&mut m, consumer.as_str());
            push_str(&mut m, "; a plan authorizes selectors only on its own platform, so plan again in this job");
            push_finding(audit, path, line, Severity::Warning, m);
        }
        proof {
            assert forall|ifs: Seq<InterfaceV>| findings_view(audit.findings@) == before + platform_findings(
                AuditContext { path: path@, lines: lines_view(lines@), ifs },
                name@,
                start as nat,
                named_facts_view(facts@),
                jobs@->Object_0,
                job@,
                prefix,
            ) by {
                assert(findings_view(audit.findings@) =~= before + platform_findings(
                    AuditContext { path: path@, lines: lines_view(lines@), ifs },
                    name@,
                    start as nat,
                    named_facts_view(facts@),
                    jobs@->Object_0,
                    job@,
                    prefix,
                ));
            }
        }
        i = i + 1;
    }
    proof {
        assert(strs_view(producers@).take(i as int) =~= strs_view(producers@));
    }
}

/// What auditing a workflow adds: findings and references of the first pass, then the findings
/// of the second, and the conditions that read the Action's outputs.
pub struct WorkflowOutcome {
    pub findings: Seq<FindingV>,
    pub references: Seq<ReferenceV>,
    pub conditions: Seq<ConditionV>,
}

/// What auditing a workflow with these jobs adds.
pub open spec fn workflow_outcome(c: AuditContext, jobs: Seq<(Seq<char>, JsonV)>) -> WorkflowOutcome {
    let p = first_pass(c, jobs, jobs.len());
    let q = second_pass(c, p.facts, jobs, jobs.len());
    WorkflowOutcome { findings: p.findings + q.0, references: p.references, conditions: q.1 }
}

/// Audits every job of a workflow, then what each job reads of the jobs it needs.
fn audit_workflow(audit: &mut Audit, path: &str, lines: &Vec<Vec<char>>, ifs: &Vec<Interface>, jobs: &Json)
    requires
        jobs@ is Object,
    ensures
        ({
            let o = workflow_outcome(
                AuditContext { path: path@, lines: lines_view(lines@), ifs: interfaces_view(ifs@) },
                jobs@->Object_0,
            );
            &&& findings_view(final(audit).findings@) == findings_view(old(audit).findings@) + o.findings
            &&& references_view(final(audit).references@) == references_view(old(audit).references@)
                + o.references
            &&& conditions_view(final(audit).conditions@) == conditions_view(old(audit).conditions@)
                + o.conditions
        }),
{
    let ghost c = AuditContext { path: path@, lines: lines_view(lines@), ifs: interfaces_view(ifs@) };
    let ghost f0 = findings_view(audit.findings@);
    let ghost r0 = references_view(audit.references@);
    let ghost c0 = conditions_view(audit.conditions@);
    let entries = match jobs.as_object() {
        Some(entries) => entries,
        None => return,
    };
    let ghost values = entries_view(entries@);
    proof {
        lemma_entries(entries@, entries@.len());
        assert(jobs@->Object_0 == values);
        assert(f0 =~= f0 + seq![]);
        assert(r0 =~= r0 + seq![]);
    }
    let mut facts: Vec<(String, JobFacts)> = Vec::new();
    let mut i: usize = 0;
    while i < entries.len()
        invariant
            i <= entries@.len(),
            c == (AuditContext { path: path@, lines: lines_view(lines@), ifs: interfaces_view(ifs@) }),
            values == entries_view(entries@),
            values.len() == entries@.len(),
            forall|k: int| 0 <= k < entries@.len() ==> #[trigger] values[k] == (entries@[k].0@, jv(entries@[k].1)),
            ({
                let p = first_pass(c, values, i as nat);
                &&& findings_view(audit.findings@) == f0 + p.findings
                &&& references_view(audit.references@) == r0 + p.references
                &&& named_facts_view(facts@) == p.facts
            }),
            conditions_view(audit.conditions@) == c0,
        decreases entries@.len() - i,
    {
        let ghost before_f = findings_view(audit.findings@);
        let ghost before_r = references_view(audit.references@);
        let job = &entries[i].1;
        if job.as_object().is_some() {
            let found = audit_job(audit, path, lines, ifs, entries[i].0.as_str(), job);
            facts.push((crate::text::owned(entries[i].0.as_str()), found));
            proof {
                let p = first_pass(c, values, i as nat);
                let o = job_outcome(c, values[i as int].0, values[i as int].1);
                assert(findings_view(audit.findings@) =~= f0 + (p.findings + o.findings));
                assert(references_view(audit.references@) =~= r0 + (p.references + o.references));
                assert(named_facts_view(facts@) =~= p.facts.push((values[i as int].0, o.facts)));
            }
        }
        i = i + 1;
    }
    let ghost p = first_pass(c, values, values.len());
    proof {
        assert(f0 + p.findings =~= f0 + p.findings + seq![]);
        assert(c0 =~= c0 + seq![]);
    }
    let mut i: usize = 0;
    while i < entries.len()
        invariant
            i <= entries@.len(),
            jobs@ is Object,
            jobs@->Object_0 == values,
            c == (AuditContext { path: path@, lines: lines_view(lines@), ifs: interfaces_view(ifs@) }),
            values == entries_view(entries@),
            values.len() == entries@.len(),
            forall|k: int| 0 <= k < entries@.len() ==> #[trigger] values[k] == (entries@[k].0@, jv(entries@[k].1)),
            p == first_pass(c, values, values.len()),
            named_facts_view(facts@) == p.facts,
            ({
                let q = second_pass(c, p.facts, values, i as nat);
                &&& findings_view(audit.findings@) == f0 + p.findings + q.0
                &&& conditions_view(audit.conditions@) == c0 + q.1
            }),
            references_view(audit.references@) == r0 + p.references,
        decreases entries@.len() - i,
    {
        let ghost mid_f = findings_view(audit.findings@);
        let ghost mid_c = conditions_view(audit.conditions@);
        let name = entries[i].0.as_str();
        let job = &entries[i].1;
        if job.as_object().is_some() {
            let start = job_line(lines, name);
            let mut strings: Vec<String> = Vec::new();
            collect_strings(job, &mut strings);
            proof {
                assert(strs_view(strings@) =~= json_strings(job@));
                reveal_strlit("needs.");
            }
            let pairs = expressions(&strings, "needs.");
            needs_check(audit, path, lines, name, start, &facts, &pairs);
            condition_check(audit, path, lines, name, start, &facts, job);
            let ghost after_needs = findings_view(audit.findings@);
            let reads = any_reads_plan(&strings);
            let own = match facts_for(&facts, name) {
                Some(f) => f.plans,
                None => false,
            };
            if reads && !own {
                let producers = needs(job);
                platform_check(audit, path, lines, name, start, &facts, jobs, job, &producers);
            }
            proof {
                let q = second_pass(c, p.facts, values, i as nat);
                let nf = needs_findings(c, name@, start as nat, p.facts, sorted_pairs(expressions_in(json_strings(job@), "needs."@)));
                let pf = if reads_plan(job@) && !plans_itself(p.facts, name@) {
                    platform_findings(c, name@, start as nat, p.facts, values, job@, needs_of(job@))
                } else {
                    seq![]
                };
                assert(after_needs == mid_f + nf);
                assert(findings_view(audit.findings@) =~= f0 + p.findings + (q.0 + (nf + pf)));
                assert(conditions_view(audit.conditions@) =~= c0 + (q.1 + condition_of(c, name@, start as nat, p.facts, job@)));
            }
        }
        i = i + 1;
    }
}

/// The name under which the steps of a composite action are audited.
pub open spec fn composite_name() -> Seq<char> {
    "(composite action)"@
}

/// The view of a parse result: the document, or the parser's message.
pub open spec fn parsed_view(parsed: Result<Json, String>) -> Result<JsonV, Seq<char>> {
    match parsed {
        Ok(v) => Ok(v@),
        Err(e) => Err(e@),
    }
}

/// Whether the text names the Action, case-insensitively.
pub open spec fn mentions_owner(text: Seq<char>) -> bool {
    contains_text(ascii_lower(text), OWNER@)
}

/// What auditing one file adds. A file that does not name the Action adds nothing; one that does
/// but is not valid YAML adds an error on its first line; a workflow adds what its jobs do; a
/// composite action adds what its steps do as one job; anything else adds a warning at the first
/// line naming the Action.
pub open spec fn file_outcome(
    path: Seq<char>,
    text: Seq<char>,
    parsed: Result<JsonV, Seq<char>>,
    ifs: Seq<InterfaceV>,
) -> WorkflowOutcome {
    let c = AuditContext { path, lines: crate::text::spec_lines(text), ifs };
    let none = WorkflowOutcome { findings: seq![], references: seq![], conditions: seq![] };
    if !mentions_owner(text) {
        none
    } else {
        match parsed {
            Err(e) => WorkflowOutcome {
                findings: seq![
                    finding(
                        path,
                        1,
                        Severity::Error,
                        "references "@ + OWNER@ + " but is not valid YAML, so it was not audited: "@ + e,
                    ),
                ],
                ..none
            },
            Ok(v) => match get(v, "jobs"@) {
                Some(JsonV::Object(jobs)) => workflow_outcome(c, jobs),
                _ => {
                    let steps = match get(v, "runs"@) {
                        Some(runs) => get(runs, "steps"@),
                        None => None,
                    };
                    match steps {
                        Some(JsonV::Array(items)) => {
                            let o = job_outcome(
                                c,
                                composite_name(),
                                JsonV::Object(seq![("steps"@, JsonV::Array(items))]),
                            );
                            WorkflowOutcome { findings: o.findings, references: o.references, conditions: seq![] }
                        },
                        _ => WorkflowOutcome {
                            findings: seq![
                                finding(
                                    path,
                                    line_of(c.lines, OWNER@, 0),
                                    Severity::Warning,
                                    "mentions "@ + OWNER@ + " outside a workflow job or composite action step"@,
                                ),
                            ],
                            ..none
                        },
                    }
                },
            },
        }
    }
}

/// Whether the text names the Action, case-insensitively; only such files are parsed and audited.
pub fn names_action(text: &str) -> (r: bool)
    ensures
        r == mentions_owner(text@),
{
    let lower = lower_chars(&chars_of(text));
    let owner = chars_of(OWNER);
    contains_chars(&lower, &owner)
}

/// Audits one YAML file of the repository, given its path, its text and what parsing the text
/// gave: the document, or the parser's message.
pub fn audit_file(audit: &mut Audit, path: &str, text: &str, parsed: &Result<Json, String>, ifs: &Vec<Interface>)
    ensures
        ({
            let o = file_outcome(path@, text@, parsed_view(*parsed), interfaces_view(ifs@));
            &&& findings_view(final(audit).findings@) == findings_view(old(audit).findings@) + o.findings
            &&& references_view(final(audit).references@) == references_view(old(audit).references@)
                + o.references
            &&& conditions_view(final(audit).conditions@) == conditions_view(old(audit).conditions@)
                + o.conditions
        }),
{
    let ghost f0 = findings_view(audit.findings@);
    let ghost r0 = references_view(audit.references@);
    let ghost c0 = conditions_view(audit.conditions@);
    proof {
        assert(f0 =~= f0 + seq![]);
        assert(r0 =~= r0 + seq![]);
        assert(c0 =~= c0 + seq![]);
    }
    if !names_action(text) {
        return;
    }
    let value = match parsed {
        Err(error) => {
            let mut m = crate::text::owned("references ");
            push_str(&mut m, OWNER);
            push_str(&mut m, " but is not valid YAML, so it was not audited: ");
            push_str(&mut m, error.as_str());
            push_finding(audit, path, 1, Severity::Error, m);
            return;
        },
        Ok(value) => value,
    };
    let lines = crate::text::lines_of(&chars_of(text));
    proof {
        assert(lines_view(lines@) =~= crate::text::spec_lines(text@));
    }
    match value.get("jobs") {
        Some(jobs) => {
            if jobs.as_object().is_some() {
                audit_workflow(audit, path, &lines, ifs, jobs);
                return;
            }
        },
        None => {},
    }
    let steps = match value.get("runs") {
        Some(runs) => runs.get("steps"),
        None => None,
    };
    match steps {
        Some(items) => {
            if items.as_array().is_some() {
                let entries = vec![(crate::text::owned("steps"), crate::json::clone_json(items))];
                proof {
                    lemma_entries(entries@, entries@.len());
                    assert(entries_view(entries@) =~= seq![("steps"@, items@)]);
                }
                let job = Json::Object(entries);
                let _ = audit_job(audit, path, &lines, ifs, "(composite action)", &job);
                proof {
                    assert(conditions_view(audit.conditions@) =~= c0 + seq![]);
                }
                return;
            }
        },
        None => {},
    }
    let line = locate(&lines, OWNER, 0);
    let mut m = crate::text::owned("mentions ");
    push_str(&mut m, OWNER);
    push_str(&mut m, " outside a workflow job or composite action step");
    push_finding(audit, path, line, Severity::Warning, m);
}

} // verus!
