//! Repository-wide audit of Cargo-Rail Action references in workflow and composite-action YAML.
//!
//! The YAML documents arrive here parsed into [`Json`]; each reference to the Action is checked
//! against the interface of the action it names. A step output, job output or `needs` consumer
//! that the interface does not provide is an error: GitHub evaluates it as an empty string.

use vstd::prelude::*;

use crate::error::{ActionError, ErrorKind};
use crate::validation::{strs_view, text_lt, text_less};
use crate::github::{command_escape, property_escape, spec_command_escape, spec_property_escape};
use crate::text::{push_str, usize_text, decimal};
use crate::json::{entries_view, get, jv, lemma_entries, Json, JsonV};

verus! {

/// How serious a finding is; errors sort before warnings.
#[derive(Clone, Copy, PartialEq, Eq, Structural, Debug)]
pub enum Severity {
    Error,
    Warning,
}

/// One located problem in an audited file.
pub struct Finding {
    pub file: String,
    pub line: usize,
    pub severity: Severity,
    pub message: String,
}

/// The value of a finding.
pub struct FindingV {
    pub file: Seq<char>,
    pub line: usize,
    pub severity: Severity,
    pub message: Seq<char>,
}

impl View for Finding {
    type V = FindingV;

    open spec fn view(&self) -> FindingV {
        FindingV { file: self.file@, line: self.line, severity: self.severity, message: self.message@ }
    }
}

/// The values of a list of findings.
pub open spec fn findings_view(v: Seq<Finding>) -> Seq<FindingV> {
    v.map_values(|f: Finding| f@)
}

/// The word GitHub uses for a severity.
pub open spec fn spec_level(s: Severity) -> Seq<char> {
    match s {
        Severity::Error => "error"@,
        Severity::Warning => "warning"@,
    }
}

/// The number of error findings.
pub open spec fn error_count(v: Seq<FindingV>) -> nat
    decreases v.len(),
{
    if v.len() == 0 {
        0
    } else {
        error_count(v.drop_last()) + if v.last().severity == Severity::Error { 1nat } else { 0nat }
    }
}

/// The GitHub annotation of one finding.
pub open spec fn annotation(f: FindingV) -> Seq<char> {
    "::"@ + spec_level(f.severity) + " file="@ + spec_property_escape(f.file) + ",line="@ + decimal(
        f.line as nat,
    ) + "::"@ + spec_command_escape(f.message) + "\n"@
}

/// The annotations of all findings, one line each, in order.
pub open spec fn annotations_of(v: Seq<FindingV>) -> Seq<char>
    decreases v.len(),
{
    if v.len() == 0 {
        seq![]
    } else {
        annotations_of(v.drop_last()) + annotation(v.last())
    }
}

/// The repository of the Action, as `uses:` names it.
pub const OWNER: &'static str = "loadingalias/cargo-rail-action";

/// The major version of this release of the Action.
pub const CURRENT_MAJOR: u64 = 10;

/// The name of an action of this repository: the owner, then `/` and the path when there is one.
pub open spec fn action_name_of(action: Seq<char>) -> Seq<char> {
    if action.len() == 0 {
        OWNER@
    } else {
        OWNER@ + seq!['/'] + action
    }
}

/// The name of an action of this repository.
pub fn action_name(action: &str) -> (r: String)
    ensures
        r@ == action_name_of(action@),
{
    let mut out = String::new();
    push_str(&mut out, OWNER);
    if !action.is_empty() {
        crate::text::push_char(&mut out, '/');
        push_str(&mut out, action);
    }
    proof {
        assert(out@ =~= action_name_of(action@));
    }
    out
}

/// A reference to the Action found in a step.
pub struct Reference {
    pub file: String,
    pub line: usize,
    /// The path after the repository name; empty for the planner itself.
    pub action: String,
    pub reference: String,
    pub immutable: bool,
    pub major: Option<u64>,
    pub job: String,
    pub inputs: Vec<String>,
}

/// The value of a reference.
pub struct ReferenceV {
    pub file: Seq<char>,
    pub line: usize,
    pub action: Seq<char>,
    pub reference: Seq<char>,
    pub immutable: bool,
    pub major: Option<u64>,
    pub job: Seq<char>,
    pub inputs: Seq<Seq<char>>,
}

impl View for Reference {
    type V = ReferenceV;

    open spec fn view(&self) -> ReferenceV {
        ReferenceV {
            file: self.file@,
            line: self.line,
            action: self.action@,
            reference: self.reference@,
            immutable: self.immutable,
            major: self.major,
            job: self.job@,
            inputs: crate::validation::strs_view(self.inputs@),
        }
    }
}

/// The values of a list of references.
pub open spec fn references_view(v: Seq<Reference>) -> Seq<ReferenceV> {
    v.map_values(|r: Reference| r@)
}

/// A job condition that reads outputs of a job using the Action.
pub struct Condition {
    pub file: String,
    pub line: usize,
    pub job: String,
    pub condition: String,
}

/// The value of a condition.
pub struct ConditionV {
    pub file: Seq<char>,
    pub line: usize,
    pub job: Seq<char>,
    pub condition: Seq<char>,
}

impl View for Condition {
    type V = ConditionV;

    open spec fn view(&self) -> ConditionV {
        ConditionV { file: self.file@, line: self.line, job: self.job@, condition: self.condition@ }
    }
}

/// The values of a list of conditions.
pub open spec fn conditions_view(v: Seq<Condition>) -> Seq<ConditionV> {
    v.map_values(|c: Condition| c@)
}

/// The inputs and outputs an action of this repository declares.
pub struct Interface {
    /// The path after the repository name; empty for the planner.
    pub action: String,
    pub inputs: Vec<String>,
    pub outputs: Vec<String>,
}

/// The value of an interface.
pub struct InterfaceV {
    pub action: Seq<char>,
    pub inputs: Seq<Seq<char>>,
    pub outputs: Seq<Seq<char>>,
}

impl View for Interface {
    type V = InterfaceV;

    open spec fn view(&self) -> InterfaceV {
        InterfaceV {
            action: self.action@,
            inputs: crate::validation::strs_view(self.inputs@),
            outputs: crate::validation::strs_view(self.outputs@),
        }
    }
}

/// The values of a list of interfaces.
pub open spec fn interfaces_view(v: Seq<Interface>) -> Seq<InterfaceV> {
    v.map_values(|i: Interface| i@)
}

/// The keys of entries, in order.
pub open spec fn entry_keys(entries: Seq<(Seq<char>, JsonV)>) -> Seq<Seq<char>>
    decreases entries.len(),
{
    if entries.len() == 0 {
        seq![]
    } else {
        entry_keys(entries.drop_last()).push(entries.last().0)
    }
}

/// The keys of an object, in order; none for anything else.
pub open spec fn object_keys(v: Option<JsonV>) -> Seq<Seq<char>> {
    match v {
        Some(JsonV::Object(entries)) => entry_keys(entries),
        _ => seq![],
    }
}

/// The keys of an object, in order; none for anything else.
pub fn keys_of(v: Option<&Json>) -> (r: Vec<String>)
    ensures
        crate::validation::strs_view(r@) == object_keys(match v {
            Some(j) => Some(j@),
            None => None::<JsonV>,
        }),
{
    let mut out: Vec<String> = Vec::new();
    match v {
        Some(j) => match j.as_object() {
            Some(entries) => {
                let ghost values = entries_view(entries@);
                proof {
                    lemma_entries(entries@, entries@.len());
                }
                let mut i: usize = 0;
                while i < entries.len()
                    invariant
                        i <= entries@.len(),
                        values == entries_view(entries@),
                        values.len() == entries@.len(),
                        forall|k: int| 0 <= k < entries@.len() ==> #[trigger] values[k] == (entries@[k].0@, jv(entries@[k].1)),
                        crate::validation::strs_view(out@) == entry_keys(values.take(i as int)),
                    decreases entries@.len() - i,
                {
                    out.push(crate::text::owned(entries[i].0.as_str()));
                    proof {
                        assert(values[i as int].0 == entries@[i as int].0@);
                        assert(values.take(i + 1) =~= values.take(i as int).push(values[i as int]));
                        assert(values.take(i + 1).drop_last() =~= values.take(i as int));
                        assert(crate::validation::strs_view(out@) =~= entry_keys(values.take(i + 1)));
                    }
                    i = i + 1;
                }
                proof {
                    assert(values.take(i as int) == values);
                }
            },
            None => {
                proof {
                    assert(crate::validation::strs_view(out@) =~= seq![]);
                }
            },
        },
        None => {
            proof {
                assert(crate::validation::strs_view(out@) =~= seq![]);
            }
        },
    }
    out
}

impl Interface {
    /// The interface an action's metadata declares: the keys of its `inputs` and `outputs`
    /// objects.
    pub fn from_metadata(action: String, metadata: &Json) -> (r: Interface)
        ensures
            r@.action == action@,
            r@.inputs == object_keys(get(metadata@, "inputs"@)),
            r@.outputs == object_keys(get(metadata@, "outputs"@)),
    {
        let inputs = keys_of(metadata.get("inputs"));
        let outputs = keys_of(metadata.get("outputs"));
        Interface { action, inputs, outputs }
    }
}

/// The first interface of the given action.
pub open spec fn find_interface(ifs: Seq<InterfaceV>, action: Seq<char>) -> Option<InterfaceV>
    decreases ifs.len(),
{
    if ifs.len() == 0 {
        None
    } else if ifs[0].action == action {
        Some(ifs[0])
    } else {
        find_interface(ifs.drop_first(), action)
    }
}

proof fn lemma_find_interface(ifs: Seq<InterfaceV>, action: Seq<char>, i: int)
    requires
        0 <= i <= ifs.len(),
        forall|k: int| 0 <= k < i ==> (#[trigger] ifs[k]).action != action,
    ensures
        find_interface(ifs, action) == find_interface(ifs.skip(i), action),
    decreases i,
{
    if i > 0 {
        lemma_find_interface(ifs.drop_first(), action, i - 1);
        assert(ifs.drop_first().skip(i - 1) =~= ifs.skip(i));
    } else {
        assert(ifs.skip(0) =~= ifs);
    }
}

/// The first interface of the given action.
pub fn interface_for<'a>(ifs: &'a Vec<Interface>, action: &str) -> (r: Option<&'a Interface>)
    ensures
        r matches Some(i) ==> find_interface(interfaces_view(ifs@), action@) == Some(i@),
        r is None ==> find_interface(interfaces_view(ifs@), action@) is None,
{
    let ghost view = interfaces_view(ifs@);
    let mut i: usize = 0;
    while i < ifs.len()
        invariant
            i <= ifs@.len(),
            view == interfaces_view(ifs@),
            forall|k: int| 0 <= k < i ==> (#[trigger] view[k]).action != action@,
        decreases ifs@.len() - i,
    {
        if crate::text::str_eq(ifs[i].action.as_str(), action) {
            proof {
                lemma_find_interface(view, action@, i as int);
                assert(view.skip(i as int)[0] == view[i as int]);
            }
            return Some(&ifs[i]);
        }
        i = i + 1;
    }
    proof {
        lemma_find_interface(view, action@, i as int);
        assert(view.skip(i as int).len() == 0);
    }
    None
}

/// What the audit found: every reference, the conditions that read the Action's outputs, and
/// the findings.
pub struct Audit {
    pub references: Vec<Reference>,
    pub conditions: Vec<Condition>,
    pub findings: Vec<Finding>,
}

impl Audit {
    /// An audit of nothing.
    pub fn new() -> (a: Audit)
        ensures
            a.references@.len() == 0,
            a.conditions@.len() == 0,
            a.findings@.len() == 0,
    {
        Audit { references: Vec::new(), conditions: Vec::new(), findings: Vec::new() }
    }

    /// The number of error findings.
    pub fn errors(&self) -> (n: usize)
        ensures
            n == error_count(findings_view(self.findings@)),
    {
        let mut n: usize = 0;
        let mut i: usize = 0;
        while i < self.findings.len()
            invariant
                i <= self.findings@.len(),
                n == error_count(findings_view(self.findings@.take(i as int))),
                n <= i,
            decreases self.findings@.len() - i,
        {
            proof {
                assert(findings_view(self.findings@.take(i + 1)).drop_last() == findings_view(
                    self.findings@.take(i as int),
                ));
            }
            if self.findings[i].severity == Severity::Error {
                n = n + 1;
            }
            i = i + 1;
        }
        proof {
            assert(self.findings@.take(self.findings@.len() as int) == self.findings@);
        }
        n
    }

    /// GitHub annotations for every finding, located at its file and line.
    pub fn annotations(&self) -> (text: String)
        ensures
            text@ == annotations_of(findings_view(self.findings@)),
    {
        let mut out = String::new();
        let mut i: usize = 0;
        while i < self.findings.len()
            invariant
                i <= self.findings@.len(),
                out@ == annotations_of(findings_view(self.findings@.take(i as int))),
            decreases self.findings@.len() - i,
        {
            proof {
                assert(findings_view(self.findings@.take(i + 1)).drop_last() == findings_view(
                    self.findings@.take(i as int),
                ));
            }
            let finding = &self.findings[i];
            push_str(&mut out, "::");
            push_str(&mut out, level(finding.severity));
            push_str(&mut out, " file=");
            let file = property_escape(finding.file.as_str());
            push_str(&mut out, file.as_str());
            push_str(&mut out, ",line=");
            let line = usize_text(finding.line);
            push_str(&mut out, line.as_str());
            push_str(&mut out, "::");
            let message = command_escape(finding.message.as_str());
            push_str(&mut out, message.as_str());
            push_str(&mut out, "\n");
            i = i + 1;
        }
        proof {
            assert(self.findings@.take(self.findings@.len() as int) == self.findings@);
        }
        out
    }
}

/// The word GitHub uses for a severity.
pub fn level(s: Severity) -> (r: &'static str)
    ensures
        r@ == spec_level(s),
{
    match s {
        Severity::Error => "error",
        Severity::Warning => "warning",
    }
}

/// The rank of a severity in the order of findings: errors first.
pub open spec fn severity_rank(s: Severity) -> nat {
    match s {
        Severity::Error => 0,
        Severity::Warning => 1,
    }
}

/// The order of findings: by file, then line, then severity, then message.
pub open spec fn finding_lt(a: FindingV, b: FindingV) -> bool {
    text_lt(a.file, b.file) || (a.file == b.file && (a.line < b.line || (a.line == b.line && (severity_rank(a.severity)
        < severity_rank(b.severity) || (a.severity == b.severity && text_lt(a.message, b.message))))))
}

/// Each finding sorts no later than the next.
pub open spec fn findings_sorted(v: Seq<FindingV>) -> bool {
    forall|k: int| 0 < k < v.len() ==> finding_lt(v[k - 1], #[trigger] v[k]) || v[k - 1] == v[k]
}

fn finding_less(a: &Finding, b: &Finding) -> (r: bool)
    ensures
        r == finding_lt(a@, b@),
{
    if text_less(a.file.as_str(), b.file.as_str()) {
        return true;
    }
    if !crate::text::str_eq(a.file.as_str(), b.file.as_str()) {
        return false;
    }
    if a.line != b.line {
        return a.line < b.line;
    }
    let ra: u8 = match a.severity {
        Severity::Error => 0,
        Severity::Warning => 1,
    };
    let rb: u8 = match b.severity {
        Severity::Error => 0,
        Severity::Warning => 1,
    };
    if ra != rb {
        return ra < rb;
    }
    text_less(a.message.as_str(), b.message.as_str())
}

proof fn lemma_finding_total(a: FindingV, b: FindingV)
    ensures
        finding_lt(a, b) || finding_lt(b, a) || a == b,
{
    if a.file != b.file {
        crate::validation::lemma_text_lt_total(a.file, b.file);
    } else if a.message != b.message {
        crate::validation::lemma_text_lt_total(a.message, b.message);
    }
}

impl Audit {
    /// Sorts the findings by file, line, severity and message.
    pub fn sort_findings(&mut self)
        ensures
            findings_sorted(findings_view(final(self).findings@)),
            findings_view(final(self).findings@).to_multiset() == findings_view(old(self).findings@).to_multiset(),
            final(self).references@ == old(self).references@,
            final(self).conditions@ == old(self).conditions@,
    {
        let mut pending: Vec<Finding> = Vec::new();
        std::mem::swap(&mut pending, &mut self.findings);
        let ghost input = findings_view(pending@);
        let mut sorted: Vec<Finding> = Vec::new();
        let mut rest = pending;
        proof {
            broadcast use vstd::seq_lib::group_to_multiset_ensures, vstd::multiset::group_multiset_axioms;

            assert(findings_view(sorted@) =~= Seq::<FindingV>::empty());
            assert(findings_view(sorted@).to_multiset() =~= vstd::multiset::Multiset::<FindingV>::empty());
            assert(findings_view(rest@) == input);
        }
        while rest.len() > 0
            invariant
                findings_sorted(findings_view(sorted@)),
                findings_view(sorted@).to_multiset().add(findings_view(rest@).to_multiset()) == input.to_multiset(),
            decreases rest@.len(),
        {
            let ghost before_rest = findings_view(rest@);
            let x = rest.pop().unwrap();
            let ghost xv = x@;
            proof {
                assert(before_rest =~= findings_view(rest@).push(xv));
                vstd::seq_lib::to_multiset_build(findings_view(rest@), xv);
            }
            let ghost before = findings_view(sorted@);
            let mut i: usize = 0;
            while i < sorted.len() && !finding_less(&x, &sorted[i])
                invariant
                    i <= sorted@.len(),
                    before == findings_view(sorted@),
                    findings_sorted(before),
                    xv == x@,
                    i > 0 ==> finding_lt(before[i - 1], xv) || before[i - 1] == xv,
                decreases sorted@.len() - i,
            {
                proof {
                    lemma_finding_total(xv, before[i as int]);
                }
                i = i + 1;
            }
            sorted.insert(i, x);
            proof {
                let after = findings_view(sorted@);
                assert(after =~= before.insert(i as int, xv));
                vstd::seq_lib::to_multiset_insert(before, i as int, xv);
                assert forall|k: int| 0 < k < after.len() implies finding_lt(after[k - 1], #[trigger] after[k])
                    || after[k - 1] == after[k] by {
                    if k < i {
                        assert(after[k - 1] == before[k - 1] && after[k] == before[k]);
                    } else if k == i {
                    } else if k == i + 1 {
                        assert(after[k] == before[i as int]);
                    } else {
                        assert(after[k - 1] == before[k - 2] && after[k] == before[k - 1]);
                    }
                }
                broadcast use vstd::multiset::group_multiset_axioms;

                assert(findings_view(sorted@).to_multiset().add(findings_view(rest@).to_multiset()) =~= input.to_multiset());
            }
        }
        proof {
            broadcast use vstd::seq_lib::group_to_multiset_ensures, vstd::multiset::group_multiset_axioms;

            assert(findings_view(rest@) =~= Seq::<FindingV>::empty());
            assert(findings_view(rest@).to_multiset() =~= vstd::multiset::Multiset::<FindingV>::empty());
            assert(findings_view(sorted@).to_multiset() =~= input.to_multiset());
        }
        self.findings = sorted;
    }
}

/// The largest file, in bytes, that the audit reads.
pub const MAX_FILE_BYTES: u64 = 4194304;

/// How a reference's version reads in the inventory.
pub open spec fn version_text(major: Option<u64>) -> Seq<char> {
    match major {
        Some(m) => seq!['v'] + decimal(m as nat),
        None => "unknown version"@,
    }
}

/// How a reference's pin reads in the inventory.
pub open spec fn pin_text(immutable: bool) -> Seq<char> {
    if immutable { "immutable"@ } else { "mutable"@ }
}

/// How a reference's inputs read in the inventory.
pub open spec fn inputs_text(inputs: Seq<Seq<char>>) -> Seq<char> {
    if inputs.len() == 0 { "none"@ } else { crate::plan_summary::join(inputs, ", "@) }
}

/// The inventory line of a reference.
pub open spec fn reference_line(r: ReferenceV) -> Seq<char> {
    "  "@ + r.file + seq![':'] + decimal(r.line as nat) + "  "@ + action_name_of(r.action) + seq!['@'] + r.reference
        + " ("@ + version_text(r.major) + ", "@ + pin_text(r.immutable) + ")  job "@ + r.job + "  inputs: "@
        + inputs_text(r.inputs) + seq!['\n']
}

/// The inventory lines of the references.
pub open spec fn reference_lines(v: Seq<ReferenceV>) -> Seq<char>
    decreases v.len(),
{
    if v.len() == 0 {
        seq![]
    } else {
        reference_lines(v.drop_last()) + reference_line(v.last())
    }
}

/// The inventory lines of the conditions.
pub open spec fn condition_lines(v: Seq<ConditionV>) -> Seq<char>
    decreases v.len(),
{
    if v.len() == 0 {
        seq![]
    } else {
        condition_lines(v.drop_last()) + "  "@ + v.last().file + seq![':'] + decimal(v.last().line as nat) + "  job "@
            + v.last().job + ": "@ + v.last().condition + seq!['\n']
    }
}

/// The lines of the findings.
pub open spec fn finding_lines(v: Seq<FindingV>) -> Seq<char>
    decreases v.len(),
{
    if v.len() == 0 {
        seq![]
    } else {
        finding_lines(v.drop_last()) + v.last().file + seq![':'] + decimal(v.last().line as nat) + ": "@ + spec_level(
            v.last().severity,
        ) + ": "@ + v.last().message + seq!['\n']
    }
}

/// The files of the references.
pub open spec fn reference_files(v: Seq<ReferenceV>) -> Seq<Seq<char>> {
    v.map_values(|r: ReferenceV| r.file)
}

/// The human inventory of an audit: a count of references and of the files they are in, one line
/// per reference, the conditions that read Cargo-Rail outputs, one line per finding, and the
/// counts of errors and warnings.
pub open spec fn spec_render(refs: Seq<ReferenceV>, conds: Seq<ConditionV>, findings: Seq<FindingV>) -> Seq<char> {
    let files = reference_files(refs).to_set().len();
    let errors = error_count(findings);
    "Cargo-Rail Action references: "@ + decimal(refs.len()) + " in "@ + decimal(files) + " file"@ + (if files == 1 {
        seq![]
    } else {
        seq!['s']
    }) + seq!['\n'] + reference_lines(refs) + (if conds.len() == 0 {
        seq![]
    } else {
        "Job conditions that read Cargo-Rail outputs:"@ + seq!['\n'] + condition_lines(conds)
    }) + finding_lines(findings) + decimal(errors) + " errors, "@ + decimal((findings.len() - errors) as nat)
        + " warnings"@ + seq!['\n']
}

proof fn lemma_error_count_bound(v: Seq<FindingV>)
    ensures
        error_count(v) <= v.len(),
    decreases v.len(),
{
    if v.len() > 0 {
        lemma_error_count_bound(v.drop_last());
    }
}

proof fn lemma_strictly_sorted_no_duplicates(l: Seq<Seq<char>>)
    requires
        crate::validation::strictly_sorted(l),
    ensures
        l.no_duplicates(),
{
    assert forall|i: int, j: int| 0 <= i < l.len() && 0 <= j < l.len() && i != j implies l[i] != l[j] by {
        let (a, b) = if i < j { (i, j) } else { (j, i) };
        lemma_sorted_global(l, a, b);
        crate::validation::lemma_text_lt_irreflexive(l[a]);
    }
}

proof fn lemma_sorted_global(l: Seq<Seq<char>>, i: int, j: int)
    requires
        crate::validation::strictly_sorted(l),
        0 <= i < j < l.len(),
    ensures
        text_lt(l[i], l[j]),
    decreases j - i,
{
    if j > i + 1 {
        lemma_sorted_global(l, i, j - 1);
        crate::workflow_text::lemma_text_lt_trans(l[i], l[j - 1], l[j]);
    }
}

fn version_string(major: Option<u64>) -> (r: String)
    ensures
        r@ == version_text(major),
{
    match major {
        Some(m) => {
            let mut out = crate::text::owned("v");
            push_str(&mut out, crate::text::u64_text(m).as_str());
            proof {
                reveal_strlit("v");
                assert(out@ =~= version_text(major));
            }
            out
        },
        None => crate::text::owned("unknown version"),
    }
}

fn inputs_string(inputs: &Vec<String>) -> (r: String)
    ensures
        r@ == inputs_text(strs_view(inputs@)),
{
    if inputs.len() == 0 {
        crate::text::owned("none")
    } else {
        crate::plan_summary::join_strings(inputs, ", ")
    }
}

#[verifier::rlimit(40)]
fn push_reference_line(out: &mut String, r: &Reference)
    ensures
        final(out)@ == old(out)@ + reference_line(r@),
{
    let ghost start = out@;
    let line = usize_text(r.line);
    let name = action_name(r.action.as_str());
    let version = version_string(r.major);
    let pin = if r.immutable { "immutable" } else { "mutable" };
    let inputs = inputs_string(&r.inputs);
    push_str(out, "  ");
    push_str(out, r.file.as_str());
    crate::text::push_char(out, ':');
    push_str(out, line.as_str());
    push_str(out, "  ");
    push_str(out, name.as_str());
    crate::text::push_char(out, '@');
    push_str(out, r.reference.as_str());
    let ghost mid = out@;
    proof {
        assert(mid =~= start + ("  "@ + r@.file + seq![':'] + decimal(r@.line as nat) + "  "@ + action_name_of(r@.action)
            + seq!['@'] + r@.reference));
    }
    push_str(out, " (");
    push_str(out, version.as_str());
    push_str(out, ", ");
    push_str(out, pin);
    push_str(out, ")  job ");
    push_str(out, r.job.as_str());
    push_str(out, "  inputs: ");
    push_str(out, inputs.as_str());
    crate::text::push_char(out, '\n');
    proof {
        assert(pin@ == pin_text(r.immutable));
        assert(out@ =~= mid + (" ("@ + version_text(r@.major) + ", "@ + pin_text(r@.immutable) + ")  job "@ + r@.job
            + "  inputs: "@ + inputs_text(r@.inputs) + seq!['\n']));
        assert(out@ =~= start + reference_line(r@));
    }
}

fn distinct_files(refs: &Vec<Reference>) -> (n: usize)
    ensures
        n as nat == reference_files(references_view(refs@)).to_set().len(),
{
    let mut files: Vec<String> = Vec::new();
    let mut i: usize = 0;
    while i < refs.len()
        invariant
            i <= refs@.len(),
            crate::validation::strictly_sorted(strs_view(files@)),
            forall|x: Seq<char>| strs_view(files@).contains(x) <==> reference_files(references_view(refs@)).take(
                i as int,
            ).contains(x),
        decreases refs@.len() - i,
    {
        let ghost before = strs_view(files@);
        crate::validation::insert_sorted(&mut files, crate::text::owned(refs[i].file.as_str()));
        proof {
            let t = reference_files(references_view(refs@)).take(i + 1);
            assert(t =~= reference_files(references_view(refs@)).take(i as int).push(refs@[i as int].file@));
            let prev = reference_files(references_view(refs@)).take(i as int);
            assert(t.last() == refs@[i as int].file@);
            assert forall|x: Seq<char>| strs_view(files@).contains(x) <==> t.contains(x) by {
                if t.contains(x) {
                    let k = choose|k: int| 0 <= k < t.len() && t[k] == x;
                    if k < i {
                        assert(prev[k] == x);
                        assert(prev.contains(x));
                        assert(before.contains(x));
                    }
                }
                if strs_view(files@).contains(x) {
                    if before.contains(x) {
                        assert(prev.contains(x));
                        let k = choose|k: int| 0 <= k < prev.len() && prev[k] == x;
                        assert(t[k] == x);
                    } else {
                        assert(t[i as int] == x);
                    }
                }
            }
        }
        i = i + 1;
    }
    let ghost fl = reference_files(references_view(refs@));
    proof {
        assert(fl.take(refs@.len() as int) =~= fl);
        lemma_strictly_sorted_no_duplicates(strs_view(files@));
        strs_view(files@).unique_seq_to_set();
        assert(strs_view(files@).to_set() =~= fl.to_set());
    }
    files.len()
}

fn push_reference_lines(out: &mut String, refs: &Vec<Reference>)
    ensures
        final(out)@ == old(out)@ + reference_lines(references_view(refs@)),
{
    let ghost head = out@;
    let mut i: usize = 0;
    while i < refs.len()
        invariant
            i <= refs@.len(),
            out@ == head + reference_lines(references_view(refs@).take(i as int)),
        decreases refs@.len() - i,
    {
        proof {
            assert(references_view(refs@).take(i + 1).drop_last() =~= references_view(refs@).take(i as int));
        }
        push_reference_line(out, &refs[i]);
        proof {
            assert(out@ =~= head + reference_lines(references_view(refs@).take(i + 1)));
        }
        i = i + 1;
    }
    proof {
        assert(references_view(refs@).take(i as int) =~= references_view(refs@));
    }
}

fn push_condition_lines(out: &mut String, conds: &Vec<Condition>)
    ensures
        final(out)@ == old(out)@ + condition_lines(conditions_view(conds@)),
{
    let ghost head = out@;
    let mut i: usize = 0;
    while i < conds.len()
        invariant
            i <= conds@.len(),
            out@ == head + condition_lines(conditions_view(conds@).take(i as int)),
        decreases conds@.len() - i,
    {
        proof {
            assert(conditions_view(conds@).take(i + 1).drop_last() =~= conditions_view(conds@).take(i as int));
        }
        let c = &conds[i];
        push_str(out, "  ");
        push_str(out, c.file.as_str());
        crate::text::push_char(out, ':');
        push_str(out, usize_text(c.line).as_str());
        push_str(out, "  job ");
        push_str(out, c.job.as_str());
        push_str(out, ": ");
        push_str(out, c.condition.as_str());
        crate::text::push_char(out, '\n');
        proof {
            assert(out@ =~= head + condition_lines(conditions_view(conds@).take(i + 1)));
        }
        i = i + 1;
    }
    proof {
        assert(conditions_view(conds@).take(i as int) =~= conditions_view(conds@));
    }
}

fn push_finding_lines(out: &mut String, fs: &Vec<Finding>)
    ensures
        final(out)@ == old(out)@ + finding_lines(findings_view(fs@)),
{
    let ghost head = out@;
    let mut i: usize = 0;
    while i < fs.len()
        invariant
            i <= fs@.len(),
            out@ == head + finding_lines(findings_view(fs@).take(i as int)),
        decreases fs@.len() - i,
    {
        proof {
            assert(findings_view(fs@).take(i + 1).drop_last() =~= findings_view(fs@).take(i as int));
        }
        let f = &fs[i];
        push_str(out, f.file.as_str());
        crate::text::push_char(out, ':');
        push_str(out, usize_text(f.line).as_str());
        push_str(out, ": ");
        push_str(out, level(f.severity));
        push_str(out, ": ");
        push_str(out, f.message.as_str());
        crate::text::push_char(out, '\n');
        proof {
            assert(out@ =~= head + finding_lines(findings_view(fs@).take(i + 1)));
        }
        i = i + 1;
    }
    proof {
        assert(findings_view(fs@).take(i as int) =~= findings_view(fs@));
    }
}

impl Audit {
    /// The human inventory followed by one line per finding.
    pub fn render(&self) -> (text: String)
        ensures
            text@ == spec_render(
                references_view(self.references@),
                conditions_view(self.conditions@),
                findings_view(self.findings@),
            ),
    {
        let file_count = distinct_files(&self.references);
        let mut out = crate::text::owned("Cargo-Rail Action references: ");
        push_str(&mut out, usize_text(self.references.len()).as_str());
        push_str(&mut out, " in ");
        push_str(&mut out, usize_text(file_count).as_str());
        push_str(&mut out, " file");
        if file_count != 1 {
            crate::text::push_char(&mut out, 's');
        }
        crate::text::push_char(&mut out, '\n');
        let ghost head = out@;
        push_reference_lines(&mut out, &self.references);
        let ghost after_refs = out@;
        if self.conditions.len() > 0 {
            push_str(&mut out, "Job conditions that read Cargo-Rail outputs:");
            crate::text::push_char(&mut out, '\n');
        }
        push_condition_lines(&mut out, &self.conditions);
        let ghost after_conds = out@;
        push_finding_lines(&mut out, &self.findings);
        let ghost after_findings = out@;
        proof {
            lemma_error_count_bound(findings_view(self.findings@));
        }
        let errors = self.errors();
        push_str(&mut out, usize_text(errors).as_str());
        push_str(&mut out, " errors, ");
        push_str(&mut out, usize_text(self.findings.len() - errors).as_str());
        push_str(&mut out, " warnings");
        crate::text::push_char(&mut out, '\n');
        proof {
            let r = references_view(self.references@);
            let c = conditions_view(self.conditions@);
            let f = findings_view(self.findings@);
            let middle = if c.len() == 0 {
                seq![]
            } else {
                "Job conditions that read Cargo-Rail outputs:"@ + seq!['\n'] + condition_lines(c)
            };
            assert(after_conds =~= after_refs + middle);
            assert(out@ =~= head + reference_lines(r) + middle + finding_lines(f) + decimal(error_count(f)) + " errors, "@
                + decimal((f.len() - error_count(f)) as nat) + " warnings"@ + seq!['\n']);
        }
        out
    }

    /// Records a file too large to audit: a warning on its first line, and the file is not read.
    pub fn skip_oversized(&mut self, path: &str)
        ensures
            findings_view(final(self).findings@) == findings_view(old(self).findings@).push(
                FindingV {
                    file: path@,
                    line: 1,
                    severity: Severity::Warning,
                    message: "file exceeds "@ + decimal(MAX_FILE_BYTES as nat) + " bytes and was not audited"@,
                },
            ),
            final(self).references@ == old(self).references@,
            final(self).conditions@ == old(self).conditions@,
    {
        let mut m = crate::text::owned("file exceeds ");
        push_str(&mut m, crate::text::u64_text(MAX_FILE_BYTES).as_str());
        push_str(&mut m, " bytes and was not audited");
        self.findings.push(Finding { file: crate::text::owned(path), line: 1, severity: Severity::Warning, message: m });
        proof {
            assert(findings_view(self.findings@) =~= findings_view(old(self).findings@).push(self.findings@.last()@));
        }
    }
}

/// The message of an audit that found errors.
pub open spec fn verdict_message(errors: nat, before_planning: bool) -> Seq<char> {
    "workflow audit found "@ + decimal(errors) + " error"@ + (if errors == 1 { seq![] } else { seq!['s'] }) + (
    if before_planning {
        "; fix every Cargo-Rail Action reference before planning"@
    } else {
        seq![]
    })
}

/// Fails an audit that found errors; before planning, the message asks to fix every reference
/// first.
pub fn audit_verdict(audit: &Audit, before_planning: bool) -> (r: Result<(), ActionError>)
    ensures
        r is Ok <==> error_count(findings_view(audit.findings@)) == 0,
        r matches Err(e) ==> e.kind == ErrorKind::Rejected && e.message@ == verdict_message(
            error_count(findings_view(audit.findings@)),
            before_planning,
        ),
{
    let errors = audit.errors();
    if errors == 0 {
        return Ok(());
    }
    let mut m = crate::text::owned("workflow audit found ");
    push_str(&mut m, usize_text(errors).as_str());
    push_str(&mut m, " error");
    if errors != 1 {
        crate::text::push_char(&mut m, 's');
    }
    if before_planning {
        push_str(&mut m, "; fix every Cargo-Rail Action reference before planning");
    }
    proof {
        assert(m@ =~= verdict_message(errors as nat, before_planning));
    }
    Err(ActionError::rejected(m))
}


/// The pieces of a byte sequence between occurrences of `sep`.
pub open spec fn split_bytes(s: Seq<u8>, sep: u8) -> Seq<Seq<u8>>
    decreases s.len(),
{
    if s.len() == 0 {
        seq![Seq::<u8>::empty()]
    } else {
        let prev = split_bytes(s.drop_last(), sep);
        if s.last() == sep {
            prev.push(Seq::<u8>::empty())
        } else {
            prev.update(prev.len() - 1, prev.last().push(s.last()))
        }
    }
}

pub proof fn lemma_split_bytes_nonempty(s: Seq<u8>, sep: u8)
    ensures
        split_bytes(s, sep).len() >= 1,
    decreases s.len(),
{
    if s.len() > 0 {
        lemma_split_bytes_nonempty(s.drop_last(), sep);
    }
}

/// Whether a listed path is the lossy text of a non-empty NUL-separated piece of the listing.
pub open spec fn listed(listing: Seq<u8>, path: Seq<char>) -> bool {
    exists|i: int| 0 <= i < split_bytes(listing, 0).len() && (#[trigger] split_bytes(listing, 0)[i]).len() > 0
        && crate::subprocess::lossy_text(split_bytes(listing, 0)[i]) == path
}

fn add_listed(paths: &mut Vec<String>, piece: &Vec<u8>)
    requires
        crate::validation::strictly_sorted(strs_view(old(paths)@)),
        piece@.len() > 0,
    ensures
        crate::validation::strictly_sorted(strs_view(final(paths)@)),
        forall|x: Seq<char>| strs_view(final(paths)@).contains(x) <==> (strs_view(old(paths)@).contains(x) || x
            == crate::subprocess::lossy_text(piece@)),
{
    let text = crate::subprocess::utf8_lossy(piece.as_slice());
    crate::validation::insert_sorted(paths, text);
}

/// The YAML paths a NUL-separated Git listing names, in ascending order and each once; bytes
/// that are not UTF-8 are replaced.
pub fn listing_paths(listing: &[u8]) -> (r: Vec<String>)
    ensures
        crate::validation::strictly_sorted(strs_view(r@)),
        forall|x: Seq<char>| strs_view(r@).contains(x) <==> listed(listing@, x),
{
    let mut paths: Vec<String> = Vec::new();
    let mut current: Vec<u8> = Vec::new();
    let mut i: usize = 0;
    while i < listing.len()
        invariant
            i <= listing@.len(),
            crate::validation::strictly_sorted(strs_view(paths@)),
            current@ == split_bytes(listing@.take(i as int), 0).last(),
            forall|x: Seq<char>| strs_view(paths@).contains(x) <==> exists|k: int| 0 <= k < split_bytes(
                listing@.take(i as int),
                0,
            ).len() - 1 && (#[trigger] split_bytes(listing@.take(i as int), 0)[k]).len() > 0
                && crate::subprocess::lossy_text(split_bytes(listing@.take(i as int), 0)[k]) == x,
        decreases listing@.len() - i,
    {
        let ghost before = split_bytes(listing@.take(i as int), 0);
        proof {
            assert(listing@.take(i + 1).drop_last() =~= listing@.take(i as int));
            assert(listing@.take(i + 1).last() == listing@[i as int]);
            lemma_split_bytes_nonempty(listing@.take(i as int), 0);
        }
        if listing[i] == 0 {
            let ghost last = current@;
            let ghost old_paths = strs_view(paths@);
            if current.len() > 0 {
                add_listed(&mut paths, &current);
            }
            current = Vec::new();
            proof {
                let after = split_bytes(listing@.take(i + 1), 0);
                assert(after == before.push(Seq::<u8>::empty()));
                assert(before.last() == last);
                assert forall|x: Seq<char>| strs_view(paths@).contains(x) <==> exists|k: int| 0 <= k < after.len() - 1
                    && (#[trigger] after[k]).len() > 0 && crate::subprocess::lossy_text(after[k]) == x by {
                    if strs_view(paths@).contains(x) {
                        if old_paths.contains(x) {
                            let k = choose|k: int| 0 <= k < before.len() - 1 && (#[trigger] before[k]).len() > 0
                                && crate::subprocess::lossy_text(before[k]) == x;
                            assert(after[k] == before[k]);
                        } else {
                            assert(last.len() > 0 && x == crate::subprocess::lossy_text(last));
                            assert(after[before.len() - 1] == last);
                        }
                    }
                    if exists|k: int| 0 <= k < after.len() - 1 && (#[trigger] after[k]).len() > 0
                        && crate::subprocess::lossy_text(after[k]) == x {
                        let k = choose|k: int| 0 <= k < after.len() - 1 && (#[trigger] after[k]).len() > 0
                            && crate::subprocess::lossy_text(after[k]) == x;
                        if k < before.len() - 1 {
                            assert(before[k] == after[k]);
                            assert(old_paths.contains(x));
                        } else {
                            assert(after[k] == last);
                        }
                    }
                }
            }
        } else {
            current.push(listing[i]);
            proof {
                let after = split_bytes(listing@.take(i + 1), 0);
                assert forall|k: int| 0 <= k < after.len() - 1 implies #[trigger] after[k] == before[k] by {}
                assert forall|x: Seq<char>| strs_view(paths@).contains(x) <==> exists|k: int| 0 <= k < after.len() - 1
                    && (#[trigger] after[k]).len() > 0 && crate::subprocess::lossy_text(after[k]) == x by {
                    if exists|k: int| 0 <= k < before.len() - 1 && (#[trigger] before[k]).len() > 0
                        && crate::subprocess::lossy_text(before[k]) == x {
                        let k = choose|k: int| 0 <= k < before.len() - 1 && (#[trigger] before[k]).len() > 0
                            && crate::subprocess::lossy_text(before[k]) == x;
                        assert(after[k] == before[k]);
                    }
                }
            }
        }
        i = i + 1;
    }
    let ghost pieces = split_bytes(listing@.take(i as int), 0);
    proof {
        assert(listing@.take(i as int) =~= listing@);
        lemma_split_bytes_nonempty(listing@, 0);
    }
    if current.len() > 0 {
        add_listed(&mut paths, &current);
    }
    proof {
        assert forall|x: Seq<char>| strs_view(paths@).contains(x) <==> listed(listing@, x) by {
            if listed(listing@, x) {
                let k = choose|k: int| 0 <= k < pieces.len() && (#[trigger] pieces[k]).len() > 0
                    && crate::subprocess::lossy_text(pieces[k]) == x;
                if k < pieces.len() - 1 {
                    assert(exists|j: int| 0 <= j < pieces.len() - 1 && (#[trigger] pieces[j]).len() > 0
                        && crate::subprocess::lossy_text(pieces[j]) == x);
                }
            }
        }
    }
    paths
}

/// The failure of a Git command the audit depends on, with Git's trimmed error output.
pub fn git_failure(context: &str, stderr: &[u8]) -> (e: ActionError)
    ensures
        e.kind == ErrorKind::Operational,
        e.message@ == context@ + ": "@ + crate::text::trim(crate::subprocess::lossy_text(stderr@)),
{
    let lossy = crate::subprocess::utf8_lossy(stderr);
    let trimmed = crate::workflow_text::trim_chars(&crate::text::chars_of(lossy.as_str()));
    let mut message = crate::text::concat(context, ": ");
    let t = crate::text::string_of(&trimmed);
    push_str(&mut message, t.as_str());
    ActionError::operational(message)
}
} // verus!
