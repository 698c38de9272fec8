use vstd::prelude::*;

use crate::github::{markdown_inline, spec_markdown_inline};
use crate::json::{Json, JsonV, at, items_view, lemma_items};
use crate::plan_validation::at_key;
use crate::text::{decimal, push_str, str_eq, usize_text};
use crate::validation::strs_view;

verus! {

/// The text of a string value; empty for anything else.
pub open spec fn text_or_empty(v: JsonV) -> Seq<char> {
    match v {
        JsonV::Str(s) => s,
        _ => ""@,
    }
}

/// The items of an array value; none for anything else.
pub open spec fn items_or_empty(v: JsonV) -> Seq<JsonV> {
    match v {
        JsonV::Array(a) => a,
        _ => seq![],
    }
}

/// The entries of an object value; none for anything else.
pub open spec fn entries_or_empty(v: JsonV) -> Seq<(Seq<char>, JsonV)> {
    match v {
        JsonV::Object(e) => e,
        _ => seq![],
    }
}

/// The plural suffix for a count.
pub open spec fn plural(n: int) -> Seq<char> {
    if n == 1 {
        ""@
    } else {
        "s"@
    }
}

/// The parts joined by the separator.
pub open spec fn join(parts: Seq<Seq<char>>, sep: Seq<char>) -> Seq<char>
    decreases parts.len(),
{
    if parts.len() == 0 {
        seq![]
    } else if parts.len() == 1 {
        parts[0]
    } else {
        join(parts.drop_last(), sep) + sep + parts.last()
    }
}

/// The Markdown-inline escape of the text of a value.
pub open spec fn md(v: JsonV) -> Seq<char> {
    spec_markdown_inline(text_or_empty(v))
}

/// The text under `key`, empty when there is none.
pub fn text_at<'a>(v: &'a Json, key: &str) -> (r: &'a str)
    ensures
        r@ == text_or_empty(at(v@, key@)),
{
    match v.get(key) {
        Some(x) => match x.as_str() {
            Some(s) => s,
            None => "",
        },
        None => "",
    }
}

/// Whether the value under `key` is the string `literal`.
pub fn text_is(v: &Json, key: &str, literal: &str) -> (r: bool)
    ensures
        r == (at(v@, key@) == JsonV::Str(literal@)),
{
    match v.get(key) {
        Some(x) => match x.as_str() {
            Some(s) => str_eq(s, literal),
            None => false,
        },
        None => false,
    }
}

/// The items of the array under `key`, when it is one.
pub fn items_at<'a>(v: &'a Json, key: &str) -> (r: Option<&'a Vec<Json>>)
    ensures
        r matches Some(a) ==> items_or_empty(at(v@, key@)) == items_view(a@) && at(v@, key@) is Array,
        r is None ==> items_or_empty(at(v@, key@)) == Seq::<JsonV>::empty() && !(at(v@, key@) is Array),
{
    match v.get(key) {
        Some(x) => x.as_array(),
        None => None,
    }
}

/// The number of items of the array under `key`; zero when it is not one.
fn count_at(v: &Json, key: &str) -> (n: usize)
    ensures
        n == items_or_empty(at(v@, key@)).len(),
{
    match items_at(v, key) {
        Some(a) => {
            proof {
                lemma_items(a@, a@.len());
            }
            a.len()
        },
        None => 0,
    }
}

/// The plural suffix for a count.
fn plural_suffix(n: usize) -> (r: &'static str)
    ensures
        r@ == plural(n as int),
{
    if n == 1 {
        ""
    } else {
        "s"
    }
}

/// The parts joined by the separator.
pub fn join_strings(parts: &Vec<String>, sep: &str) -> (r: String)
    ensures
        r@ == join(strs_view(parts@), sep@),
{
    let mut out = String::new();
    let mut i: usize = 0;
    while i < parts.len()
        invariant
            i <= parts@.len(),
            out@ == join(strs_view(parts@).take(i as int), sep@),
        decreases parts@.len() - i,
    {
        proof {
            let t = strs_view(parts@).take(i + 1);
            assert(t.drop_last() == strs_view(parts@).take(i as int));
            assert(t.last() == parts@[i as int]@);
            if i == 0 {
                assert(t[0] == parts@[0]@);
            }
        }
        if i > 0 {
            push_str(&mut out, sep);
        }
        push_str(&mut out, parts[i].as_str());
        i = i + 1;
    }
    proof {
        assert(strs_view(parts@).take(i as int) == strs_view(parts@));
    }
    out
}

/// A short description of a decision's scope.
pub open spec fn spec_scope_summary(decision: JsonV) -> Seq<char> {
    let scope = at(decision, "scope"@);
    let sel = at(scope, "selection"@);
    let kind = text_or_empty(at(scope, "kind"@));
    if kind == "repository"@ {
        "repository"@
    } else if kind == "cargo"@ {
        if at(sel, "kind"@) == JsonV::Str("workspace"@) {
            "Cargo workspace"@
        } else {
            let p = items_or_empty(at(sel, "packages"@)).len() as int;
            let t = items_or_empty(at(sel, "targets"@)).len() as int;
            decimal(p as nat) + " package"@ + plural(p) + if t == 0 {
                ""@
            } else {
                ", "@ + decimal(t as nat) + " exact target"@ + plural(t)
            }
        }
    } else if kind == "variants"@ {
        if at(sel, "kind"@) == JsonV::Str("all"@) {
            "all declared variants"@
        } else {
            let n = items_or_empty(at(sel, "variants"@)).len() as int;
            decimal(n as nat) + " variant"@ + plural(n)
        }
    } else {
        "unknown"@
    }
}

/// A short description of a decision's scope: the repository, the Cargo workspace, a count of
/// packages and exact targets, all declared variants, or a count of variants.
pub fn scope_summary(decision: &Json) -> (r: String)
    ensures
        r@ == spec_scope_summary(decision@),
{
    let null = Json::Null;
    let scope = at_key(decision, "scope", &null);
    let selection = at_key(scope, "selection", &null);
    let kind = text_at(scope, "kind");
    if str_eq(kind, "repository") {
        "repository".to_owned()
    } else if str_eq(kind, "cargo") {
        if text_is(selection, "kind", "workspace") {
            "Cargo workspace".to_owned()
        } else {
            let packages = count_at(selection, "packages");
            let targets = count_at(selection, "targets");
            let mut out = usize_text(packages);
            push_str(&mut out, " package");
            push_str(&mut out, plural_suffix(packages));
            if targets == 0 {
                push_str(&mut out, "");
            } else {
                push_str(&mut out, ", ");
                push_str(&mut out, usize_text(targets).as_str());
                push_str(&mut out, " exact target");
                push_str(&mut out, plural_suffix(targets));
            }
            out
        }
    } else if str_eq(kind, "variants") {
        if text_is(selection, "kind", "all") {
            "all declared variants".to_owned()
        } else {
            let variants = count_at(selection, "variants");
            let mut out = usize_text(variants);
            push_str(&mut out, " variant");
            push_str(&mut out, plural_suffix(variants));
            out
        }
    } else {
        "unknown".to_owned()
    }
}

/// The value under `vf` of the last item whose text under `kf` is `subject`, as a map collected
/// from the items gives it; empty when there is none.
pub open spec fn name_lookup(list: Seq<JsonV>, kf: Seq<char>, vf: Seq<char>, subject: Seq<char>) -> Seq<char>
    decreases list.len(),
{
    if list.len() == 0 {
        ""@
    } else if text_or_empty(at(list.last(), kf)) == subject {
        text_or_empty(at(list.last(), vf))
    } else {
        name_lookup(list.drop_last(), kf, vf, subject)
    }
}

/// The escaped names of the targets of the package `subject`, in order.
pub open spec fn target_names_for(ts: Seq<JsonV>, subject: Seq<char>) -> Seq<Seq<char>>
    decreases ts.len(),
{
    if ts.len() == 0 {
        seq![]
    } else if at(ts.last(), "package"@) == JsonV::Str(subject) {
        target_names_for(ts.drop_last(), subject).push(md(at(ts.last(), "name"@)))
    } else {
        target_names_for(ts.drop_last(), subject)
    }
}

/// The label of one direct or unattributed selection: its escaped name, a note when attribution is
/// unavailable, and its exact targets.
pub open spec fn selection_label(sel: JsonV, list: Seq<JsonV>, kf: Seq<char>, vf: Seq<char>, targets: JsonV) -> Seq<char> {
    let subject = text_or_empty(at(sel, "subject"@));
    let base = spec_markdown_inline(name_lookup(list, kf, vf, subject)) + if at(sel, "relation"@)
        == JsonV::Str("unattributed"@) {
        " (attribution unavailable)"@
    } else {
        ""@
    };
    match targets {
        JsonV::Array(ts) => if target_names_for(ts, subject).len() > 0 {
            base + ": "@ + join(target_names_for(ts, subject), ", "@)
        } else {
            base
        },
        _ => base,
    }
}

/// The selection is a dependency.
pub open spec fn is_dependency(sel: JsonV) -> bool {
    at(sel, "relation"@) == JsonV::Str("dependency"@)
}

/// The labels of the selections that are not dependencies.
pub open spec fn selection_labels(sels: Seq<JsonV>, list: Seq<JsonV>, kf: Seq<char>, vf: Seq<char>, targets: JsonV)
    -> Seq<Seq<char>>
    decreases sels.len(),
{
    if sels.len() == 0 {
        seq![]
    } else if is_dependency(sels.last()) {
        selection_labels(sels.drop_last(), list, kf, vf, targets)
    } else {
        selection_labels(sels.drop_last(), list, kf, vf, targets).push(selection_label(sels.last(), list, kf, vf, targets))
    }
}

/// The number of dependency selections.
pub open spec fn dependency_count(sels: Seq<JsonV>) -> nat
    decreases sels.len(),
{
    if sels.len() == 0 {
        0
    } else if is_dependency(sels.last()) {
        dependency_count(sels.drop_last()) + 1
    } else {
        dependency_count(sels.drop_last())
    }
}

/// The labels of an attributed scope, with a count of dependent selections, joined by ` · `.
pub open spec fn scope_labels(list: JsonV, kf: Seq<char>, vf: Seq<char>, attribution: JsonV, targets: JsonV) -> Seq<char> {
    let sels = items_or_empty(at(attribution, "selections"@));
    let labels = selection_labels(sels, items_or_empty(list), kf, vf, targets);
    let n = dependency_count(sels);
    join(if n > 0 {
        labels.push(decimal(n) + " dependent selection"@ + plural(n as int))
    } else {
        labels
    }, " · "@)
}

/// The scope of a required decision as its attribution shows it: the named packages or selected
/// variants with their targets, or the scope summary.
pub open spec fn spec_attributed_scope(decision: JsonV, attribution: JsonV) -> Seq<char> {
    let scope = at(decision, "scope"@);
    let sel = at(scope, "selection"@);
    if at(sel, "kind"@) == JsonV::Str("packages"@) {
        scope_labels(at(sel, "packages"@), "key"@, "name"@, attribution, at(sel, "targets"@))
    } else if at(scope, "kind"@) == JsonV::Str("variants"@) && at(sel, "kind"@) == JsonV::Str("selected"@) {
        scope_labels(at(sel, "variants"@), "id"@, "id"@, attribution, at(sel, "targets"@))
    } else {
        spec_scope_summary(decision)
    }
}

/// The value under `vf` of the last item whose `kf` is `subject`.
#[verifier::loop_isolation(false)]
fn lookup_name<'a>(list: &'a Json, kf: &str, vf: &str, subject: &str) -> (r: &'a str)
    ensures
        r@ == name_lookup(items_or_empty(list@), kf@, vf@, subject@),
{
    let items = match list.as_array() {
        Some(a) => a,
        None => return "",
    };
    proof {
        lemma_items(items@, items@.len());
    }
    let ghost iv = items_view(items@);
    let mut i: usize = items.len();
    proof {
        assert(iv.take(i as int) == iv);
    }
    while i > 0
        invariant
            i <= items@.len(),
            iv == items_view(items@),
            iv.len() == items@.len(),
            list@ == JsonV::Array(iv),
            name_lookup(iv, kf@, vf@, subject@) == name_lookup(iv.take(i as int), kf@, vf@, subject@),
        decreases i,
    {
        proof {
            assert(iv.take(i as int).drop_last() == iv.take(i - 1));
            assert(iv.take(i as int).last() == iv[i - 1]);
            assert(iv[i - 1] == items@[i - 1]@);
        }
        if str_eq(text_at(&items[i - 1], kf), subject) {
            return text_at(&items[i - 1], vf);
        }
        i = i - 1;
    }
    proof {
        assert(iv.take(0) =~= seq![]);
        assert(iv.take(iv.len() as int) == iv);
    }
    ""
}

/// The escaped names of the targets of the package `subject`.
#[verifier::loop_isolation(false)]
fn target_names(targets: &Vec<Json>, subject: &str) -> (r: Vec<String>)
    ensures
        strs_view(r@) == target_names_for(items_view(targets@), subject@),
{
    proof {
        lemma_items(targets@, targets@.len());
    }
    let ghost tv = items_view(targets@);
    let mut out: Vec<String> = Vec::new();
    let mut j: usize = 0;
    while j < targets.len()
        invariant
            j <= targets@.len(),
            tv == items_view(targets@),
            tv.len() == targets@.len(),
            strs_view(out@) == target_names_for(tv.take(j as int), subject@),
        decreases targets@.len() - j,
    {
        proof {
            assert(tv.take(j + 1).drop_last() == tv.take(j as int));
            assert(tv.take(j + 1).last() == tv[j as int]);
            assert(tv[j as int] == targets@[j as int]@);
        }
        let ghost before = strs_view(out@);
        if text_is(&targets[j], "package", subject) {
            out.push(markdown_inline(text_at(&targets[j], "name")));
            proof {
                assert(strs_view(out@) =~= before.push(md(at(tv[j as int], "name"@))));
            }
        }
        j = j + 1;
    }
    proof {
        assert(tv.take(j as int) == tv);
    }
    out
}

/// The label of one direct or unattributed selection.
fn label_of(sel: &Json, list: &Json, kf: &str, vf: &str, targets: &Json) -> (r: String)
    ensures
        r@ == selection_label(sel@, items_or_empty(list@), kf@, vf@, targets@),
{
    let subject = text_at(sel, "subject");
    let mut name = markdown_inline(lookup_name(list, kf, vf, subject));
    if text_is(sel, "relation", "unattributed") {
        push_str(&mut name, " (attribution unavailable)");
    } else {
        push_str(&mut name, "");
    }
    match targets.as_array() {
        Some(ts) => {
            let names = target_names(ts, subject);
            if names.len() > 0 {
                push_str(&mut name, ": ");
                push_str(&mut name, join_strings(&names, ", ").as_str());
            }
        },
        None => {},
    }
    name
}

/// The labels of an attributed scope joined by ` · `.
#[verifier::loop_isolation(false)]
fn labels_of(list: &Json, kf: &str, vf: &str, attribution: &Json, targets: &Json) -> (r: String)
    ensures
        r@ == scope_labels(list@, kf@, vf@, attribution@, targets@),
{
    let mut shown: Vec<String> = Vec::new();
    let mut dependent: usize = 0;
    let ghost sv = items_or_empty(at(attribution@, "selections"@));
    match items_at(attribution, "selections") {
        Some(sels) => {
            proof {
                lemma_items(sels@, sels@.len());
            }
            let mut i: usize = 0;
            while i < sels.len()
                invariant
                    i <= sels@.len(),
                    sv == items_view(sels@),
                    sv.len() == sels@.len(),
                    dependent <= i,
                    strs_view(shown@) == selection_labels(sv.take(i as int), items_or_empty(list@), kf@, vf@, targets@),
                    dependent == dependency_count(sv.take(i as int)),
                decreases sels@.len() - i,
            {
                proof {
                    assert(sv.take(i + 1).drop_last() == sv.take(i as int));
                    assert(sv.take(i + 1).last() == sv[i as int]);
                    assert(sv[i as int] == sels@[i as int]@);
                }
                if text_is(&sels[i], "relation", "dependency") {
                    dependent = dependent + 1;
                } else {
                    let ghost before = strs_view(shown@);
                    shown.push(label_of(&sels[i], list, kf, vf, targets));
                    proof {
                        assert(strs_view(shown@) =~= before.push(selection_label(sv[i as int], items_or_empty(list@), kf@,
                            vf@, targets@)));
                    }
                }
                i = i + 1;
            }
            proof {
                assert(sv.take(i as int) == sv);
            }
        },
        None => {
            proof {
                assert(strs_view(shown@) =~= seq![]);
            }
        },
    }
    if dependent > 0 {
        let ghost before = strs_view(shown@);
        let mut note = usize_text(dependent);
        push_str(&mut note, " dependent selection");
        push_str(&mut note, plural_suffix(dependent));
        shown.push(note);
        proof {
            assert(strs_view(shown@) =~= before.push(decimal(dependent as nat) + " dependent selection"@
                + plural(dependent as int)));
        }
    }
    join_strings(&shown, " · ")
}

/// The scope of a required decision as its attribution shows it.
pub fn attributed_scope(decision: &Json, attribution: &Json) -> (r: String)
    ensures
        r@ == spec_attributed_scope(decision@, attribution@),
{
    let null = Json::Null;
    let scope = at_key(decision, "scope", &null);
    let selection = at_key(scope, "selection", &null);
    if text_is(selection, "kind", "packages") {
        labels_of(at_key(selection, "packages", &null), "key", "name", attribution, at_key(selection, "targets", &null))
    } else if text_is(scope, "kind", "variants") && text_is(selection, "kind", "selected") {
        labels_of(at_key(selection, "variants", &null), "id", "id", attribution, at_key(selection, "targets", &null))
    } else {
        scope_summary(decision)
    }
}

/// The IDs of the required work.
pub open spec fn required_of(plan: JsonV) -> Seq<Seq<char>> {
    items_or_empty(at(plan, "required"@)).map_values(|v: JsonV| text_or_empty(v))
}

/// The decision of a work item.
pub open spec fn decision_of(plan: JsonV, id: Seq<char>) -> JsonV {
    at(at(plan, "work"@), id)
}

/// The attribution of a work item.
pub open spec fn attribution_of(plan: JsonV, id: Seq<char>) -> JsonV {
    at(at(plan, "attribution"@), id)
}

/// An input that is other work, a prerequisite or a dependency.
pub open spec fn indirect_input(v: JsonV) -> bool {
    ||| at(v, "kind"@) == JsonV::Str("work"@)
    ||| at(v, "kind"@) == JsonV::Str("prerequisite"@)
    ||| at(v, "kind"@) == JsonV::Str("dependency"@)
}

/// Required because of changed inputs that are all other work, prerequisites or dependencies.
pub open spec fn is_indirect(plan: JsonV, id: Seq<char>) -> bool {
    let inputs = items_or_empty(at(attribution_of(plan, id), "inputs"@));
    &&& at(decision_of(plan, id), "cause"@) == JsonV::Str("changed_input"@)
    &&& inputs.len() > 0
    &&& forall|i: int| 0 <= i < inputs.len() ==> indirect_input(#[trigger] inputs[i])
}

/// The summary line of one required work item.
pub open spec fn work_line(plan: JsonV, id: Seq<char>) -> Seq<char> {
    "- `"@ + id + "` — "@ + spec_attributed_scope(decision_of(plan, id), attribution_of(plan, id))
}

/// The evidence record under a reference.
pub open spec fn evidence_of(plan: JsonV, reference: JsonV) -> JsonV {
    at(at(plan, "evidence"@), text_or_empty(reference))
}

/// The reasons of incomplete evidence that expanded the scope.
pub open spec fn expansion_lines(plan: JsonV, refs: Seq<JsonV>) -> Seq<Seq<char>>
    decreases refs.len(),
{
    if refs.len() == 0 {
        seq![]
    } else if at(evidence_of(plan, refs.last()), "complete"@) == JsonV::Bool(false) {
        expansion_lines(plan, refs.drop_last()).push("  **Scope expanded:** "@ + md(at(evidence_of(plan, refs.last()),
            "description"@)))
    } else {
        expansion_lines(plan, refs.drop_last())
    }
}

/// The visible lines of one required work item.
pub open spec fn main_lines_for(plan: JsonV, id: Seq<char>) -> Seq<Seq<char>> {
    let d = decision_of(plan, id);
    (if is_indirect(plan, id) { seq![] } else { seq![work_line(plan, id)] })
        + (if at(d, "cause"@) == JsonV::Str("forced_all"@) { seq!["  Required by `--all`."@] } else { seq![] })
        + (if at(d, "cause"@) == JsonV::Str("incomplete_evidence"@) {
            expansion_lines(plan, items_or_empty(at(d, "evidence"@)))
        } else {
            seq![]
        })
}

/// The visible lines of the required work items.
pub open spec fn main_lines(plan: JsonV, ids: Seq<Seq<char>>) -> Seq<Seq<char>>
    decreases ids.len(),
{
    if ids.len() == 0 {
        seq![]
    } else {
        main_lines(plan, ids.drop_last()) + main_lines_for(plan, ids.last())
    }
}

/// The lines of required work that is required only through other work.
pub open spec fn dependent_lines(plan: JsonV, ids: Seq<Seq<char>>) -> Seq<Seq<char>>
    decreases ids.len(),
{
    if ids.len() == 0 {
        seq![]
    } else if is_indirect(plan, ids.last()) {
        dependent_lines(plan, ids.drop_last()).push(work_line(plan, ids.last()))
    } else {
        dependent_lines(plan, ids.drop_last())
    }
}

/// The dependency selections of one work item.
pub open spec fn dependent_selections_for(id: Seq<char>, sels: Seq<JsonV>) -> Seq<Seq<char>>
    decreases sels.len(),
{
    if sels.len() == 0 {
        seq![]
    } else if is_dependency(sels.last()) {
        dependent_selections_for(id, sels.drop_last()).push("- `"@ + id + "`: "@ + md(at(sels.last(), "subject"@))
            + " — affected by "@ + md(at(sels.last(), "origin"@)))
    } else {
        dependent_selections_for(id, sels.drop_last())
    }
}

/// The dependency selections of the required work items.
pub open spec fn dependent_selection_lines(plan: JsonV, ids: Seq<Seq<char>>) -> Seq<Seq<char>>
    decreases ids.len(),
{
    if ids.len() == 0 {
        seq![]
    } else {
        dependent_selection_lines(plan, ids.drop_last()) + dependent_selections_for(ids.last(),
            items_or_empty(at(attribution_of(plan, ids.last()), "selections"@)))
    }
}

/// The descriptions of the evidence of one decision.
pub open spec fn evidence_lines(plan: JsonV, refs: Seq<JsonV>) -> Seq<Seq<char>>
    decreases refs.len(),
{
    if refs.len() == 0 {
        seq![]
    } else {
        evidence_lines(plan, refs.drop_last()).push("  - "@ + md(at(evidence_of(plan, refs.last()), "description"@)))
    }
}

/// The inputs of one attribution other than paths.
pub open spec fn input_lines(inputs: Seq<JsonV>) -> Seq<Seq<char>>
    decreases inputs.len(),
{
    if inputs.len() == 0 {
        seq![]
    } else if at(inputs.last(), "kind"@) != JsonV::Str("path"@) {
        input_lines(inputs.drop_last()).push("  - "@ + text_or_empty(at(inputs.last(), "kind"@)) + ": "@
            + md(at(inputs.last(), "value"@)))
    } else {
        input_lines(inputs.drop_last())
    }
}

/// The lines of one work decision: its state, its evidence and its non-path inputs.
pub open spec fn decision_lines_for(plan: JsonV, id: Seq<char>, d: JsonV) -> Seq<Seq<char>> {
    seq!["- `"@ + id + "` — "@ + text_or_empty(at(d, "state"@))] + evidence_lines(plan, items_or_empty(at(d, "evidence"@)))
        + match at(attribution_of(plan, id), "inputs"@) {
        JsonV::Array(inputs) => input_lines(inputs),
        _ => seq![],
    }
}

/// The lines of every work decision, in the order of the work map.
pub open spec fn decision_lines(plan: JsonV, work: Seq<(Seq<char>, JsonV)>) -> Seq<Seq<char>>
    decreases work.len(),
{
    if work.len() == 0 {
        seq![]
    } else {
        decision_lines(plan, work.drop_last()) + decision_lines_for(plan, work.last().0, work.last().1)
    }
}

/// The number of registered work items that are not required.
pub open spec fn skipped_count(plan: JsonV) -> nat {
    let work = entries_or_empty(at(plan, "work"@));
    let ids = required_of(plan);
    if work.len() >= ids.len() { (work.len() - ids.len()) as nat } else { 0 }
}

/// The title and the counts of required, skipped and changed items.
pub open spec fn summary_header(plan: JsonV) -> Seq<Seq<char>> {
    let changed = items_or_empty(at(at(plan, "changes"@), "files"@)).len();
    seq!["## Cargo-Rail plan"@, ""@, decimal(required_of(plan).len()) + " required · "@ + decimal(skipped_count(plan))
        + " skipped · "@ + decimal(changed) + " changed file"@ + plural(changed as int), ""@]
}

/// The collapsible section of dependency-only work.
pub open spec fn dependent_section(plan: JsonV) -> Seq<Seq<char>> {
    let d = dependent_lines(plan, required_of(plan));
    if d.len() > 0 {
        seq!["\n<details><summary>Additional required work: "@ + decimal(d.len()) + " — dependencies</summary>\n"@]
            + d + seq!["\n</details>"@]
    } else {
        seq![]
    }
}

/// The collapsible section of dependent selections.
pub open spec fn selection_section(plan: JsonV) -> Seq<Seq<char>> {
    let d = dependent_selection_lines(plan, required_of(plan));
    if d.len() > 0 {
        seq!["\n<details><summary>Dependent selections: "@ + decimal(d.len())
            + " — included in required work</summary>\n"@] + d + seq!["\n</details>"@]
    } else {
        seq![]
    }
}

/// The collapsible section of every work decision, shown when any work is registered.
pub open spec fn decisions_section(plan: JsonV) -> Seq<Seq<char>> {
    if required_of(plan).len() > 0 || skipped_count(plan) > 0 {
        seq!["\n<details><summary>Work decisions</summary>\n"@] + decision_lines(plan, entries_or_empty(at(plan,
            "work"@))) + seq!["\n</details>"@]
    } else {
        seq![]
    }
}

/// The lines of the Markdown summary of a plan.
pub open spec fn summary_lines(plan: JsonV) -> Seq<Seq<char>> {
    summary_header(plan) + main_lines(plan, required_of(plan))
        + (if required_of(plan).len() == 0 { seq!["No work required."@] } else { seq![] })
        + dependent_section(plan) + selection_section(plan) + decisions_section(plan) + seq![""@]
}

/// The Markdown summary of a plan.
pub open spec fn spec_summary(plan: JsonV) -> Seq<char> {
    join(summary_lines(plan), "\n"@)
}

/// Appends the strings of `b` to `a`.
fn extend_strings(a: &mut Vec<String>, b: Vec<String>)
    ensures
        strs_view(final(a)@) == strs_view(old(a)@) + strs_view(b@),
{
    let ghost start = strs_view(a@);
    let mut i: usize = 0;
    while i < b.len()
        invariant
            i <= b@.len(),
            strs_view(a@) == start + strs_view(b@).take(i as int),
        decreases b@.len() - i,
    {
        let ghost before = strs_view(a@);
        a.push(b[i].as_str().to_owned());
        proof {
            assert(strs_view(a@) =~= before.push(b@[i as int]@));
            assert(strs_view(b@).take(i + 1) =~= strs_view(b@).take(i as int).push(b@[i as int]@));
        }
        i = i + 1;
    }
    proof {
        assert(strs_view(b@).take(i as int) == strs_view(b@));
    }
}

/// The IDs of the required work.
#[verifier::loop_isolation(false)]
fn required_ids(plan: &Json) -> (r: Vec<String>)
    ensures
        strs_view(r@) == required_of(plan@),
{
    let mut out: Vec<String> = Vec::new();
    match items_at(plan, "required") {
        Some(items) => {
            proof {
                lemma_items(items@, items@.len());
            }
            let mut i: usize = 0;
            while i < items.len()
                invariant
                    i <= items@.len(),
                    out@.len() == i,
                    forall|k: int| 0 <= k < i ==> #[trigger] out@[k]@ == text_or_empty(items_view(items@)[k]),
                decreases items@.len() - i,
            {
                let text = match items[i].as_str() {
                    Some(t) => t,
                    None => "",
                };
                proof {
                    assert(items_view(items@)[i as int] == items@[i as int]@);
                }
                out.push(text.to_owned());
                i = i + 1;
            }
            proof {
                assert(strs_view(out@) =~= required_of(plan@));
            }
        },
        None => {
            proof {
                assert(strs_view(out@) =~= required_of(plan@));
            }
        },
    }
    out
}

/// Whether the work is required only through other work.
#[verifier::loop_isolation(false)]
fn indirect(plan: &Json, id: &str) -> (r: bool)
    ensures
        r == is_indirect(plan@, id@),
{
    let null = Json::Null;
    let decision = at_key(at_key(plan, "work", &null), id, &null);
    let attribution = at_key(at_key(plan, "attribution", &null), id, &null);
    if !text_is(decision, "cause", "changed_input") {
        return false;
    }
    let inputs = match items_at(attribution, "inputs") {
        Some(a) => a,
        None => return false,
    };
    proof {
        lemma_items(inputs@, inputs@.len());
    }
    if inputs.len() == 0 {
        return false;
    }
    let mut i: usize = 0;
    while i < inputs.len()
        invariant
            i <= inputs@.len(),
            forall|k: int| 0 <= k < i ==> indirect_input(#[trigger] items_view(inputs@)[k]),
        decreases inputs@.len() - i,
    {
        proof {
            assert(items_view(inputs@)[i as int] == inputs@[i as int]@);
        }
        if !(text_is(&inputs[i], "kind", "work") || text_is(&inputs[i], "kind", "prerequisite")
            || text_is(&inputs[i], "kind", "dependency")) {
            return false;
        }
        i = i + 1;
    }
    true
}

/// The summary line of one required work item.
fn line_of_work(plan: &Json, id: &str) -> (r: String)
    ensures
        r@ == work_line(plan@, id@),
{
    let null = Json::Null;
    let decision = at_key(at_key(plan, "work", &null), id, &null);
    let attribution = at_key(at_key(plan, "attribution", &null), id, &null);
    let mut line = "- `".to_owned();
    push_str(&mut line, id);
    push_str(&mut line, "` — ");
    push_str(&mut line, attributed_scope(decision, attribution).as_str());
    line
}

/// The reasons of incomplete evidence that expanded the scope of a decision.
#[verifier::loop_isolation(false)]
fn expansions(plan: &Json, decision: &Json) -> (r: Vec<String>)
    ensures
        strs_view(r@) == expansion_lines(plan@, items_or_empty(at(decision@, "evidence"@))),
{
    let null = Json::Null;
    let evidence = at_key(plan, "evidence", &null);
    let mut out: Vec<String> = Vec::new();
    match items_at(decision, "evidence") {
        Some(refs) => {
            proof {
                lemma_items(refs@, refs@.len());
            }
            let ghost rv = items_view(refs@);
            let mut i: usize = 0;
            while i < refs.len()
                invariant
                    i <= refs@.len(),
                    rv == items_view(refs@),
                    strs_view(out@) == expansion_lines(plan@, rv.take(i as int)),
                decreases refs@.len() - i,
            {
                proof {
                    assert(rv.take(i + 1).drop_last() == rv.take(i as int));
                    assert(rv.take(i + 1).last() == rv[i as int]);
                    assert(rv[i as int] == refs@[i as int]@);
                }
                let reference = match refs[i].as_str() {
                    Some(t) => t,
                    None => "",
                };
                let record = at_key(evidence, reference, &null);
                let incomplete = match at_key(record, "complete", &null).as_bool() {
                    Some(b) => !b,
                    None => false,
                };
                if incomplete {
                    let ghost before = strs_view(out@);
                    let mut line = "  **Scope expanded:** ".to_owned();
                    push_str(&mut line, markdown_inline(text_at(record, "description")).as_str());
                    out.push(line);
                    proof {
                        assert(strs_view(out@) =~= before.push("  **Scope expanded:** "@ + md(at(evidence_of(plan@,
                            rv[i as int]), "description"@))));
                    }
                }
                i = i + 1;
            }
            proof {
                assert(rv.take(i as int) == rv);
            }
        },
        None => {
            proof {
                assert(strs_view(out@) =~= seq![]);
            }
        },
    }
    out
}

/// The visible lines of one required work item.
fn main_lines_of(plan: &Json, id: &str) -> (r: Vec<String>)
    ensures
        strs_view(r@) == main_lines_for(plan@, id@),
{
    let null = Json::Null;
    let decision = at_key(at_key(plan, "work", &null), id, &null);
    let mut out: Vec<String> = Vec::new();
    if !indirect(plan, id) {
        out.push(line_of_work(plan, id));
    }
    if text_is(decision, "cause", "forced_all") {
        out.push("  Required by `--all`.".to_owned());
    }
    let ghost first = strs_view(out@);
    proof {
        assert(first =~= (if is_indirect(plan@, id@) { seq![] } else { seq![work_line(plan@, id@)] })
            + (if at(decision@, "cause"@) == JsonV::Str("forced_all"@) { seq!["  Required by `--all`."@] } else { seq![] }));
    }
    if text_is(decision, "cause", "incomplete_evidence") {
        extend_strings(&mut out, expansions(plan, decision));
    } else {
        proof {
            assert(strs_view(out@) =~= first + seq![]);
        }
    }
    out
}

/// The dependency selections of one work item.
#[verifier::loop_isolation(false)]
fn dependent_selections_of(id: &str, attribution: &Json) -> (r: Vec<String>)
    ensures
        strs_view(r@) == dependent_selections_for(id@, items_or_empty(at(attribution@, "selections"@))),
{
    let mut out: Vec<String> = Vec::new();
    match items_at(attribution, "selections") {
        Some(sels) => {
            proof {
                lemma_items(sels@, sels@.len());
            }
            let ghost sv = items_view(sels@);
            let mut i: usize = 0;
            while i < sels.len()
                invariant
                    i <= sels@.len(),
                    sv == items_view(sels@),
                    strs_view(out@) == dependent_selections_for(id@, sv.take(i as int)),
                decreases sels@.len() - i,
            {
                proof {
                    assert(sv.take(i + 1).drop_last() == sv.take(i as int));
                    assert(sv.take(i + 1).last() == sv[i as int]);
                    assert(sv[i as int] == sels@[i as int]@);
                }
                if text_is(&sels[i], "relation", "dependency") {
                    let ghost before = strs_view(out@);
                    let mut line = "- `".to_owned();
                    push_str(&mut line, id);
                    push_str(&mut line, "`: ");
                    push_str(&mut line, markdown_inline(text_at(&sels[i], "subject")).as_str());
                    push_str(&mut line, " — affected by ");
                    push_str(&mut line, markdown_inline(text_at(&sels[i], "origin")).as_str());
                    out.push(line);
                    proof {
                        assert(strs_view(out@) =~= before.push("- `"@ + id@ + "`: "@ + md(at(sv[i as int], "subject"@))
                            + " — affected by "@ + md(at(sv[i as int], "origin"@))));
                    }
                }
                i = i + 1;
            }
            proof {
                assert(sv.take(i as int) == sv);
            }
        },
        None => {
            proof {
                assert(strs_view(out@) =~= seq![]);
            }
        },
    }
    out
}

/// The descriptions of the evidence of one decision.
#[verifier::loop_isolation(false)]
fn evidence_lines_of(plan: &Json, decision: &Json) -> (r: Vec<String>)
    ensures
        strs_view(r@) == evidence_lines(plan@, items_or_empty(at(decision@, "evidence"@))),
{
    let null = Json::Null;
    let evidence = at_key(plan, "evidence", &null);
    let mut out: Vec<String> = Vec::new();
    match items_at(decision, "evidence") {
        Some(refs) => {
            proof {
                lemma_items(refs@, refs@.len());
            }
            let ghost rv = items_view(refs@);
            let mut i: usize = 0;
            while i < refs.len()
                invariant
                    i <= refs@.len(),
                    rv == items_view(refs@),
                    strs_view(out@) == evidence_lines(plan@, rv.take(i as int)),
                decreases refs@.len() - i,
            {
                proof {
                    assert(rv.take(i + 1).drop_last() == rv.take(i as int));
                    assert(rv.take(i + 1).last() == rv[i as int]);
                    assert(rv[i as int] == refs@[i as int]@);
                }
                let reference = match refs[i].as_str() {
                    Some(t) => t,
                    None => "",
                };
                let record = at_key(evidence, reference, &null);
                let ghost before = strs_view(out@);
                let mut line = "  - ".to_owned();
                push_str(&mut line, markdown_inline(text_at(record, "description")).as_str());
                out.push(line);
                proof {
                    assert(strs_view(out@) =~= before.push("  - "@ + md(at(evidence_of(plan@, rv[i as int]), "description"@))));
                }
                i = i + 1;
            }
            proof {
                assert(rv.take(i as int) == rv);
            }
        },
        None => {
            proof {
                assert(strs_view(out@) =~= seq![]);
            }
        },
    }
    out
}

/// The non-path inputs of an attribution.
#[verifier::loop_isolation(false)]
fn input_lines_of(inputs: &Vec<Json>) -> (r: Vec<String>)
    ensures
        strs_view(r@) == input_lines(items_view(inputs@)),
{
    proof {
        lemma_items(inputs@, inputs@.len());
    }
    let ghost iv = items_view(inputs@);
    let mut out: Vec<String> = Vec::new();
    let mut i: usize = 0;
    while i < inputs.len()
        invariant
            i <= inputs@.len(),
            iv == items_view(inputs@),
            strs_view(out@) == input_lines(iv.take(i as int)),
        decreases inputs@.len() - i,
    {
        proof {
            assert(iv.take(i + 1).drop_last() == iv.take(i as int));
            assert(iv.take(i + 1).last() == iv[i as int]);
            assert(iv[i as int] == inputs@[i as int]@);
        }
        if !text_is(&inputs[i], "kind", "path") {
            let ghost before = strs_view(out@);
            let mut line = "  - ".to_owned();
            push_str(&mut line, text_at(&inputs[i], "kind"));
            push_str(&mut line, ": ");
            push_str(&mut line, markdown_inline(text_at(&inputs[i], "value")).as_str());
            out.push(line);
            proof {
                assert(strs_view(out@) =~= before.push("  - "@ + text_or_empty(at(iv[i as int], "kind"@)) + ": "@
                    + md(at(iv[i as int], "value"@))));
            }
        }
        i = i + 1;
    }
    proof {
        assert(iv.take(i as int) == iv);
    }
    out
}

/// The lines of every work decision.
#[verifier::loop_isolation(false)]
fn decision_lines_of(plan: &Json) -> (r: Vec<String>)
    ensures
        strs_view(r@) == decision_lines(plan@, entries_or_empty(at(plan@, "work"@))),
{
    let null = Json::Null;
    let attribution = at_key(plan, "attribution", &null);
    let mut out: Vec<String> = Vec::new();
    match at_key(plan, "work", &null).as_object() {
        Some(work) => {
            proof {
                crate::json::lemma_entries(work@, work@.len());
            }
            let ghost wv = crate::json::entries_view(work@);
            let mut i: usize = 0;
            while i < work.len()
                invariant
                    i <= work@.len(),
                    wv == crate::json::entries_view(work@),
                    strs_view(out@) == decision_lines(plan@, wv.take(i as int)),
                decreases work@.len() - i,
            {
                proof {
                    assert(wv.take(i + 1).drop_last() == wv.take(i as int));
                    assert(wv.take(i + 1).last() == wv[i as int]);
                    assert(wv[i as int] == (work@[i as int].0@, work@[i as int].1@));
                }
                let id = work[i].0.as_str();
                let decision = &work[i].1;
                let ghost before = strs_view(out@);
                let mut head = "- `".to_owned();
                push_str(&mut head, id);
                push_str(&mut head, "` — ");
                push_str(&mut head, text_at(decision, "state"));
                out.push(head);
                extend_strings(&mut out, evidence_lines_of(plan, decision));
                let ghost middle = strs_view(out@);
                match items_at(at_key(attribution, id, &null), "inputs") {
                    Some(inputs) => {
                        extend_strings(&mut out, input_lines_of(inputs));
                    },
                    None => {
                        proof {
                            assert(strs_view(out@) =~= middle + seq![]);
                        }
                    },
                }
                proof {
                    assert(strs_view(out@) =~= before + decision_lines_for(plan@, wv[i as int].0, wv[i as int].1));
                }
                i = i + 1;
            }
            proof {
                assert(wv.take(i as int) == wv);
            }
        },
        None => {
            proof {
                assert(strs_view(out@) =~= seq![]);
            }
        },
    }
    out
}

/// A section of lines between an opening and a closing line, or nothing when there are none.
fn section(open: String, body: Vec<String>, close: &str) -> (r: Vec<String>)
    ensures
        strs_view(r@) == (if body@.len() > 0 {
            seq![open@] + strs_view(body@) + seq![close@]
        } else {
            seq![]
        }),
{
    let mut out: Vec<String> = Vec::new();
    if body.len() > 0 {
        let ghost bv = strs_view(body@);
        let ghost opened = open@;
        out.push(open);
        proof {
            assert(strs_view(out@) =~= seq![opened]);
        }
        extend_strings(&mut out, body);
        out.push(close.to_owned());
        proof {
            assert(strs_view(out@) =~= seq![opened] + bv + seq![close@]);
        }
    } else {
        proof {
            assert(strs_view(out@) =~= seq![]);
        }
    }
    out
}

/// The visible lines and the dependency-only lines of the required work.
fn required_sections(plan: &Json, ids: &Vec<String>) -> (r: (Vec<String>, Vec<String>))
    ensures
        strs_view(r.0@) == main_lines(plan@, strs_view(ids@)),
        strs_view(r.1@) == dependent_lines(plan@, strs_view(ids@)),
{
    let ghost iv = strs_view(ids@);
    let mut lines: Vec<String> = Vec::new();
    let mut dependent: Vec<String> = Vec::new();
    let mut i: usize = 0;
    while i < ids.len()
        invariant
            i <= ids@.len(),
            iv == strs_view(ids@),
            strs_view(lines@) == main_lines(plan@, iv.take(i as int)),
            strs_view(dependent@) == dependent_lines(plan@, iv.take(i as int)),
        decreases ids@.len() - i,
    {
        proof {
            assert(iv.take(i + 1).drop_last() == iv.take(i as int));
            assert(iv.take(i + 1).last() == ids@[i as int]@);
        }
        let id = ids[i].as_str();
        let ghost before = strs_view(dependent@);
        if indirect(plan, id) {
            dependent.push(line_of_work(plan, id));
            proof {
                assert(strs_view(dependent@) =~= before.push(work_line(plan@, id@)));
            }
        }
        extend_strings(&mut lines, main_lines_of(plan, id));
        i = i + 1;
    }
    proof {
        assert(iv.take(i as int) == iv);
    }
    (lines, dependent)
}

/// The dependent selections of the required work.
fn selection_lines(plan: &Json, ids: &Vec<String>) -> (r: Vec<String>)
    ensures
        strs_view(r@) == dependent_selection_lines(plan@, strs_view(ids@)),
{
    let null = Json::Null;
    let ghost iv = strs_view(ids@);
    let mut selections: Vec<String> = Vec::new();
    let mut j: usize = 0;
    while j < ids.len()
        invariant
            j <= ids@.len(),
            null@ == JsonV::Null,
            iv == strs_view(ids@),
            strs_view(selections@) == dependent_selection_lines(plan@, iv.take(j as int)),
        decreases ids@.len() - j,
    {
        proof {
            assert(iv.take(j + 1).drop_last() == iv.take(j as int));
            assert(iv.take(j + 1).last() == ids@[j as int]@);
        }
        let id = ids[j].as_str();
        let attribution = at_key(at_key(plan, "attribution", &null), id, &null);
        extend_strings(&mut selections, dependent_selections_of(id, attribution));
        j = j + 1;
    }
    proof {
        assert(iv.take(j as int) == iv);
    }
    selections
}

/// The title and the counts.
fn header_lines(plan: &Json, ids: &Vec<String>) -> (r: Vec<String>)
    ensures
        strs_view(ids@) == required_of(plan@) ==> strs_view(r@) == summary_header(plan@),
{
    let null = Json::Null;
    let work_count = match at_key(plan, "work", &null).as_object() {
        Some(w) => {
            proof {
                crate::json::lemma_entries(w@, w@.len());
            }
            w.len()
        },
        None => 0,
    };
    let skipped: usize = if work_count >= ids.len() { work_count - ids.len() } else { 0 };
    let changed = count_at(at_key(plan, "changes", &null), "files");
    let mut counts = usize_text(ids.len());
    push_str(&mut counts, " required · ");
    push_str(&mut counts, usize_text(skipped).as_str());
    push_str(&mut counts, " skipped · ");
    push_str(&mut counts, usize_text(changed).as_str());
    push_str(&mut counts, " changed file");
    push_str(&mut counts, plural_suffix(changed));
    let ghost counted = counts@;
    let out: Vec<String> = vec!["## Cargo-Rail plan".to_owned(), "".to_owned(), counts, "".to_owned()];
    proof {
        assert(strs_view(out@) =~= seq!["## Cargo-Rail plan"@, ""@, counted, ""@]);
    }
    out
}

/// Whether any work is registered beyond the required work, or any is required.
fn shows_decisions(plan: &Json, ids: &Vec<String>) -> (r: bool)
    ensures
        strs_view(ids@) == required_of(plan@) ==> r == (required_of(plan@).len() > 0 || skipped_count(plan@) > 0),
{
    let null = Json::Null;
    let work_count = match at_key(plan, "work", &null).as_object() {
        Some(w) => {
            proof {
                crate::json::lemma_entries(w@, w@.len());
            }
            w.len()
        },
        None => 0,
    };
    ids.len() > 0 || work_count > ids.len()
}

/// The Markdown summary of a plan: counts, the visible required work with forced and expanded
/// scope notes, collapsible sections for dependency-only work, dependent selections and every
/// decision with its evidence and inputs.
pub fn render_summary(plan: &Json) -> (r: String)
    ensures
        r@ == spec_summary(plan@),
{
    let ids = required_ids(plan);
    let mut lines = header_lines(plan, &ids);
    let (main, dependent) = required_sections(plan, &ids);
    extend_strings(&mut lines, main);
    let ghost after_main = strs_view(lines@);
    let mut none: Vec<String> = Vec::new();
    if ids.len() == 0 {
        none.push("No work required.".to_owned());
    }
    proof {
        assert(strs_view(none@) =~= (if required_of(plan@).len() == 0 { seq!["No work required."@] } else { seq![] }));
    }
    extend_strings(&mut lines, none);
    let dependent_count = dependent.len();
    let mut open = "\n<details><summary>Additional required work: ".to_owned();
    push_str(&mut open, usize_text(dependent_count).as_str());
    push_str(&mut open, " — dependencies</summary>\n");
    extend_strings(&mut lines, section(open, dependent, "\n</details>"));
    let selections = selection_lines(plan, &ids);
    let selection_count = selections.len();
    let mut open = "\n<details><summary>Dependent selections: ".to_owned();
    push_str(&mut open, usize_text(selection_count).as_str());
    push_str(&mut open, " — included in required work</summary>\n");
    extend_strings(&mut lines, section(open, selections, "\n</details>"));
    let mut decisions: Vec<String> = Vec::new();
    if shows_decisions(plan, &ids) {
        decisions.push("\n<details><summary>Work decisions</summary>\n".to_owned());
        proof {
            assert(strs_view(decisions@) =~= seq!["\n<details><summary>Work decisions</summary>\n"@]);
        }
        let body = decision_lines_of(plan);
        let ghost bv = strs_view(body@);
        extend_strings(&mut decisions, body);
        let ghost mid = strs_view(decisions@);
        decisions.push("\n</details>".to_owned());
        proof {
            assert(strs_view(decisions@) == mid.push("\n</details>"@));
            assert(strs_view(decisions@) =~= decisions_section(plan@));
        }
    }
    proof {
        assert(strs_view(decisions@) =~= decisions_section(plan@));
    }
    extend_strings(&mut lines, decisions);
    let last: Vec<String> = vec!["".to_owned()];
    proof {
        assert(strs_view(last@) =~= seq![""@]);
    }
    extend_strings(&mut lines, last);
    proof {
        assert(strs_view(lines@) =~= summary_lines(plan@));
    }
    join_strings(&lines, "\n")
}


/// The labels of a work line name only the selections that are not dependencies, each of them
/// once, and the dependency selections are left to the count: as many labels as non-dependency
/// selections.
pub proof fn law_labels_skip_dependencies(sels: Seq<JsonV>, list: Seq<JsonV>, kf: Seq<char>, vf: Seq<char>,
    targets: JsonV)
    ensures
        selection_labels(sels, list, kf, vf, targets).len() + dependency_count(sels) == sels.len(),
        forall|i: int| 0 <= i < selection_labels(sels, list, kf, vf, targets).len() ==> exists|j: int| 0 <= j < sels.len()
            && !is_dependency(sels[j]) && #[trigger] selection_labels(sels, list, kf, vf, targets)[i]
            == selection_label(sels[j], list, kf, vf, targets),
        forall|j: int| 0 <= j < sels.len() && !is_dependency(#[trigger] sels[j]) ==> exists|i: int| 0 <= i
            < selection_labels(sels, list, kf, vf, targets).len() && selection_labels(sels, list, kf, vf, targets)[i]
            == selection_label(sels[j], list, kf, vf, targets),
    decreases sels.len(),
{
    if sels.len() > 0 {
        let rest = sels.drop_last();
        law_labels_skip_dependencies(rest, list, kf, vf, targets);
        let labels = selection_labels(sels, list, kf, vf, targets);
        let prev = selection_labels(rest, list, kf, vf, targets);
        assert forall|i: int| 0 <= i < labels.len() implies exists|j: int| 0 <= j < sels.len()
            && !is_dependency(sels[j]) && #[trigger] labels[i] == selection_label(sels[j], list, kf, vf, targets) by {
            if i < prev.len() {
                assert(labels[i] == prev[i]);
                let j = choose|j: int| 0 <= j < rest.len() && !is_dependency(rest[j]) && #[trigger] prev[i]
                    == selection_label(rest[j], list, kf, vf, targets);
                assert(sels[j] == rest[j]);
            } else {
                assert(!is_dependency(sels.last()));
                assert(labels[i] == selection_label(sels[sels.len() - 1], list, kf, vf, targets));
            }
        }
        assert forall|j: int| 0 <= j < sels.len() && !is_dependency(#[trigger] sels[j]) implies exists|i: int| 0 <= i
            < labels.len() && labels[i] == selection_label(sels[j], list, kf, vf, targets) by {
            if j < rest.len() {
                assert(sels[j] == rest[j]);
                let i = choose|i: int| 0 <= i < prev.len() && prev[i] == selection_label(rest[j], list, kf, vf, targets);
                assert(labels[i] == prev[i]);
            } else {
                assert(labels[prev.len() as int] == selection_label(sels[j], list, kf, vf, targets));
            }
        }
    }
}

} // verus!
