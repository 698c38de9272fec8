use vstd::prelude::*;
use vstd::utf8::encode_utf8;

use crate::error::{ActionError, ErrorKind, rejection};
use crate::json::{Json, JsonV, encode, to_bytes, entries_view, items_view, lemma_items, get, at};
use crate::plan_validation::{plan_ok, validate_plan, at_key, text_under, texts_under, all_have_text, str_in};
use crate::text::{chars_of, strip_prefix, lower_hex_only, sub_chars, chars_are, all_lower_hex, starts_with,
    is_ascii_digit, is_ascii_lower, concat3};
use crate::validation::{strs_view, str_at, obj_at, arr_at, val_at, strings_of, string_list_ok, distinct, strictly_sorted,
    entry, field_is, field_list, object_field, required_string, insert_sorted, has_duplicate};

verus! {

/// The largest selector output, 256 KiB.
pub const MAX_SELECTOR_BYTES: usize = 256 * 1024;

/// A character allowed after the first in a work or variant identifier.
pub open spec fn id_char(c: char) -> bool {
    is_ascii_lower(c) || is_ascii_digit(c) || c == '.' || c == '-'
}

/// A narrow identifier: a lowercase ASCII letter, then lowercase letters, digits, dots and hyphens.
pub open spec fn spec_valid_id(s: Seq<char>) -> bool {
    &&& s.len() > 0
    &&& is_ascii_lower(s[0])
    &&& forall|i: int| 1 <= i < s.len() ==> id_char(#[trigger] s[i])
}

/// Lowercase hexadecimal text whose length lies between the two bounds.
pub open spec fn spec_hex_range(s: Seq<char>, minimum: int, maximum: int) -> bool {
    all_lower_hex(s) && minimum <= s.len() <= maximum
}

/// `prefix` followed by 64 lowercase hexadecimal digits.
pub open spec fn spec_valid_hash_id(s: Seq<char>, prefix: Seq<char>) -> bool {
    starts_with(s, prefix) && spec_hex_range(s.skip(prefix.len() as int), 64, 64)
}

/// `prefix`, a non-empty decimal version, `:sha256:` and 64 lowercase hexadecimal digits.
pub open spec fn spec_valid_version_hash(s: Seq<char>, prefix: Seq<char>) -> bool {
    let rest = s.skip(prefix.len() as int);
    let n = rest.len() as int;
    &&& starts_with(s, prefix)
    &&& n > 72
    &&& forall|i: int| 0 <= i < n - 72 ==> is_ascii_digit(#[trigger] rest[i])
    &&& rest.subrange(n - 72, n - 64) == ":sha256:"@
    &&& all_lower_hex(rest.skip(n - 64))
}

/// Whether `value` is a narrow identifier.
pub fn valid_id(value: &str) -> (r: bool)
    ensures
        r == spec_valid_id(value@),
{
    let chars = chars_of(value);
    if chars.len() == 0 || !('a' <= chars[0] && chars[0] <= 'z') {
        return false;
    }
    let mut i: usize = 1;
    while i < chars.len()
        invariant
            1 <= i <= chars@.len(),
            chars@ == value@,
            forall|k: int| 1 <= k < i ==> id_char(#[trigger] chars@[k]),
        decreases chars@.len() - i,
    {
        let c = chars[i];
        if !(('a' <= c && c <= 'z') || ('0' <= c && c <= '9') || c == '.' || c == '-') {
            return false;
        }
        i = i + 1;
    }
    true
}

/// Whether `value` is lowercase hexadecimal of a length between the bounds.
pub fn hex_range(value: &str, minimum: usize, maximum: usize) -> (r: bool)
    ensures
        r == spec_hex_range(value@, minimum as int, maximum as int),
{
    let chars = chars_of(value);
    minimum <= chars.len() && chars.len() <= maximum && lower_hex_only(chars.as_slice())
}

fn hex_range_chars(chars: &[char], minimum: usize, maximum: usize) -> (r: bool)
    ensures
        r == spec_hex_range(chars@, minimum as int, maximum as int),
{
    minimum <= chars.len() && chars.len() <= maximum && lower_hex_only(chars)
}

/// Whether `value` is `prefix` followed by a SHA-256 digest in lowercase hexadecimal.
pub fn valid_hash_id(value: &str, prefix: &str) -> (r: bool)
    ensures
        r == spec_valid_hash_id(value@, prefix@),
{
    let chars = chars_of(value);
    match strip_prefix(chars.as_slice(), prefix) {
        Some(rest) => hex_range_chars(rest.as_slice(), 64, 64),
        None => false,
    }
}

/// Whether `value` is `prefix`, a decimal version, `:sha256:` and a lowercase hexadecimal digest.
pub fn valid_version_hash(value: &str, prefix: &str) -> (r: bool)
    ensures
        r == spec_valid_version_hash(value@, prefix@),
{
    let chars = chars_of(value);
    let rest = match strip_prefix(chars.as_slice(), prefix) {
        Some(rest) => rest,
        None => return false,
    };
    let n = rest.len();
    if n <= 72 {
        return false;
    }
    let mut i: usize = 0;
    while i < n - 72
        invariant
            n == rest@.len(),
            rest@ == value@.skip(prefix@.len() as int),
            starts_with(value@, prefix@),
            n > 72,
            i <= n - 72,
            forall|k: int| 0 <= k < i ==> is_ascii_digit(#[trigger] rest@[k]),
        decreases n - 72 - i,
    {
        if !('0' <= rest[i] && rest[i] <= '9') {
            proof {
                assert(!is_ascii_digit(rest@[i as int]));
            }
            return false;
        }
        i = i + 1;
    }
    let separator = sub_chars(rest.as_slice(), n - 72, n - 64);
    let digest = sub_chars(rest.as_slice(), n - 64, n);
    proof {
        assert(rest@.subrange(n - 64, n as int) == rest@.skip(n - 64));
    }
    chars_are(separator.as_slice(), ":sha256:") && lower_hex_only(digest.as_slice())
}

/// Values each followed by a NUL byte, as a shell reads them with `read -d ''`.
pub open spec fn nul_joined(values: Seq<Seq<char>>) -> Seq<u8>
    decreases values.len(),
{
    if values.len() == 0 {
        seq![]
    } else {
        nul_joined(values.drop_last()) + encode_utf8(values.last()) + seq![0u8]
    }
}

/// No value's encoding holds a NUL byte.
pub open spec fn nul_free(values: Seq<Seq<char>>) -> bool {
    forall|i: int| 0 <= i < values.len() ==> !encode_utf8(#[trigger] values[i]).contains(0u8)
}

/// Appending bytes without a separator extends the last piece of a split.
proof fn lemma_split_append_free(a: Seq<u8>, e: Seq<u8>, sep: u8)
    requires
        !e.contains(sep),
    ensures
        crate::audit::split_bytes(a + e, sep) == crate::audit::split_bytes(a, sep).update(
            crate::audit::split_bytes(a, sep).len() - 1,
            crate::audit::split_bytes(a, sep).last() + e,
        ),
    decreases e.len(),
{
    crate::audit::lemma_split_bytes_nonempty(a, sep);
    let p = crate::audit::split_bytes(a, sep);
    if e.len() == 0 {
        assert(a + e =~= a);
        assert(p.last() + e =~= p.last());
        assert(p.update(p.len() - 1, p.last()) =~= p);
    } else {
        let f = e.drop_last();
        assert(!f.contains(sep)) by {
            if f.contains(sep) {
                let k = choose|k: int| 0 <= k < f.len() && f[k] == sep;
                assert(e[k] == sep);
            }
        }
        lemma_split_append_free(a, f, sep);
        assert((a + e).drop_last() =~= a + f);
        assert((a + e).last() == e.last());
        assert(e.last() != sep) by {
            if e.last() == sep {
                assert(e[e.len() - 1] == sep);
            }
        }
        let q = crate::audit::split_bytes(a + f, sep);
        assert(q.len() == p.len());
        assert(q.last() == p.last() + f);
        assert((p.last() + f).push(e.last()) =~= p.last() + e);
        assert(q.update(q.len() - 1, q.last().push(e.last())) =~= p.update(p.len() - 1, p.last() + e));
    }
}

/// Law: splitting NUL-terminated selector output at its NUL bytes gives back each value's
/// encoding, in order, followed by one final empty piece; so the output is empty exactly when
/// there are no values.
pub proof fn law_nul_values_split_back(values: Seq<Seq<char>>)
    requires
        nul_free(values),
    ensures
        crate::audit::split_bytes(nul_joined(values), 0u8) == values.map_values(|v: Seq<char>| encode_utf8(v)).push(
            Seq::<u8>::empty(),
        ),
        nul_joined(values).len() == 0 <==> values.len() == 0,
    decreases values.len(),
{
    if values.len() > 0 {
        let rest = values.drop_last();
        assert(nul_free(rest)) by {
            assert forall|i: int| 0 <= i < rest.len() implies !encode_utf8(#[trigger] rest[i]).contains(0u8) by {
                assert(rest[i] == values[i]);
            }
        }
        law_nul_values_split_back(rest);
        let j = nul_joined(rest);
        let e = encode_utf8(values.last());
        assert(values.last() == values[values.len() - 1]);
        assert(!e.contains(0u8));
        lemma_split_append_free(j, e, 0u8);
        let joined = nul_joined(values);
        assert(joined == j + e + seq![0u8]);
        assert(joined.drop_last() =~= j + e);
        assert(joined.last() == 0u8);
        let m = values.map_values(|v: Seq<char>| encode_utf8(v));
        let mr = rest.map_values(|v: Seq<char>| encode_utf8(v));
        assert(mr.push(Seq::<u8>::empty()).update(mr.len() as int, Seq::<u8>::empty() + e) =~= m);
        assert(crate::audit::split_bytes(joined, 0u8) =~= m.push(Seq::<u8>::empty()));
    }
}

/// NUL-terminated selector output, refused when it holds a NUL itself or exceeds 256 KiB.
pub fn nul_values(values: Vec<String>) -> (r: Result<Vec<u8>, ActionError>)
    ensures
        r is Ok <==> nul_joined(strs_view(values@)).len() <= MAX_SELECTOR_BYTES && nul_free(strs_view(values@)),
        r matches Ok(bytes) ==> bytes@ == nul_joined(strs_view(values@)),
        r matches Err(e) ==> e.kind == ErrorKind::Rejected,
{
    let ghost sv = strs_view(values@);
    let mut total: usize = 0;
    let mut i: usize = 0;
    while i < values.len()
        invariant
            i <= values@.len(),
            sv == strs_view(values@),
            sv.len() == values@.len(),
            total == nul_joined(sv.take(i as int)).len(),
        decreases values@.len() - i,
    {
        proof {
            assert(sv.take(i + 1).drop_last() == sv.take(i as int));
            assert(sv.take(i + 1).last() == values@[i as int]@);
        }
        let text = values[i].as_str();
        let len = text.as_bytes().len();
        proof {
            assert(text@ == sv[i as int]);
            assert(nul_joined(sv.take(i + 1)).len() == total + len + 1);
        }
        let step = match len.checked_add(1) {
            Some(step) => step,
            None => {
                proof {
                    lemma_nul_joined_grows(sv, i as int + 1);
                }
                return Err(rejection("selector output size overflow"));
            },
        };
        total = match total.checked_add(step) {
            Some(t) => t,
            None => {
                proof {
                    lemma_nul_joined_grows(sv, i as int + 1);
                }
                return Err(rejection("selector output size overflow"));
            },
        };
        i = i + 1;
    }
    proof {
        assert(sv.take(i as int) == sv);
    }
    if total > MAX_SELECTOR_BYTES {
        return Err(rejection("selector output exceeds the 256 KiB bound"));
    }
    let mut output: Vec<u8> = Vec::new();
    let mut j: usize = 0;
    while j < values.len()
        invariant
            j <= values@.len(),
            sv == strs_view(values@),
            sv.len() == values@.len(),
            nul_joined(sv).len() <= MAX_SELECTOR_BYTES,
            output@ == nul_joined(sv.take(j as int)),
            forall|k: int| 0 <= k < j ==> !encode_utf8(#[trigger] sv[k]).contains(0u8),
        decreases values@.len() - j,
    {
        proof {
            assert(sv.take(j + 1).drop_last() == sv.take(j as int));
            assert(sv[j as int] == values@[j as int]@);
        }
        let text = values[j].as_str();
        let bytes = text.as_bytes();
        proof {
            assert(text@ == sv[j as int]);
        }
        let mut k: usize = 0;
        while k < bytes.len()
            invariant
                k <= bytes@.len(),
                j < sv.len(),
                sv == strs_view(values@),
                bytes@ == encode_utf8(sv[j as int]),
                forall|m: int| 0 <= m < k ==> bytes@[m] != 0u8,
            decreases bytes@.len() - k,
        {
            if bytes[k] == 0 {
                proof {
                    assert(encode_utf8(sv[j as int])[k as int] == 0u8);
                    assert(encode_utf8(sv[j as int]).contains(0u8));
                    assert(!nul_free(sv));
                }
                return Err(rejection("selector value contains NUL"));
            }
            k = k + 1;
        }
        let mut m: usize = 0;
        let ghost start = output@;
        while m < bytes.len()
            invariant
                m <= bytes@.len(),
                output@ == start + bytes@.take(m as int),
            decreases bytes@.len() - m,
        {
            output.push(bytes[m]);
            proof {
                assert(bytes@.take(m + 1) == bytes@.take(m as int).push(bytes@[m as int]));
            }
            m = m + 1;
        }
        output.push(0u8);
        proof {
            assert(bytes@.take(m as int) == bytes@);
        }
        j = j + 1;
    }
    proof {
        assert(sv.take(j as int) == sv);
    }
    Ok(output)
}

/// The joined output only grows as values are added.
proof fn lemma_nul_joined_grows(values: Seq<Seq<char>>, n: int)
    requires
        0 <= n <= values.len(),
    ensures
        nul_joined(values.take(n)).len() <= nul_joined(values).len(),
    decreases values.len(),
{
    if n < values.len() {
        assert(values.drop_last().take(n) == values.take(n));
        lemma_nul_joined_grows(values.drop_last(), n);
    } else {
        assert(values.take(n) == values);
    }
}

/// The compact JSON encoding of a value and a line feed, refused beyond 256 KiB.
pub fn compact_line(value: &Json) -> (r: Result<Vec<u8>, ActionError>)
    ensures
        r is Ok <==> encode(value@).len() + 1 <= MAX_SELECTOR_BYTES,
        r matches Ok(bytes) ==> bytes@ == encode(value@).push(10u8),
        r matches Err(e) ==> e.kind == ErrorKind::Rejected,
{
    let mut bytes = to_bytes(value);
    bytes.push(10u8);
    if bytes.len() > MAX_SELECTOR_BYTES {
        return Err(rejection("selector output exceeds the 256 KiB bound"));
    }
    Ok(bytes)
}

/// The decision registered for a well-formed work ID.
pub open spec fn spec_decision(plan: JsonV, work: Seq<char>) -> Option<Seq<(Seq<char>, JsonV)>> {
    if !spec_valid_id(work) {
        None
    } else {
        match get(at(plan, "work"@), work) {
            Some(JsonV::Object(d)) => Some(d),
            _ => None,
        }
    }
}

/// The decision is to skip the work.
pub open spec fn skipped(d: Seq<(Seq<char>, JsonV)>) -> bool {
    val_at(d, "state"@) == JsonV::Str("skipped"@)
}

/// The Cargo selection of a decision whose scope is Cargo.
pub open spec fn cargo_selection_of(d: Seq<(Seq<char>, JsonV)>) -> Option<Seq<(Seq<char>, JsonV)>> {
    match obj_at(d, "scope"@) {
        Some(scope) => if val_at(scope, "kind"@) == JsonV::Str("cargo"@) {
            obj_at(scope, "selection"@)
        } else {
            None
        },
        None => None,
    }
}

/// Whether the work is required: `None` for unknown work.
pub open spec fn spec_is_required(plan: JsonV, work: Seq<char>) -> Option<bool> {
    match spec_decision(plan, work) {
        Some(d) => match str_at(d, "state"@) {
            Some(state) => Some(state == "required"@),
            None => None,
        },
        None => None,
    }
}

/// The Cargo argv of the work: none when skipped.
pub open spec fn spec_cargo_args(plan: JsonV, work: Seq<char>) -> Option<Seq<Seq<char>>> {
    match spec_decision(plan, work) {
        None => None,
        Some(d) => if skipped(d) {
            Some(seq![])
        } else {
            match cargo_selection_of(d) {
                Some(sel) => if string_list_ok(val_at(sel, "cargo_args"@), false, false) {
                    strings_of(val_at(sel, "cargo_args"@))
                } else {
                    None
                },
                None => None,
            }
        },
    }
}

/// The Cargo scope of the work: `skipped`, or the kind of its Cargo selection.
pub open spec fn spec_cargo_scope(plan: JsonV, work: Seq<char>) -> Option<Seq<char>> {
    match spec_decision(plan, work) {
        None => None,
        Some(d) => if skipped(d) {
            Some("skipped"@)
        } else {
            match cargo_selection_of(d) {
                Some(sel) => str_at(sel, "kind"@),
                None => None,
            }
        },
    }
}

/// The package names of the work: none when skipped or for the whole workspace; otherwise the
/// names of its packages, which must be distinct.
pub open spec fn spec_package_names(plan: JsonV, work: Seq<char>) -> Option<Seq<Seq<char>>> {
    match spec_decision(plan, work) {
        None => None,
        Some(d) => if skipped(d) {
            Some(seq![])
        } else {
            match cargo_selection_of(d) {
                Some(sel) => if val_at(sel, "kind"@) == JsonV::Str("workspace"@) {
                    Some(seq![])
                } else {
                    match arr_at(sel, "packages"@) {
                        Some(pk) => if all_have_text(pk, "name"@) && distinct(texts_under(pk, "name"@)) {
                            Some(texts_under(pk, "name"@))
                        } else {
                            None
                        },
                        None => None,
                    }
                },
                None => None,
            }
        },
    }
}

/// A target has unique kinds, and a name when one of its kinds is `test`.
pub open spec fn target_ok_for_args(t: JsonV) -> bool {
    &&& t is Object
    &&& string_list_ok(at(t, "kind"@), false, true)
    &&& strings_of(at(t, "kind"@))->0.contains("test"@) ==> at(t, "name"@) is Str
}

/// A target is an integration test target.
pub open spec fn is_test_target(t: JsonV) -> bool {
    strings_of(at(t, "kind"@))->0.contains("test"@)
}

/// `name` is the name of one of the test targets.
pub open spec fn names_test_target(ts: Seq<JsonV>, name: Seq<char>) -> bool {
    exists|i: int| 0 <= i < ts.len() && is_test_target(#[trigger] ts[i]) && text_under(ts[i], "name"@) == name
}

/// `--test` and the name, for each name in order.
pub open spec fn test_args(names: Seq<Seq<char>>) -> Seq<Seq<char>>
    decreases names.len(),
{
    if names.len() == 0 {
        seq![]
    } else {
        test_args(names.drop_last()) + seq!["--test"@, names.last()]
    }
}

/// The targets of the work that the target argv reads, when its scope is Cargo.
pub open spec fn target_list(plan: JsonV, work: Seq<char>) -> Option<Seq<JsonV>> {
    match spec_decision(plan, work) {
        Some(d) => match cargo_selection_of(d) {
            Some(sel) => arr_at(sel, "targets"@),
            None => None,
        },
        None => None,
    }
}

/// The target argv can be computed: the work is skipped, or its Cargo targets are well formed.
pub open spec fn target_args_defined(plan: JsonV, work: Seq<char>) -> bool {
    spec_decision(plan, work) matches Some(d) && (skipped(d) || (target_list(plan, work) matches Some(ts)
        && forall|i: int| 0 <= i < ts.len() ==> target_ok_for_args(#[trigger] ts[i])))
}

/// Every target is an integration test target.
pub open spec fn all_test_targets(ts: Seq<JsonV>) -> bool {
    forall|k: int| 0 <= k < ts.len() ==> is_test_target(#[trigger] ts[k])
}

/// The target argv: none when skipped, or when some selected target is not an integration test
/// (a mixed or unsupported set); otherwise `--test NAME` for each distinct test target name, in
/// sorted order (none for an empty set).
pub open spec fn target_args_are(plan: JsonV, work: Seq<char>, args: Seq<Seq<char>>) -> bool {
    spec_decision(plan, work) matches Some(d) && if skipped(d) {
        args == Seq::<Seq<char>>::empty()
    } else if !all_test_targets(target_list(plan, work)->0) {
        args == Seq::<Seq<char>>::empty()
    } else {
        exists|names: Seq<Seq<char>>| #![trigger test_args(names)] strictly_sorted(names)
            && (forall|x: Seq<char>| names.contains(x) <==> names_test_target(target_list(plan, work)->0, x))
            && args == test_args(names)
    }
}

/// A validated plan: the bytes that were read and the document they hold.
pub struct ValidatedPlan {
    bytes: Vec<u8>,
    value: Json,
}

impl ValidatedPlan {
    #[verifier::type_invariant]
    spec fn well_formed(self) -> bool {
        plan_ok(self.value@)
    }

    /// The validated document.
    pub closed spec fn document(self) -> JsonV {
        self.value@
    }

    /// The bytes the document was read from.
    pub closed spec fn source(self) -> Seq<u8> {
        self.bytes@
    }

    /// A plan from its bytes and the document parsed from them, when the document is a valid plan.
    pub fn from_parsed(bytes: Vec<u8>, value: Json) -> (r: Result<ValidatedPlan, ActionError>)
        ensures
            r is Ok <==> plan_ok(value@),
            r matches Ok(p) ==> p.document() == value@ && p.source() == bytes@,
            r matches Err(e) ==> e.kind == ErrorKind::Rejected && crate::plan_validation::plan_message(value@, e.message@),
    {
        validate_plan(&value)?;
        Ok(ValidatedPlan { bytes, value })
    }

    /// The bytes the plan was read from.
    pub fn bytes(&self) -> (r: &[u8])
        ensures
            r@ == self.source(),
    {
        self.bytes.as_slice()
    }

    /// The decision of a registered work item.
    pub fn decision(&self, work: &str) -> (r: Result<&Vec<(String, Json)>, ActionError>)
        ensures
            r is Ok <==> spec_decision(self.document(), work@) is Some,
            r matches Ok(d) ==> spec_decision(self.document(), work@) == Some(entries_view(d@)),
            r matches Err(e) ==> e.kind == ErrorKind::Rejected,
    {
        if !valid_id(work) {
            return Err(rejection("work ID is malformed"));
        }
        let unregistered = concat3("plan does not register work ", work, "");
        let work_map = match self.value.get("work") {
            Some(m) => m,
            None => return Err(ActionError::rejected(unregistered)),
        };
        match work_map.as_object() {
            Some(m) => match entry(m, work) {
                Some(d) => match d.as_object() {
                    Some(o) => Ok(o),
                    None => Err(ActionError::rejected(unregistered)),
                },
                None => Err(ActionError::rejected(unregistered)),
            },
            None => Err(ActionError::rejected(unregistered)),
        }
    }

    /// Whether a registered work item is required.
    pub fn is_required(&self, work: &str) -> (r: Result<bool, ActionError>)
        ensures
            r is Ok <==> spec_is_required(self.document(), work@) is Some,
            r matches Ok(b) ==> spec_is_required(self.document(), work@) == Some(b),
            r matches Err(e) ==> e.kind == ErrorKind::Rejected,
    {
        let decision = self.decision(work)?;
        let state = required_string(decision, "state", "work decision")?;
        Ok(crate::text::str_eq(state, "required"))
    }

    /// The Cargo argv of a registered work item; none when it is skipped.
    pub fn cargo_args(&self, work: &str) -> (r: Result<Vec<String>, ActionError>)
        ensures
            r is Ok <==> spec_cargo_args(self.document(), work@) is Some,
            r matches Ok(v) ==> spec_cargo_args(self.document(), work@) == Some(strs_view(v@)),
            r matches Err(e) ==> e.kind == ErrorKind::Rejected,
    {
        let decision = self.decision(work)?;
        if field_is(decision, "state", "skipped") {
            let empty: Vec<String> = Vec::new();
            proof {
                assert(strs_view(empty@) =~= seq![]);
            }
            return Ok(empty);
        }
        let selection = cargo_selection(decision, work)?;
        let subject = concat3("work ", work, " Cargo argv");
        field_list(selection, "cargo_args", subject.as_str(), false, false)
    }

    /// The Cargo scope of a registered work item: `skipped`, `workspace` or `packages`.
    pub fn cargo_scope(&self, work: &str) -> (r: Result<String, ActionError>)
        ensures
            r is Ok <==> spec_cargo_scope(self.document(), work@) is Some,
            r matches Ok(s) ==> spec_cargo_scope(self.document(), work@) == Some(s@),
            r matches Err(e) ==> e.kind == ErrorKind::Rejected,
    {
        let decision = self.decision(work)?;
        if field_is(decision, "state", "skipped") {
            return Ok("skipped".to_owned());
        }
        let selection = cargo_selection(decision, work)?;
        let kind = required_string(selection, "kind", "Cargo selection")?;
        Ok(kind.to_owned())
    }

    /// The package names of a registered work item; none when skipped or for the whole workspace.
    #[verifier::loop_isolation(false)]
    pub fn package_names(&self, work: &str) -> (r: Result<Vec<String>, ActionError>)
        ensures
            r is Ok <==> spec_package_names(self.document(), work@) is Some,
            r matches Ok(v) ==> spec_package_names(self.document(), work@) == Some(strs_view(v@)),
            r matches Err(e) ==> e.kind == ErrorKind::Rejected,
    {
        let decision = self.decision(work)?;
        let empty: Vec<String> = Vec::new();
        proof {
            assert(strs_view(empty@) =~= seq![]);
        }
        if field_is(decision, "state", "skipped") {
            return Ok(empty);
        }
        let selection = cargo_selection(decision, work)?;
        if field_is(selection, "kind", "workspace") {
            return Ok(empty);
        }
        let packages = match entry(selection, "packages") {
            Some(v) => match v.as_array() {
                Some(a) => a,
                None => return Err(ActionError::rejected(concat3("work ", work, " packages are malformed"))),
            },
            None => return Err(ActionError::rejected(concat3("work ", work, " packages are malformed"))),
        };
        proof {
            lemma_items(packages@, packages@.len());
        }
        let ghost pv = items_view(packages@);
        let null = Json::Null;
        let mut names: Vec<String> = Vec::new();
        let mut i: usize = 0;
        while i < packages.len()
            invariant
                i <= packages@.len(),
                pv == items_view(packages@),
                names@.len() == i,
                forall|k: int| 0 <= k < i ==> at(#[trigger] pv[k], "name"@) is Str,
                forall|k: int| 0 <= k < i ==> #[trigger] names@[k]@ == text_under(pv[k], "name"@),
            decreases packages@.len() - i,
        {
            proof {
                assert(pv[i as int] == packages@[i as int]@);
            }
            if packages[i].as_object().is_none() {
                return Err(ActionError::rejected(concat3("work ", work, " package is malformed")));
            }
            let name = match at_key(&packages[i], "name", &null).as_str() {
                Some(n) => n,
                None => return Err(rejection("package.name is missing or invalid")),
            };
            names.push(name.to_owned());
            i = i + 1;
        }
        proof {
            assert(strs_view(names@) =~= texts_under(pv, "name"@));
        }
        if has_duplicate(&names) {
            return Err(ActionError::rejected(concat3("work ", work, " package names are ambiguous")));
        }
        Ok(names)
    }

    /// The target argv of a registered work item: `--test NAME` for each test target, by name, when
    /// every selected target is an integration test, and nothing otherwise.
    #[verifier::loop_isolation(false)]
    pub fn target_args(&self, work: &str) -> (r: Result<Vec<String>, ActionError>)
        ensures
            r is Ok <==> target_args_defined(self.document(), work@),
            r matches Ok(v) ==> target_args_are(self.document(), work@, strs_view(v@)),
            r matches Err(e) ==> e.kind == ErrorKind::Rejected,
    {
        let decision = self.decision(work)?;
        if field_is(decision, "state", "skipped") {
            let empty: Vec<String> = Vec::new();
            proof {
                assert(strs_view(empty@) =~= seq![]);
            }
            return Ok(empty);
        }
        let selection = cargo_selection(decision, work)?;
        let targets = match entry(selection, "targets") {
            Some(v) => match v.as_array() {
                Some(a) => a,
                None => return Err(ActionError::rejected(concat3("work ", work, " targets are malformed"))),
            },
            None => return Err(ActionError::rejected(concat3("work ", work, " targets are malformed"))),
        };
        proof {
            lemma_items(targets@, targets@.len());
            assert(arr_at(entries_view(selection@), "targets"@) == Some(items_view(targets@)));
            assert(target_list(self.document(), work@) == Some(items_view(targets@)));
        }
        let (names, all_tests) = match test_target_names(targets, work) {
            Ok(n) => n,
            Err(e) => {
                proof {
                    let d = entries_view(decision@);
                    assert(spec_decision(self.document(), work@) == Some(d));
                    assert(!skipped(d));
                    let w = choose|w: int| 0 <= w < items_view(targets@).len()
                        && !target_ok_for_args(#[trigger] items_view(targets@)[w]);
                    assert(!target_ok_for_args(items_view(targets@)[w]));
                    assert(target_list(self.document(), work@) == Some(items_view(targets@)));
                    let ts = target_list(self.document(), work@)->0;
                    assert(!target_ok_for_args(ts[w]));
                    assert(!target_args_defined(self.document(), work@));
                }
                return Err(e);
            },
        };
        if !all_tests {
            let empty: Vec<String> = Vec::new();
            proof {
                assert(strs_view(empty@) =~= seq![]);
            }
            return Ok(empty);
        }
        let args = test_args_of(&names);
        proof {
            assert(test_args(strs_view(names@)) == strs_view(args@));
        }
        Ok(args)
    }
}

/// The strings of the array under `key` of a value, as `string_list(&value[key], ..)` reads them.
fn string_list_at(value: &Json, key: &str, subject: &str) -> (r: Result<Vec<String>, ActionError>)
    ensures
        r is Ok <==> string_list_ok(at(value@, key@), false, true),
        r matches Ok(v) ==> strings_of(at(value@, key@)) == Some(strs_view(v@)),
        r matches Err(e) ==> e.kind == ErrorKind::Rejected,
{
    let null = Json::Null;
    crate::validation::string_list(at_key(value, key, &null), subject, false, true)
}

/// The Cargo selection of a decision whose scope is Cargo.
fn cargo_selection<'a>(decision: &'a Vec<(String, Json)>, work: &str) -> (r: Result<&'a Vec<(String, Json)>, ActionError>)
    ensures
        r is Ok <==> cargo_selection_of(entries_view(decision@)) is Some,
        r matches Ok(s) ==> cargo_selection_of(entries_view(decision@)) == Some(entries_view(s@)),
        r matches Err(e) ==> e.kind == ErrorKind::Rejected,
{
    let scope = object_field(decision, "scope", "work decision")?;
    if !field_is(scope, "kind", "cargo") {
        return Err(ActionError::rejected(concat3("work ", work, " does not have Cargo scope")));
    }
    object_field(scope, "selection", "Cargo scope")
}

/// The distinct names of the test targets, sorted.
#[verifier::loop_isolation(false)]
fn test_target_names(targets: &Vec<Json>, work: &str) -> (r: Result<(Vec<String>, bool), ActionError>)
    ensures
        r is Ok <==> forall|i: int| 0 <= i < items_view(targets@).len() ==> target_ok_for_args(#[trigger] items_view(targets@)[i]),
        r matches Ok((names, all)) ==> strictly_sorted(strs_view(names@))
            && (forall|x: Seq<char>| strs_view(names@).contains(x) <==> names_test_target(items_view(targets@), x))
            && all == all_test_targets(items_view(targets@)),
        r matches Err(e) ==> e.kind == ErrorKind::Rejected,
{
    proof {
        lemma_items(targets@, targets@.len());
    }
    let ghost tv = items_view(targets@);
    let null = Json::Null;
    let mut names: Vec<String> = Vec::new();
    let mut all_tests = true;
    let mut i: usize = 0;
    while i < targets.len()
        invariant
            i <= targets@.len(),
            tv == items_view(targets@),
            all_tests == all_test_targets(tv.take(i as int)),
            forall|k: int| 0 <= k < i ==> target_ok_for_args(#[trigger] tv[k]),
            strictly_sorted(strs_view(names@)),
            forall|x: Seq<char>| strs_view(names@).contains(x) <==> names_test_target(tv.take(i as int), x),
        decreases targets@.len() - i,
    {
        proof {
            assert(tv[i as int] == targets@[i as int]@);
            assert(tv.take(i + 1)[i as int] == tv[i as int]);
        }
        if targets[i].as_object().is_none() {
            return Err(ActionError::rejected(concat3("work ", work, " target is malformed")));
        }
        let kinds = string_list_at(&targets[i], "kind", "target kinds")?;
        let test = str_in(&kinds, "test");
        if test {
            let name = match at_key(&targets[i], "name", &null).as_str() {
                Some(n) => n,
                None => return Err(rejection("target.name is missing or invalid")),
            };
            insert_sorted(&mut names, name.to_owned());
        } else {
            all_tests = false;
        }
        proof {
            assert(is_test_target(tv[i as int]) == test);
            assert(all_test_targets(tv.take(i + 1)) == (all_test_targets(tv.take(i as int)) && is_test_target(tv[i as int])));
            assert forall|x: Seq<char>| strs_view(names@).contains(x) <==> names_test_target(tv.take(i + 1), x) by {
                if names_test_target(tv.take(i + 1), x) {
                    let k = choose|k: int| 0 <= k < tv.take(i + 1).len() && is_test_target(#[trigger] tv.take(i + 1)[k])
                        && text_under(tv.take(i + 1)[k], "name"@) == x;
                    if k < i {
                        assert(tv.take(i as int)[k] == tv.take(i + 1)[k]);
                    }
                }
                if names_test_target(tv.take(i as int), x) {
                    let k = choose|k: int| 0 <= k < tv.take(i as int).len() && is_test_target(#[trigger] tv.take(i as int)[k])
                        && text_under(tv.take(i as int)[k], "name"@) == x;
                    assert(tv.take(i + 1)[k] == tv.take(i as int)[k]);
                }
            }
        }
        i = i + 1;
    }
    proof {
        assert(tv.take(i as int) == tv);
    }
    Ok((names, all_tests))
}

/// `--test` and the name, for each name in order.
fn test_args_of(names: &Vec<String>) -> (args: Vec<String>)
    ensures
        strs_view(args@) == test_args(strs_view(names@)),
{
    let mut args: Vec<String> = Vec::new();
    let mut j: usize = 0;
    while j < names.len()
        invariant
            j <= names@.len(),
            strs_view(args@) == test_args(strs_view(names@).take(j as int)),
        decreases names@.len() - j,
    {
        proof {
            assert(strs_view(names@).take(j + 1).drop_last() == strs_view(names@).take(j as int));
            assert(strs_view(names@).take(j + 1).last() == names@[j as int]@);
        }
        let ghost before = strs_view(args@);
        args.push("--test".to_owned());
        args.push(names[j].as_str().to_owned());
        proof {
            assert(strs_view(args@) =~= before + seq!["--test"@, names@[j as int]@]);
        }
        j = j + 1;
    }
    proof {
        assert(strs_view(names@).take(j as int) == strs_view(names@));
    }
    args
}

/// Object entries without those under `key`.
pub open spec fn map_remove(e: Seq<(Seq<char>, JsonV)>, key: Seq<char>) -> Seq<(Seq<char>, JsonV)>
    decreases e.len(),
{
    if e.len() == 0 {
        seq![]
    } else if e.last().0 == key {
        map_remove(e.drop_last(), key)
    } else {
        map_remove(e.drop_last(), key).push(e.last())
    }
}

/// Object entries with `key` set to `value`, as a sorted map inserts it: in place of an entry with
/// that key, or before the first entry whose key sorts after it.
pub open spec fn map_insert(e: Seq<(Seq<char>, JsonV)>, key: Seq<char>, value: JsonV) -> Seq<(Seq<char>, JsonV)>
    decreases e.len(),
{
    if e.len() == 0 {
        seq![(key, value)]
    } else if e[0].0 == key {
        seq![(key, value)] + e.drop_first()
    } else if crate::validation::text_lt(key, e[0].0) {
        seq![(key, value)] + e
    } else {
        seq![e[0]] + map_insert(e.drop_first(), key, value)
    }
}

/// The dimensions of a variant.
pub open spec fn dimensions_of(variant: JsonV) -> Seq<(Seq<char>, JsonV)> {
    at(variant, "dimensions"@)->Object_0
}

/// A matrix row: the dimensions of a variant without its family, and its ID.
pub open spec fn matrix_row(variant: JsonV) -> JsonV {
    JsonV::Object(map_insert(map_remove(dimensions_of(variant), "family"@), "id"@, at(variant, "id"@)))
}

/// The matrix rows of the variants: every row, or only the rows of the family, each wrapped under
/// the family's name.
pub open spec fn matrix_rows(variants: Seq<JsonV>, family: Option<Seq<char>>) -> Seq<JsonV>
    decreases variants.len(),
{
    if variants.len() == 0 {
        seq![]
    } else {
        let rest = matrix_rows(variants.drop_last(), family);
        let v = variants.last();
        match family {
            None => rest.push(matrix_row(v)),
            Some(f) => if crate::json::find(dimensions_of(v), "family"@) == Some(JsonV::Str(f)) {
                rest.push(JsonV::Object(seq![(f, matrix_row(v))]))
            } else {
                rest
            },
        }
    }
}

/// Every variant has object dimensions.
pub open spec fn all_variant_shapes(variants: Seq<JsonV>) -> bool {
    forall|i: int| 0 <= i < variants.len() ==> at(#[trigger] variants[i], "dimensions"@) is Object
}

/// The matrix object holding the rows..
pub open spec fn matrix_of_rows(rows: Seq<JsonV>) -> JsonV {
    JsonV::Object(seq![("include"@, JsonV::Array(rows))])
}

/// The variant matrix of the work: empty when skipped, `all` when every variant is selected, and
/// otherwise the rows of the selected variants, which must not be empty without a family.
pub open spec fn spec_matrix(plan: JsonV, work: Seq<char>, family: Option<Seq<char>>) -> Option<JsonV> {
    match spec_decision(plan, work) {
        None => None,
        Some(d) => if skipped(d) {
            Some(matrix_of_rows(seq![]))
        } else {
            match obj_at(d, "scope"@) {
                None => None,
                Some(scope) => if val_at(scope, "kind"@) != JsonV::Str("variants"@) {
                    None
                } else {
                    match obj_at(scope, "selection"@) {
                        None => None,
                        Some(sel) => if val_at(sel, "kind"@) == JsonV::Str("all"@) {
                            Some(JsonV::Str("all"@))
                        } else {
                            match arr_at(sel, "variants"@) {
                                None => None,
                                Some(vs) => if !all_variant_shapes(vs) {
                                    None
                                } else if family is None && matrix_rows(vs, family).len() == 0 {
                                    None
                                } else {
                                    Some(matrix_of_rows(matrix_rows(vs, family)))
                                },
                            }
                        },
                    }
                },
            }
        },
    }
}

/// Removing a key from entries.
pub fn remove_key(entries: &Vec<(String, Json)>, key: &str) -> (r: Vec<(String, Json)>)
    ensures
        entries_view(r@) == map_remove(entries_view(entries@), key@),
{
    proof {
        crate::json::lemma_entries(entries@, entries@.len());
    }
    let ghost ev = entries_view(entries@);
    let mut out: Vec<(String, Json)> = Vec::new();
    let mut i: usize = 0;
    while i < entries.len()
        invariant
            i <= entries@.len(),
            ev == entries_view(entries@),
            ev.len() == entries@.len(),
            forall|k: int| 0 <= k < entries@.len() ==> #[trigger] ev[k] == (entries@[k].0@, entries@[k].1@),
            entries_view(out@) == map_remove(ev.take(i as int), key@),
        decreases entries@.len() - i,
    {
        proof {
            assert(ev.take(i + 1).drop_last() == ev.take(i as int));
            assert(ev.take(i + 1).last() == ev[i as int]);
            crate::json::lemma_entries(out@, out@.len());
        }
        if !crate::text::str_eq(entries[i].0.as_str(), key) {
            let ghost before = out@;
            out.push((entries[i].0.as_str().to_owned(), crate::json::clone_json(&entries[i].1)));
            proof {
                crate::json::lemma_entries(out@, out@.len());
                assert(entries_view(out@) =~= entries_view(before).push(ev[i as int]));
            }
        }
        i = i + 1;
    }
    proof {
        assert(ev.take(i as int) == ev);
    }
    out
}

/// Entries from position `i` on: the insertion passes entries before the place of the key.
proof fn lemma_map_insert_skip(e: Seq<(Seq<char>, JsonV)>, key: Seq<char>, value: JsonV, i: int)
    requires
        0 <= i <= e.len(),
        forall|j: int| 0 <= j < i ==> (#[trigger] e[j]).0 != key && !crate::validation::text_lt(key, e[j].0),
    ensures
        map_insert(e, key, value) == e.take(i) + map_insert(e.skip(i), key, value),
    decreases i,
{
    if i > 0 {
        lemma_map_insert_skip(e.drop_first(), key, value, i - 1);
        assert(e.drop_first().skip(i - 1) == e.skip(i));
        assert(e.take(i) == seq![e[0]] + e.drop_first().take(i - 1));
    } else {
        assert(e.skip(0) == e);
        assert(e.take(0) =~= seq![]);
    }
}

/// Setting `key` to `value` in sorted-map order.
fn insert_key(entries: Vec<(String, Json)>, key: &str, value: Json) -> (r: Vec<(String, Json)>)
    ensures
        entries_view(r@) == map_insert(entries_view(entries@), key@, value@),
{
    proof {
        crate::json::lemma_entries(entries@, entries@.len());
    }
    let ghost ev = entries_view(entries@);
    let mut i: usize = 0;
    while i < entries.len()
        invariant
            i <= entries@.len(),
            ev == entries_view(entries@),
            ev.len() == entries@.len(),
            forall|k: int| 0 <= k < entries@.len() ==> #[trigger] ev[k] == (entries@[k].0@, entries@[k].1@),
            forall|j: int| 0 <= j < i ==> (#[trigger] ev[j]).0 != key@ && !crate::validation::text_lt(key@, ev[j].0),
        ensures
            i <= entries@.len(),
            i < entries@.len() ==> (ev[i as int].0 == key@ || crate::validation::text_lt(key@, ev[i as int].0)),
            forall|j: int| 0 <= j < i ==> (#[trigger] ev[j]).0 != key@ && !crate::validation::text_lt(key@, ev[j].0),
        decreases entries@.len() - i,
    {
        if crate::text::str_eq(entries[i].0.as_str(), key) || crate::validation::text_less(key, entries[i].0.as_str()) {
            break;
        }
        i = i + 1;
    }
    proof {
        lemma_map_insert_skip(ev, key@, value@, i as int);
    }
    let mut out = entries;
    if i < out.len() && crate::text::str_eq(out[i].0.as_str(), key) {
        let ghost before = out@;
        out.set(i, (key.to_owned(), value));
        proof {
            crate::json::lemma_entries(out@, out@.len());
            assert(ev.skip(i as int)[0].0 == key@);
            assert(entries_view(out@) =~= ev.take(i as int) + (seq![(key@, value@)] + ev.skip(i as int).drop_first()));
        }
    } else {
        let ghost before = out@;
        out.insert(i, (key.to_owned(), value));
        proof {
            crate::json::lemma_entries(out@, out@.len());
            if i < before.len() {
                assert(ev.skip(i as int)[0] == ev[i as int]);
                assert(entries_view(out@) =~= ev.take(i as int) + (seq![(key@, value@)] + ev.skip(i as int)));
            } else {
                assert(ev.skip(i as int) =~= seq![]);
                assert(entries_view(out@) =~= ev.take(i as int) + seq![(key@, value@)]);
            }
        }
    }
    out
}

/// The text of an optional string.
pub open spec fn str_opt(s: Option<&str>) -> Option<Seq<char>> {
    match s {
        Some(t) => Some(t@),
        None => None,
    }
}

/// The matrix rows of the variants, as `matrix_rows` states them.
#[verifier::loop_isolation(false)]
fn matrix_rows_of(variants: &Vec<Json>, family: Option<&str>, work: &str) -> (r: Result<Vec<Json>, ActionError>)
    ensures
        r is Ok <==> all_variant_shapes(items_view(variants@)),
        r matches Ok(rows) ==> items_view(rows@) == matrix_rows(items_view(variants@), str_opt(family)),
        r matches Err(e) ==> e.kind == ErrorKind::Rejected,
{
    proof {
        lemma_items(variants@, variants@.len());
        lemma_items(Seq::<Json>::empty(), 0);
    }
    let ghost vv = items_view(variants@);
    let null = Json::Null;
    let mut rows: Vec<Json> = Vec::new();
    let mut i: usize = 0;
    while i < variants.len()
        invariant
            i <= variants@.len(),
            vv == items_view(variants@),
            forall|k: int| 0 <= k < i ==> at(#[trigger] vv[k], "dimensions"@) is Object,
            items_view(rows@) == matrix_rows(vv.take(i as int), str_opt(family)),
        decreases variants@.len() - i,
    {
        proof {
            assert(vv[i as int] == variants@[i as int]@);
            assert(vv.take(i + 1).drop_last() == vv.take(i as int));
            assert(vv.take(i + 1).last() == vv[i as int]);
        }
        let dimensions = match at_key(&variants[i], "dimensions", &null).as_object() {
            Some(d) => d,
            None => return Err(ActionError::rejected(concat3("work ", work, " selected variants are malformed"))),
        };
        let keep = match family {
            Some(f) => match entry(dimensions, "family") {
                Some(v) => match v.as_str() {
                    Some(name) => crate::text::str_eq(name, f),
                    None => false,
                },
                None => false,
            },
            None => true,
        };
        if keep {
            let trimmed = remove_key(dimensions, "family");
            let id = crate::json::clone_json(at_key(&variants[i], "id", &null));
            let row = Json::Object(insert_key(trimmed, "id", id));
            proof {
                assert(row@ == matrix_row(vv[i as int]));
            }
            let ghost before = rows@;
            match family {
                Some(f) => {
                    let wrapped_entries: Vec<(String, Json)> = vec![(f.to_owned(), row)];
                    proof {
                        crate::json::lemma_entries(wrapped_entries@, 1);
                        assert(entries_view(wrapped_entries@) =~= seq![(f@, matrix_row(vv[i as int]))]);
                    }
                    rows.push(Json::Object(wrapped_entries));
                },
                None => {
                    rows.push(row);
                },
            }
            proof {
                crate::json::lemma_items_push(before, rows@.last());
                assert(rows@ == before.push(rows@.last()));
            }
        }
        i = i + 1;
    }
    proof {
        assert(vv.take(i as int) == vv);
    }
    Ok(rows)
}

impl ValidatedPlan {
    /// The variant matrix of a registered work item, restricted to a family when one is given.
    pub fn matrix(&self, work: &str, family: Option<&str>) -> (r: Result<Json, ActionError>)
        ensures
            r is Ok <==> spec_matrix(self.document(), work@, str_opt(family)) is Some,
            r matches Ok(m) ==> spec_matrix(self.document(), work@, str_opt(family)) == Some(m@),
            r matches Err(e) ==> e.kind == ErrorKind::Rejected,
    {
        let decision = self.decision(work)?;
        if field_is(decision, "state", "skipped") {
            let empty: Vec<Json> = Vec::new();
            let entries: Vec<(String, Json)> = vec![("include".to_owned(), Json::Array(empty))];
            proof {
                lemma_items(empty@, 0);
                crate::json::lemma_entries(entries@, 1);
                assert(entries_view(entries@) =~= matrix_of_rows(seq![])->Object_0);
            }
            return Ok(Json::Object(entries));
        }
        let scope = object_field(decision, "scope", "work decision")?;
        if !field_is(scope, "kind", "variants") {
            return Err(ActionError::rejected(concat3("work ", work, " does not have variant scope")));
        }
        let selection = object_field(scope, "selection", "variant scope")?;
        if field_is(selection, "kind", "all") {
            return Ok(Json::Str("all".to_owned()));
        }
        let variants = match entry(selection, "variants") {
            Some(v) => match v.as_array() {
                Some(a) => a,
                None => return Err(ActionError::rejected(concat3("work ", work, " selected variants are malformed"))),
            },
            None => return Err(ActionError::rejected(concat3("work ", work, " selected variants are malformed"))),
        };
        let rows = matrix_rows_of(variants, family, work)?;
        proof {
            lemma_items(rows@, rows@.len());
        }
        if family.is_none() && rows.len() == 0 {
            return Err(ActionError::rejected(concat3("work ", work, " selected no variants")));
        }
        let ghost rv = items_view(rows@);
        let entries: Vec<(String, Json)> = vec![("include".to_owned(), Json::Array(rows))];
        proof {
            crate::json::lemma_entries(entries@, 1);
            assert(entries_view(entries@) =~= matrix_of_rows(rv)->Object_0);
        }
        Ok(Json::Object(entries))
    }
}

/// A question asked of a validated plan.
pub enum PlanOperation {
    /// The readable Markdown summary.
    Summary,
    /// The required work IDs as one JSON array.
    Required,
    /// Whether one registered work item is required.
    IsRequired(String),
    /// The NUL-delimited Cargo argv of a work item.
    CargoArgs(String),
    /// The Cargo scope of a work item.
    CargoScope(String),
    /// The NUL-delimited package names of a work item.
    PackageNames(String),
    /// The NUL-delimited target argv of a work item.
    TargetArgs(String),
    /// The include matrix of a work item, optionally restricted to a family.
    Matrix(String, Option<String>),
}

/// The UTF-8 bytes of a string.
pub fn bytes_of(s: &str) -> (r: Vec<u8>)
    ensures
        r@ == encode_utf8(s@),
{
    let bytes = s.as_bytes();
    let mut out: Vec<u8> = Vec::new();
    let mut i: usize = 0;
    while i < bytes.len()
        invariant
            i <= bytes@.len(),
            out@ == bytes@.take(i as int),
        decreases bytes@.len() - i,
    {
        out.push(bytes[i]);
        proof {
            assert(bytes@.take(i + 1) == bytes@.take(i as int).push(bytes@[i as int]));
        }
        i = i + 1;
    }
    proof {
        assert(bytes@.take(i as int) == bytes@);
    }
    out
}

/// The output of `true` or `false` and a line feed.
pub open spec fn bool_line(b: bool) -> Seq<char> {
    if b {
        "true\n"@
    } else {
        "false\n"@
    }
}

/// The bytes that a selector prints for a matrix value.
pub open spec fn matrix_output(m: JsonV) -> Seq<u8> {
    if m == JsonV::Str("all"@) {
        encode_utf8("all\n"@)
    } else {
        encode(m).push(10u8)
    }
}

/// A matrix value fits the selector output bound.
pub open spec fn matrix_fits(m: JsonV) -> bool {
    m == JsonV::Str("all"@) || encode(m).len() + 1 <= MAX_SELECTOR_BYTES
}

/// A family restriction, when given, is a narrow identifier.
pub open spec fn family_ok(family: Option<Seq<char>>) -> bool {
    family matches Some(name) ==> spec_valid_id(name)
}

/// NUL-delimited values fit the selector output bound and hold no NUL themselves.
pub open spec fn nul_output_ok(values: Seq<Seq<char>>) -> bool {
    nul_joined(values).len() <= MAX_SELECTOR_BYTES && nul_free(values)
}

impl ValidatedPlan {
    /// The Markdown summary of the plan.
    pub fn render_summary(&self) -> (r: String)
        ensures
            r@ == crate::plan_summary::spec_summary(self.document()),
    {
        crate::plan_summary::render_summary(&self.value)
    }

    /// The required work IDs as one compact JSON array, as the planner publishes them.
    pub fn required_work(&self) -> (r: String)
        ensures
            r@ == crate::json::text_of(at(self.document(), "required"@)),
    {
        let mut out = String::new();
        let null = Json::Null;
        let required = match self.value.get("required") {
            Some(v) => v,
            None => &null,
        };
        crate::json::write_text(required, &mut out);
        out
    }

    /// What a plan selector prints: each answer exactly, within the 256 KiB selector bound.
    pub fn selector_output(&self, operation: &PlanOperation) -> (r: Result<Vec<u8>, ActionError>)
        ensures
            r matches Err(e) ==> e.kind == ErrorKind::Rejected,
            operation is Summary ==> {
                let text = encode_utf8(crate::plan_summary::spec_summary(self.document()));
                &&& r is Ok <==> text.len() <= MAX_SELECTOR_BYTES
                &&& r matches Ok(b) ==> b@ == text
            },
            operation is Required ==> {
                let list = encode(at(self.document(), "required"@));
                &&& r is Ok <==> list.len() + 1 <= MAX_SELECTOR_BYTES
                &&& r matches Ok(b) ==> b@ == list.push(10u8)
            },
            operation matches PlanOperation::IsRequired(w) ==> {
                &&& r is Ok <==> spec_is_required(self.document(), w@) is Some
                &&& r matches Ok(b) ==> b@ == encode_utf8(bool_line(spec_is_required(self.document(), w@)->0))
            },
            operation matches PlanOperation::CargoArgs(w) ==> {
                &&& r is Ok <==> (spec_cargo_args(self.document(), w@) matches Some(a) && nul_output_ok(a))
                &&& r matches Ok(b) ==> b@ == nul_joined(spec_cargo_args(self.document(), w@)->0)
            },
            operation matches PlanOperation::CargoScope(w) ==> {
                &&& r is Ok <==> spec_cargo_scope(self.document(), w@) is Some
                &&& r matches Ok(b) ==> b@ == encode_utf8(spec_cargo_scope(self.document(), w@)->0 + "\n"@)
            },
            operation matches PlanOperation::PackageNames(w) ==> {
                &&& r is Ok <==> (spec_package_names(self.document(), w@) matches Some(a) && nul_output_ok(a))
                &&& r matches Ok(b) ==> b@ == nul_joined(spec_package_names(self.document(), w@)->0)
            },
            operation matches PlanOperation::TargetArgs(w) ==> {
                &&& r is Ok ==> target_args_defined(self.document(), w@)
                &&& r matches Ok(b) ==> exists|a: Seq<Seq<char>>| #![trigger nul_joined(a)]
                    target_args_are(self.document(), w@, a) && nul_output_ok(a) && b@ == nul_joined(a)
                &&& (target_args_defined(self.document(), w@) && r is Err) ==> exists|a: Seq<Seq<char>>|
                    #![trigger nul_joined(a)] target_args_are(self.document(), w@, a) && !nul_output_ok(a)
            },
            operation matches PlanOperation::Matrix(w, f) ==> {
                let family = match f {
                    Some(name) => Some(name@),
                    None => None,
                };
                &&& r is Ok <==> (family_ok(family) && (spec_matrix(self.document(), w@, family) matches Some(m)
                    && matrix_fits(m)))
                &&& r matches Ok(b) ==> b@ == matrix_output(spec_matrix(self.document(), w@, family)->0)
            },
    {
        match operation {
            PlanOperation::Summary => {
                let summary = self.render_summary();
                let bytes = bytes_of(summary.as_str());
                if bytes.len() > MAX_SELECTOR_BYTES {
                    return Err(rejection("plan summary exceeds the 256 KiB display bound"));
                }
                Ok(bytes)
            },
            PlanOperation::Required => {
                let null = Json::Null;
                compact_line(at_key(&self.value, "required", &null))
            },
            PlanOperation::IsRequired(work) => {
                let required = self.is_required(work.as_str())?;
                if required {
                    Ok(bytes_of("true\n"))
                } else {
                    Ok(bytes_of("false\n"))
                }
            },
            PlanOperation::CargoArgs(work) => {
                let args = self.cargo_args(work.as_str())?;
                nul_values(args)
            },
            PlanOperation::CargoScope(work) => {
                let mut kind = self.cargo_scope(work.as_str())?;
                crate::text::push_char(&mut kind, '\n');
                proof {
                    reveal_strlit("\n");
                    assert(kind@ =~= spec_cargo_scope(self.document(), work@)->0 + "\n"@);
                }
                Ok(bytes_of(kind.as_str()))
            },
            PlanOperation::PackageNames(work) => {
                let names = self.package_names(work.as_str())?;
                nul_values(names)
            },
            PlanOperation::TargetArgs(work) => {
                let args = self.target_args(work.as_str())?;
                let ghost a = strs_view(args@);
                let out = nul_values(args);
                proof {
                    assert(target_args_are(self.document(), work@, a));
                    if out is Ok {
                        assert(nul_joined(a) == out->Ok_0@);
                    }
                }
                out
            },
            PlanOperation::Matrix(work, family) => {
                let name = match family {
                    Some(f) => Some(f.as_str()),
                    None => None,
                };
                match name {
                    Some(f) => if !valid_id(f) {
                        return Err(rejection("matrix family is malformed"));
                    },
                    None => {},
                }
                let value = self.matrix(work.as_str(), name)?;
                let is_all = match value.as_str() {
                    Some(s) => crate::text::str_eq(s, "all"),
                    None => false,
                };
                if is_all {
                    Ok(bytes_of("all\n"))
                } else {
                    compact_line(&value)
                }
            },
        }
    }
}


/// `find` over entries with one more entry at the end.
proof fn lemma_find_push(s: Seq<(Seq<char>, JsonV)>, x: (Seq<char>, JsonV), k: Seq<char>)
    ensures
        crate::json::find(s.push(x), k) == (if crate::json::find(s, k) is Some {
            crate::json::find(s, k)
        } else if x.0 == k {
            Some(x.1)
        } else {
            None
        }),
    decreases s.len(),
{
    if s.len() > 0 {
        assert(s.push(x)[0] == s[0]);
        assert(s.push(x).drop_first() == s.drop_first().push(x));
        lemma_find_push(s.drop_first(), x, k);
        assert(crate::json::find(s, k) == (if s[0].0 == k { Some(s[0].1) } else { crate::json::find(s.drop_first(), k) }));
    } else {
        assert(s.push(x).drop_first() =~= Seq::<(Seq<char>, JsonV)>::empty());
        assert(crate::json::find(Seq::<(Seq<char>, JsonV)>::empty(), k) is None);
        assert(s.push(x)[0] == x);
    }
}

/// `find` after removing a key: nothing under that key, the old value under any other.
proof fn lemma_find_map_remove(e: Seq<(Seq<char>, JsonV)>, key: Seq<char>, k: Seq<char>)
    ensures
        crate::json::find(map_remove(e, key), k) == (if k == key { None } else { crate::json::find(e, k) }),
    decreases e.len(),
{
    if e.len() > 0 {
        lemma_find_map_remove(e.drop_last(), key, k);
        assert(e.drop_last().push(e.last()) == e);
        lemma_find_push(e.drop_last(), e.last(), k);
        if e.last().0 != key {
            lemma_find_push(map_remove(e.drop_last(), key), e.last(), k);
        }
    }
}

/// `find` after setting a key: the new value under that key, the old value under any other.
proof fn lemma_find_map_insert(e: Seq<(Seq<char>, JsonV)>, key: Seq<char>, value: JsonV, k: Seq<char>)
    ensures
        crate::json::find(map_insert(e, key, value), k) == (if k == key { Some(value) } else { crate::json::find(e, k) }),
    decreases e.len(),
{
    if e.len() > 0 {
        if e[0].0 == key {
            assert((seq![(key, value)] + e.drop_first())[0] == (key, value));
            assert((seq![(key, value)] + e.drop_first()).drop_first() == e.drop_first());
        } else if crate::validation::text_lt(key, e[0].0) {
            assert((seq![(key, value)] + e)[0] == (key, value));
            assert((seq![(key, value)] + e).drop_first() == e);
        } else {
            lemma_find_map_insert(e.drop_first(), key, value, k);
            let r = seq![e[0]] + map_insert(e.drop_first(), key, value);
            assert(r[0] == e[0]);
            assert(r.drop_first() == map_insert(e.drop_first(), key, value));
        }
    } else {
        let r = seq![(key, value)];
        assert(r.drop_first() =~= Seq::<(Seq<char>, JsonV)>::empty());
        assert(crate::json::find(Seq::<(Seq<char>, JsonV)>::empty(), k) is None);
        assert(crate::json::find(e, k) is None);
    }
}

/// A matrix row stands for a variant: under `id` it holds the variant's ID, it has no `family`,
/// and under every other key it holds that dimension of the variant.
pub open spec fn row_stands_for(row: JsonV, variant: JsonV) -> bool {
    &&& row is Object
    &&& crate::json::find(row->Object_0, "id"@) == Some(at(variant, "id"@))
    &&& crate::json::find(row->Object_0, "family"@) is None
    &&& forall|k: Seq<char>| k != "id"@ && k != "family"@
        ==> #[trigger] crate::json::find(row->Object_0, k) == crate::json::find(dimensions_of(variant), k)
}

proof fn lemma_matrix_row_stands_for(v: JsonV)
    ensures
        row_stands_for(matrix_row(v), v),
{
    reveal_strlit("id");
    reveal_strlit("family");
    assert("id"@ != "family"@) by {
        assert("id"@.len() != "family"@.len());
    }
    let e = map_remove(dimensions_of(v), "family"@);
    lemma_find_map_insert(e, "id"@, at(v, "id"@), "id"@);
    lemma_find_map_insert(e, "id"@, at(v, "id"@), "family"@);
    lemma_find_map_remove(dimensions_of(v), "family"@, "family"@);
    assert forall|k: Seq<char>| k != "id"@ && k != "family"@ implies #[trigger] crate::json::find(
        matrix_row(v)->Object_0, k) == crate::json::find(dimensions_of(v), k) by {
        lemma_find_map_insert(e, "id"@, at(v, "id"@), k);
        lemma_find_map_remove(dimensions_of(v), "family"@, k);
    }
}

/// Every row of a variant matrix carries the ID of the variant it stands for and that variant's
/// dimensions without `family`. Without a family there is one row per selected variant, in
/// order; with a family each row is one entry under the family's name, standing for a variant of
/// that family, and every variant of the family has its row.
pub proof fn law_matrix_rows_carry_variant_ids(variants: Seq<JsonV>, family: Option<Seq<char>>)
    ensures
        family is None ==> matrix_rows(variants, family).len() == variants.len() && forall|i: int|
            0 <= i < variants.len() ==> row_stands_for(#[trigger] matrix_rows(variants, family)[i], variants[i]),
        family matches Some(f) ==> forall|i: int| 0 <= i < matrix_rows(variants, family).len() ==> {
            let row = #[trigger] matrix_rows(variants, family)[i];
            &&& row is Object
            &&& row->Object_0.len() == 1
            &&& row->Object_0[0].0 == f
            &&& exists|j: int| 0 <= j < variants.len()
                && crate::json::find(dimensions_of(#[trigger] variants[j]), "family"@) == Some(JsonV::Str(f))
                && row_stands_for(row->Object_0[0].1, variants[j])
        },
        family matches Some(f) ==> forall|j: int| 0 <= j < variants.len()
            && crate::json::find(dimensions_of(#[trigger] variants[j]), "family"@) == Some(JsonV::Str(f))
            ==> exists|i: int| 0 <= i < matrix_rows(variants, family).len()
                && (#[trigger] matrix_rows(variants, family)[i]) == JsonV::Object(seq![(f, matrix_row(variants[j]))]),
    decreases variants.len(),
{
    if variants.len() > 0 {
        let rest = variants.drop_last();
        let v = variants.last();
        law_matrix_rows_carry_variant_ids(rest, family);
        lemma_matrix_row_stands_for(v);
        let rows = matrix_rows(variants, family);
        let prev = matrix_rows(rest, family);
        match family {
            None => {
                assert forall|i: int| 0 <= i < variants.len() implies row_stands_for(#[trigger] rows[i],
                    variants[i]) by {
                    if i < rest.len() {
                        assert(rows[i] == prev[i]);
                        assert(variants[i] == rest[i]);
                    }
                }
            },
            Some(f) => {
                let keep = crate::json::find(dimensions_of(v), "family"@) == Some(JsonV::Str(f));
                assert forall|i: int| 0 <= i < rows.len() implies {
                    let row = #[trigger] rows[i];
                    &&& row is Object
                    &&& row->Object_0.len() == 1
                    &&& row->Object_0[0].0 == f
                    &&& exists|j: int| 0 <= j < variants.len()
                        && crate::json::find(dimensions_of(#[trigger] variants[j]), "family"@) == Some(JsonV::Str(f))
                        && row_stands_for(row->Object_0[0].1, variants[j])
                } by {
                    if i < prev.len() {
                        assert(rows[i] == prev[i]);
                        let row = prev[i];
                        let j = choose|j: int| 0 <= j < rest.len()
                            && crate::json::find(dimensions_of(#[trigger] rest[j]), "family"@) == Some(JsonV::Str(f))
                            && row_stands_for(row->Object_0[0].1, rest[j]);
                        assert(variants[j] == rest[j]);
                    } else {
                        assert(keep);
                        let j = variants.len() - 1;
                        assert(variants[j] == v);
                        assert(rows[i] == JsonV::Object(seq![(f, matrix_row(v))]));
                    }
                }
                assert forall|j: int| 0 <= j < variants.len()
                    && crate::json::find(dimensions_of(#[trigger] variants[j]), "family"@) == Some(JsonV::Str(f))
                    implies exists|i: int| 0 <= i < rows.len()
                        && (#[trigger] rows[i]) == JsonV::Object(seq![(f, matrix_row(variants[j]))]) by {
                    if j < rest.len() {
                        assert(variants[j] == rest[j]);
                        let i = choose|i: int| 0 <= i < prev.len()
                            && (#[trigger] prev[i]) == JsonV::Object(seq![(f, matrix_row(rest[j]))]);
                        assert(rows[i] == prev[i]);
                    } else {
                        assert(variants[j] == v);
                        assert(rows[prev.len() as int] == JsonV::Object(seq![(f, matrix_row(v))]));
                    }
                }
            },
        }
    }
}


/// The Cargo scope says what the work's decision is: a skipped work item answers `skipped` and
/// has no package names; `workspace` or `packages` come only from a work item that is not
/// skipped and whose Cargo selection has that kind, and `workspace` has no package names.
pub proof fn law_cargo_scope_follows_the_decision(plan: JsonV, work: Seq<char>)
    ensures
        spec_decision(plan, work) matches Some(d) && skipped(d) ==> spec_cargo_scope(plan, work) == Some("skipped"@)
            && spec_package_names(plan, work) == Some(Seq::<Seq<char>>::empty()),
        spec_cargo_scope(plan, work) == Some("workspace"@) ==> spec_decision(plan, work) is Some
            && !skipped(spec_decision(plan, work)->0) && cargo_selection_of(spec_decision(plan, work)->0) is Some
            && val_at(cargo_selection_of(spec_decision(plan, work)->0)->0, "kind"@) == JsonV::Str("workspace"@)
            && spec_package_names(plan, work) == Some(Seq::<Seq<char>>::empty()),
        spec_cargo_scope(plan, work) == Some("packages"@) ==> spec_decision(plan, work) is Some
            && !skipped(spec_decision(plan, work)->0) && cargo_selection_of(spec_decision(plan, work)->0) is Some
            && val_at(cargo_selection_of(spec_decision(plan, work)->0)->0, "kind"@) == JsonV::Str("packages"@),
{
    reveal_strlit("skipped");
    reveal_strlit("workspace");
    reveal_strlit("packages");
    assert("skipped"@ != "workspace"@) by {
        assert("skipped"@[0] != "workspace"@[0]);
    }
    assert("skipped"@ != "packages"@) by {
        assert("skipped"@[0] != "packages"@[0]);
    }
}

} // verus!
