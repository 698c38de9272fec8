use vstd::prelude::*;

use crate::error::{ActionError, ErrorKind};
use crate::json::{Json, JsonV, find, has_key, entries_view, items_view, lemma_entries, lemma_items, lemma_find,
    lemma_find_skip, jv};
use crate::text::{str_eq, concat, push_str, push_char, chars_of, owned};

verus! {

/// The views of a vector of strings.
pub open spec fn strs_view(v: Seq<String>) -> Seq<Seq<char>> {
    v.map_values(|s: String| s@)
}

/// The views of a slice of string slices.
pub open spec fn lits_view(v: Seq<&str>) -> Seq<Seq<char>> {
    v.map_values(|s: &str| s@)
}

/// Every required key is present and every present key is required or optional.
pub open spec fn keys_exact(
    entries: Seq<(Seq<char>, JsonV)>,
    required: Seq<Seq<char>>,
    optional: Seq<Seq<char>>,
) -> bool {
    &&& forall|k: int| 0 <= k < required.len() ==> has_key(entries, #[trigger] required[k])
    &&& forall|i: int| 0 <= i < entries.len() ==> required.contains((#[trigger] entries[i]).0)
        || optional.contains(entries[i].0)
}

/// The string under `key`, if the entries hold one there.
pub open spec fn str_at(entries: Seq<(Seq<char>, JsonV)>, key: Seq<char>) -> Option<Seq<char>> {
    match find(entries, key) {
        Some(JsonV::Str(s)) => Some(s),
        _ => None,
    }
}

/// The object entries under `key`, if the entries hold an object there.
pub open spec fn obj_at(entries: Seq<(Seq<char>, JsonV)>, key: Seq<char>) -> Option<Seq<(Seq<char>, JsonV)>> {
    match find(entries, key) {
        Some(JsonV::Object(e)) => Some(e),
        _ => None,
    }
}

/// The array items under `key`, if the entries hold an array there.
pub open spec fn arr_at(entries: Seq<(Seq<char>, JsonV)>, key: Seq<char>) -> Option<Seq<JsonV>> {
    match find(entries, key) {
        Some(JsonV::Array(a)) => Some(a),
        _ => None,
    }
}

/// The value under `key`, or null.
pub open spec fn val_at(entries: Seq<(Seq<char>, JsonV)>, key: Seq<char>) -> JsonV {
    match find(entries, key) {
        Some(v) => v,
        None => JsonV::Null,
    }
}

/// The strings of an array whose items are all strings.
pub open spec fn strings_of(v: JsonV) -> Option<Seq<Seq<char>>> {
    match v {
        JsonV::Array(items) => if forall|i: int| 0 <= i < items.len() ==> (#[trigger] items[i]) is Str {
            Some(items.map_values(|x: JsonV| x->Str_0))
        } else {
            None
        },
        _ => None,
    }
}

/// No string occurs twice.
pub open spec fn distinct(s: Seq<Seq<char>>) -> bool {
    forall|i: int, j: int| 0 <= i < j < s.len() ==> s[i] != s[j]
}

/// What `string_list` accepts: an array of strings, non-empty and without repeats when asked.
pub open spec fn string_list_ok(v: JsonV, nonempty: bool, unique: bool) -> bool {
    match strings_of(v) {
        Some(s) => (!nonempty || s.len() > 0) && (!unique || distinct(s)),
        None => false,
    }
}

/// The value under `key` in a vector of entries.
pub fn entry<'a>(entries: &'a Vec<(String, Json)>, key: &str) -> (r: Option<&'a Json>)
    ensures
        r matches Some(v) ==> find(entries_view(entries@), key@) == Some(v@),
        r is None ==> find(entries_view(entries@), key@) is None,
{
    let ghost values = entries_view(entries@);
    proof {
        lemma_entries(entries@, entries@.len());
    }
    let mut i: usize = 0;
    while i < entries.len()
        invariant
            i <= entries@.len(),
            values == entries_view(entries@),
            values.len() == entries@.len(),
            forall|k: int| 0 <= k < entries@.len() ==> #[trigger] values[k] == (entries@[k].0@, jv(entries@[k].1)),
            forall|j: int| 0 <= j < i ==> values[j].0 != key@,
        decreases entries@.len() - i,
    {
        if str_eq(entries[i].0.as_str(), key) {
            proof {
                lemma_find_skip(values, key@, i as int);
                assert(values.skip(i as int)[0] == values[i as int]);
            }
            return Some(&entries[i].1);
        }
        i = i + 1;
    }
    proof {
        lemma_find_skip(values, key@, i as int);
        assert(values.skip(i as int).len() == 0);
    }
    None
}

/// Whether the entries hold `key`.
pub fn contains_key(entries: &Vec<(String, Json)>, key: &str) -> (r: bool)
    ensures
        r == has_key(entries_view(entries@), key@),
{
    proof {
        lemma_find(entries_view(entries@), key@);
    }
    entry(entries, key).is_some()
}

pub fn lit_in(list: &[&str], s: &str) -> (r: bool)
    ensures
        r == lits_view(list@).contains(s@),
{
    let mut i: usize = 0;
    while i < list.len()
        invariant
            i <= list@.len(),
            forall|j: int| 0 <= j < i ==> list@[j]@ != s@,
        decreases list@.len() - i,
    {
        if str_eq(list[i], s) {
            proof {
                assert(lits_view(list@)[i as int] == s@);
            }
            return true;
        }
        i = i + 1;
    }
    proof {
        if lits_view(list@).contains(s@) {
            let k = choose|k: int| 0 <= k < lits_view(list@).len() && lits_view(list@)[k] == s@;
            assert(list@[k]@ == s@);
        }
    }
    false
}

/// How one character appears inside a quoted message string: quotes, backslashes, line feeds,
/// carriage returns and tabs escaped with a backslash, every other character as it is.
pub open spec fn debug_escape(c: char) -> Seq<char> {
    if c == '"' {
        seq!['\\', '"']
    } else if c == '\\' {
        seq!['\\', '\\']
    } else if c == '\n' {
        seq!['\\', 'n']
    } else if c == '\r' {
        seq!['\\', 'r']
    } else if c == '\t' {
        seq!['\\', 't']
    } else {
        seq![c]
    }
}

/// The escaped characters of a string.
pub open spec fn debug_escaped(s: Seq<char>) -> Seq<char>
    decreases s.len(),
{
    if s.len() == 0 {
        Seq::empty()
    } else {
        debug_escaped(s.drop_last()) + debug_escape(s.last())
    }
}

/// A string quoted for a message: its escaped characters between double quotes.
pub open spec fn debug_quoted_text(s: Seq<char>) -> Seq<char> {
    seq!['"'] + debug_escaped(s) + seq!['"']
}

/// The quoted names of a list, separated by `, `.
pub open spec fn debug_items(v: Seq<Seq<char>>) -> Seq<char>
    decreases v.len(),
{
    if v.len() == 0 {
        Seq::empty()
    } else if v.len() == 1 {
        debug_quoted_text(v[0])
    } else {
        debug_items(v.drop_last()) + seq![',', ' '] + debug_quoted_text(v.last())
    }
}

/// A list of names as a message shows it: `[`, the quoted names separated by `, `, and `]`.
pub open spec fn debug_list_text(v: Seq<Seq<char>>) -> Seq<char> {
    seq!['['] + debug_items(v) + seq![']']
}

/// Appends `s` quoted for a message, as `Debug` quotes the names a message lists.
fn push_debug_str(out: &mut String, s: &str)
    ensures
        final(out)@ == old(out)@ + debug_quoted_text(s@),
{
    let chars = chars_of(s);
    push_char(out, '"');
    let ghost start = out@;
    let mut i: usize = 0;
    while i < chars.len()
        invariant
            i <= chars@.len(),
            chars@ == s@,
            start == old(out)@ + seq!['"'],
            out@ == start + debug_escaped(s@.take(i as int)),
        decreases chars@.len() - i,
    {
        let c = chars[i];
        proof {
            assert(s@.take(i + 1).drop_last() =~= s@.take(i as int));
            assert(s@.take(i + 1).last() == c);
        }
        if c == '"' {
            push_char(out, '\\');
            push_char(out, '"');
        } else if c == '\\' {
            push_char(out, '\\');
            push_char(out, '\\');
        } else if c == '\n' {
            push_char(out, '\\');
            push_char(out, 'n');
        } else if c == '\r' {
            push_char(out, '\\');
            push_char(out, 'r');
        } else if c == '\t' {
            push_char(out, '\\');
            push_char(out, 't');
        } else {
            push_char(out, c);
        }
        proof {
            assert(out@ =~= start + debug_escaped(s@.take(i + 1)));
        }
        i = i + 1;
    }
    proof {
        assert(s@.take(i as int) =~= s@);
    }
    push_char(out, '"');
    proof {
        assert(out@ =~= old(out)@ + debug_quoted_text(s@));
    }
}

/// A list of names as `format!("{:?}", names)` writes it.
fn debug_list(names: &Vec<String>) -> (r: String)
    ensures
        r@ == debug_list_text(strs_view(names@)),
{
    let ghost v = strs_view(names@);
    let mut out = String::new();
    push_char(&mut out, '[');
    let mut i: usize = 0;
    while i < names.len()
        invariant
            i <= names@.len(),
            v == strs_view(names@),
            out@ == seq!['['] + debug_items(v.take(i as int)),
        decreases names@.len() - i,
    {
        proof {
            assert(v.take(i + 1).drop_last() =~= v.take(i as int));
            assert(v.take(i + 1).last() == names@[i as int]@);
        }
        if i > 0 {
            push_char(&mut out, ',');
            push_char(&mut out, ' ');
        }
        push_debug_str(&mut out, names[i].as_str());
        proof {
            if i == 0 {
                assert(v.take(1) =~= seq![names@[0]@]);
            }
            assert(out@ =~= seq!['['] + debug_items(v.take(i + 1)));
        }
        i = i + 1;
    }
    push_char(&mut out, ']');
    proof {
        assert(v.take(i as int) =~= v);
        assert(out@ =~= debug_list_text(v));
    }
    out
}

/// `a` sorts strictly before `b` by code point, which is the byte order of their UTF-8 encodings
/// and so the order of `String`.
pub open spec fn text_lt(a: Seq<char>, b: Seq<char>) -> bool
    decreases a.len(),
{
    if a.len() == 0 {
        b.len() > 0
    } else if b.len() == 0 {
        false
    } else if a[0] != b[0] {
        a[0] < b[0]
    } else {
        text_lt(a.drop_first(), b.drop_first())
    }
}

proof fn lemma_text_lt_common(a: Seq<char>, b: Seq<char>, i: int)
    requires
        0 <= i <= a.len(),
        i <= b.len(),
        forall|k: int| 0 <= k < i ==> a[k] == b[k],
    ensures
        text_lt(a, b) == text_lt(a.skip(i), b.skip(i)),
    decreases i,
{
    if i > 0 {
        lemma_text_lt_common(a.drop_first(), b.drop_first(), i - 1);
        assert(a.drop_first().skip(i - 1) == a.skip(i));
        assert(b.drop_first().skip(i - 1) == b.skip(i));
    } else {
        assert(a.skip(0) == a);
        assert(b.skip(0) == b);
    }
}

/// Whether `a` sorts before `b` by code point, which is the byte order of their UTF-8 encodings.
pub fn text_less(a: &str, b: &str) -> (r: bool)
    ensures
        r == text_lt(a@, b@),
{
    let x = chars_of(a);
    let y = chars_of(b);
    let mut i: usize = 0;
    while i < x.len() && i < y.len()
        invariant
            i <= x@.len(),
            i <= y@.len(),
            x@ == a@,
            y@ == b@,
            forall|k: int| 0 <= k < i ==> x@[k] == y@[k],
        decreases x@.len() - i,
    {
        if x[i] != y[i] {
            proof {
                lemma_text_lt_common(x@, y@, i as int);
                assert(x@.skip(i as int)[0] == x@[i as int]);
                assert(y@.skip(i as int)[0] == y@[i as int]);
            }
            return x[i] < y[i];
        }
        i = i + 1;
    }
    proof {
        lemma_text_lt_common(x@, y@, i as int);
    }
    x.len() < y.len()
}

/// Each text sorts strictly after the one before it.
pub open spec fn strictly_sorted(l: Seq<Seq<char>>) -> bool {
    forall|k: int| 0 < k < l.len() ==> text_lt(l[k - 1], #[trigger] l[k])
}

/// Of two different texts, one sorts before the other.
pub proof fn lemma_text_lt_total(a: Seq<char>, b: Seq<char>)
    requires
        a != b,
    ensures
        text_lt(a, b) || text_lt(b, a),
    decreases a.len(),
{
    if a.len() > 0 && b.len() > 0 && a[0] == b[0] {
        if a.drop_first() == b.drop_first() {
            assert(a =~= seq![a[0]] + a.drop_first());
            assert(b =~= seq![b[0]] + b.drop_first());
        }
        lemma_text_lt_total(a.drop_first(), b.drop_first());
    } else if a.len() == 0 && b.len() == 0 {
        assert(a =~= b);
    }
}

/// No text sorts before itself.
pub proof fn lemma_text_lt_irreflexive(a: Seq<char>)
    ensures
        !text_lt(a, a),
    decreases a.len(),
{
    if a.len() > 0 {
        lemma_text_lt_irreflexive(a.drop_first());
    }
}

/// Inserts a name into a list kept in strictly sorted order; a name already present is not repeated.
pub fn insert_sorted(list: &mut Vec<String>, name: String)
    requires
        strictly_sorted(strs_view(old(list)@)),
    ensures
        strictly_sorted(strs_view(final(list)@)),
        forall|x: Seq<char>| strs_view(final(list)@).contains(x) <==> (strs_view(old(list)@).contains(x) || x == name@),
        final(list)@.len() >= 1,
{
    let ghost before = strs_view(list@);
    let mut i: usize = 0;
    while i < list.len()
        invariant
            i <= list@.len(),
            before == strs_view(list@),
            before == strs_view(old(list)@),
            strictly_sorted(before),
            i > 0 ==> text_lt(before[i - 1], name@),
        decreases list@.len() - i,
    {
        proof {
            assert(before[i as int] == list@[i as int]@);
        }
        if str_eq(list[i].as_str(), name.as_str()) {
            proof {
                assert(before.contains(before[i as int]));
            }
            return;
        }
        if text_less(name.as_str(), list[i].as_str()) {
            list.insert(i, name);
            proof {
                let after = strs_view(list@);
                assert(after =~= before.take(i as int).push(name@) + before.skip(i as int));
                assert forall|k: int| 0 < k < after.len() implies text_lt(after[k - 1], #[trigger] after[k]) by {
                    if k < i {
                        assert(after[k - 1] == before[k - 1] && after[k] == before[k]);
                    } else if k == i {
                    } else if k == i + 1 {
                        assert(after[k] == before[i as int]);
                    } else {
                        assert(after[k - 1] == before[k - 2] && after[k] == before[k - 1]);
                    }
                }
                assert forall|x: Seq<char>| after.contains(x) <==> (before.contains(x) || x == name@) by {
                    if after.contains(x) {
                        let k = choose|k: int| 0 <= k < after.len() && after[k] == x;
                        if k < i {
                            assert(before[k] == x);
                        } else if k > i {
                            assert(before[k - 1] == x);
                        }
                    }
                    if before.contains(x) {
                        let k = choose|k: int| 0 <= k < before.len() && before[k] == x;
                        if k < i {
                            assert(after[k] == x);
                        } else {
                            assert(after[k + 1] == x);
                        }
                    }
                    if x == name@ {
                        assert(after[i as int] == x);
                    }
                }
            }
            return;
        }
        proof {
            lemma_text_lt_total(name@, before[i as int]);
        }
        i = i + 1;
    }
    list.push(name);
    proof {
        let after = strs_view(list@);
        assert(after =~= before.push(name@));
        assert forall|k: int| 0 < k < after.len() implies text_lt(after[k - 1], #[trigger] after[k]) by {
            if k < i {
                assert(after[k - 1] == before[k - 1] && after[k] == before[k]);
            }
        }
        assert forall|x: Seq<char>| after.contains(x) <==> (before.contains(x) || x == name@) by {
            if after.contains(x) {
                let k = choose|k: int| 0 <= k < after.len() && after[k] == x;
                if k < i {
                    assert(before[k] == x);
                }
            }
            if before.contains(x) {
                let k = choose|k: int| 0 <= k < before.len() && before[k] == x;
                assert(after[k] == x);
            }
            if x == name@ {
                assert(after[i as int] == x);
            }
        }
    }
}

/// The required keys that the entries lack.
pub open spec fn missing_key(entries: Seq<(Seq<char>, JsonV)>, required: Seq<Seq<char>>, x: Seq<char>) -> bool {
    required.contains(x) && !has_key(entries, x)
}

/// The keys of the entries that are neither required nor optional.
pub open spec fn unknown_key(entries: Seq<(Seq<char>, JsonV)>, required: Seq<Seq<char>>, optional: Seq<Seq<char>>,
    x: Seq<char>) -> bool {
    has_key(entries, x) && !required.contains(x) && !optional.contains(x)
}

/// The rejection of an object whose keys are not exact: `<subject> is missing [..]` with the
/// missing required keys, sorted, when some are missing; otherwise `<subject> has unknown fields
/// [..]` with the unknown keys, sorted.
pub open spec fn keys_message(entries: Seq<(Seq<char>, JsonV)>, required: Seq<Seq<char>>, optional: Seq<Seq<char>>,
    subject: Seq<char>, message: Seq<char>) -> bool {
    if exists|x: Seq<char>| #[trigger] missing_key(entries, required, x) {
        exists|m: Seq<Seq<char>>| #![trigger debug_list_text(m)]
            strictly_sorted(m) && (forall|x: Seq<char>| m.contains(x) <==> #[trigger] missing_key(entries, required, x))
                && message == subject + " is missing "@ + debug_list_text(m)
    } else {
        exists|m: Seq<Seq<char>>| #![trigger debug_list_text(m)]
            strictly_sorted(m) && (forall|x: Seq<char>| m.contains(x) <==> #[trigger] unknown_key(
                entries,
                required,
                optional,
                x,
            )) && message == subject + " has unknown fields "@ + debug_list_text(m)
    }
}

/// Rejects an object that lacks a required key or holds a key that is neither required nor optional.
pub fn exact_keys(object: &Vec<(String, Json)>, required: &[&str], optional: &[&str], subject: &str) -> (r: Result<(), ActionError>)
    ensures
        r is Ok <==> keys_exact(entries_view(object@), lits_view(required@), lits_view(optional@)),
        r matches Err(e) ==> e.kind == ErrorKind::Rejected && keys_message(
            entries_view(object@),
            lits_view(required@),
            lits_view(optional@),
            subject@,
            e.message@,
        ),
{
    let ghost values = entries_view(object@);
    let ghost req = lits_view(required@);
    let ghost opt = lits_view(optional@);
    proof {
        lemma_entries(object@, object@.len());
    }
    let mut missing: Vec<String> = Vec::new();
    let mut k: usize = 0;
    while k < required.len()
        invariant
            k <= required@.len(),
            values == entries_view(object@),
            req == lits_view(required@),
            req.len() == required@.len(),
            (missing@.len() == 0) == (forall|j: int| 0 <= j < k ==> has_key(values, #[trigger] req[j])),
            strictly_sorted(strs_view(missing@)),
            forall|x: Seq<char>| strs_view(missing@).contains(x) <==> (exists|j: int| 0 <= j < k && #[trigger] req[j]
                == x && !has_key(values, x)),
        decreases required@.len() - k,
    {
        proof {
            assert(req[k as int] == required@[k as int]@);
        }
        let ghost before = strs_view(missing@);
        if !contains_key(object, required[k]) {
            insert_sorted(&mut missing, required[k].to_owned());
        }
        proof {
            assert forall|x: Seq<char>| strs_view(missing@).contains(x) <==> (exists|j: int| 0 <= j < k + 1
                && #[trigger] req[j] == x && !has_key(values, x)) by {
                if strs_view(missing@).contains(x) && !before.contains(x) {
                    assert(req[k as int] == x && !has_key(values, x));
                }
                if exists|j: int| 0 <= j < k + 1 && #[trigger] req[j] == x && !has_key(values, x) {
                    let j = choose|j: int| 0 <= j < k + 1 && #[trigger] req[j] == x && !has_key(values, x);
                    if j < k {
                        assert(before.contains(x));
                    }
                }
            }
        }
        k = k + 1;
    }
    proof {
        assert forall|x: Seq<char>| strs_view(missing@).contains(x) <==> #[trigger] missing_key(values, req, x) by {
            if missing_key(values, req, x) {
                let j = choose|j: int| 0 <= j < req.len() && req[j] == x;
                assert(req[j] == x);
            }
        }
    }
    if missing.len() > 0 {
        let mut message = concat(subject, " is missing ");
        push_str(&mut message, debug_list(&missing).as_str());
        proof {
            assert(strs_view(missing@).len() > 0);
            let x = strs_view(missing@)[0];
            assert(strs_view(missing@).contains(x));
            assert(missing_key(values, req, x));
            assert(message@ == subject@ + " is missing "@ + debug_list_text(strs_view(missing@)));
        }
        return Err(ActionError::rejected(message));
    }
    proof {
        assert forall|x: Seq<char>| !#[trigger] missing_key(values, req, x) by {
            if missing_key(values, req, x) {
                assert(strs_view(missing@).contains(x));
            }
        }
    }
    let mut unknown: Vec<String> = Vec::new();
    let mut i: usize = 0;
    while i < object.len()
        invariant
            i <= object@.len(),
            values == entries_view(object@),
            req == lits_view(required@),
            opt == lits_view(optional@),
            values.len() == object@.len(),
            forall|m: int| 0 <= m < object@.len() ==> #[trigger] values[m] == (object@[m].0@, jv(object@[m].1)),
            strictly_sorted(strs_view(unknown@)),
            (unknown@.len() == 0) == (forall|j: int| 0 <= j < i ==> req.contains((#[trigger] values[j]).0)
                || opt.contains(values[j].0)),
            forall|x: Seq<char>| strs_view(unknown@).contains(x) <==> (exists|j: int| 0 <= j < i && (#[trigger] values[j]).0
                == x && !req.contains(x) && !opt.contains(x)),
        decreases object@.len() - i,
    {
        let key = object[i].0.as_str();
        let known = lit_in(required, key) || lit_in(optional, key);
        proof {
            assert(values[i as int].0 == key@);
        }
        let ghost before = strs_view(unknown@);
        if !known {
            insert_sorted(&mut unknown, key.to_owned());
        }
        proof {
            assert forall|x: Seq<char>| strs_view(unknown@).contains(x) <==> (exists|j: int| 0 <= j < i + 1
                && (#[trigger] values[j]).0 == x && !req.contains(x) && !opt.contains(x)) by {
                if strs_view(unknown@).contains(x) && !before.contains(x) {
                    assert(values[i as int].0 == x);
                }
                if exists|j: int| 0 <= j < i + 1 && (#[trigger] values[j]).0 == x && !req.contains(x) && !opt.contains(x) {
                    let j = choose|j: int| 0 <= j < i + 1 && (#[trigger] values[j]).0 == x && !req.contains(x)
                        && !opt.contains(x);
                    if j < i {
                        assert(before.contains(x));
                    }
                }
            }
        }
        i = i + 1;
    }
    proof {
        assert forall|x: Seq<char>| strs_view(unknown@).contains(x) <==> #[trigger] unknown_key(values, req, opt, x) by {
            if unknown_key(values, req, opt, x) {
                let j = choose|j: int| 0 <= j < values.len() && (#[trigger] values[j]).0 == x;
                assert(values[j].0 == x);
            }
        }
    }
    if unknown.len() > 0 {
        let mut message = concat(subject, " has unknown fields ");
        push_str(&mut message, debug_list(&unknown).as_str());
        proof {
            assert(message@ == subject@ + " has unknown fields "@ + debug_list_text(strs_view(unknown@)));
        }
        return Err(ActionError::rejected(message));
    }
    Ok(())
}

/// Fails with a rejection naming `subject.field` and the given suffix.
fn field_rejection(subject: &str, field: &str, suffix: &str) -> (e: ActionError)
    ensures
        e.kind == ErrorKind::Rejected,
        e.message@ == subject@ + seq!['.'] + field@ + suffix@,
{
    let mut message = owned(subject);
    push_char(&mut message, '.');
    push_str(&mut message, field);
    push_str(&mut message, suffix);
    ActionError::rejected(message)
}

/// The object under `field`.
pub fn object_field<'a>(object: &'a Vec<(String, Json)>, field: &str, subject: &str) -> (r: Result<&'a Vec<(String, Json)>, ActionError>)
    ensures
        r is Ok <==> obj_at(entries_view(object@), field@) is Some,
        r matches Ok(o) ==> obj_at(entries_view(object@), field@) == Some(entries_view(o@)),
        r matches Err(e) ==> e.kind == ErrorKind::Rejected
            && e.message@ == subject@ + seq!['.'] + field@ + " is missing or invalid"@,
{
    match entry(object, field) {
        Some(value) => match value.as_object() {
            Some(o) => Ok(o),
            None => Err(field_rejection(subject, field, " is missing or invalid")),
        },
        None => Err(field_rejection(subject, field, " is missing or invalid")),
    }
}

/// The array under `field`.
pub fn array_field<'a>(object: &'a Vec<(String, Json)>, field: &str, subject: &str) -> (r: Result<&'a Vec<Json>, ActionError>)
    ensures
        r is Ok <==> arr_at(entries_view(object@), field@) is Some,
        r matches Ok(a) ==> arr_at(entries_view(object@), field@) == Some(items_view(a@)),
        r matches Err(e) ==> e.kind == ErrorKind::Rejected
            && e.message@ == subject@ + seq!['.'] + field@ + " must be an array"@,
{
    match entry(object, field) {
        Some(value) => match value.as_array() {
            Some(a) => Ok(a),
            None => Err(field_rejection(subject, field, " must be an array")),
        },
        None => Err(field_rejection(subject, field, " must be an array")),
    }
}

/// The string under `field`.
pub fn required_string<'a>(object: &'a Vec<(String, Json)>, field: &str, subject: &str) -> (r: Result<&'a str, ActionError>)
    ensures
        r is Ok <==> str_at(entries_view(object@), field@) is Some,
        r matches Ok(s) ==> str_at(entries_view(object@), field@) == Some(s@),
        r matches Err(e) ==> e.kind == ErrorKind::Rejected
            && e.message@ == subject@ + seq!['.'] + field@ + " is missing or invalid"@,
{
    match entry(object, field) {
        Some(value) => match value.as_str() {
            Some(s) => Ok(s),
            None => Err(field_rejection(subject, field, " is missing or invalid")),
        },
        None => Err(field_rejection(subject, field, " is missing or invalid")),
    }
}

/// Whether two strings of a list coincide.
pub fn has_duplicate(list: &Vec<String>) -> (r: bool)
    ensures
        r == !distinct(strs_view(list@)),
{
    let ghost v = strs_view(list@);
    let mut i: usize = 0;
    while i < list.len()
        invariant
            i <= list@.len(),
            v == strs_view(list@),
            v.len() == list@.len(),
            forall|a: int, b: int| 0 <= a < b < list@.len() && a < i ==> v[a] != v[b],
        decreases list@.len() - i,
    {
        let mut j: usize = i + 1;
        while j < list.len()
            invariant
                i < list@.len(),
                i + 1 <= j <= list@.len(),
                v == strs_view(list@),
                v.len() == list@.len(),
                forall|a: int, b: int| 0 <= a < b < list@.len() && a < i ==> v[a] != v[b],
                forall|b: int| i < b < j ==> v[i as int] != v[b],
            decreases list@.len() - j,
        {
            if str_eq(list[i].as_str(), list[j].as_str()) {
                proof {
                    assert(v[i as int] == v[j as int]);
                }
                return true;
            }
            j = j + 1;
        }
        i = i + 1;
    }
    false
}

/// The strings of an array of strings, non-empty and without repeats when asked.
pub fn string_list(value: &Json, subject: &str, nonempty: bool, unique: bool) -> (r: Result<Vec<String>, ActionError>)
    ensures
        r is Ok <==> string_list_ok(value@, nonempty, unique),
        r matches Ok(v) ==> strings_of(value@) == Some(strs_view(v@)),
        r matches Err(e) ==> e.kind == ErrorKind::Rejected,
{
    let items = match value.as_array() {
        Some(items) => items,
        None => return Err(ActionError::rejected(concat(subject, " must be an array of strings"))),
    };
    let ghost iv = items_view(items@);
    proof {
        lemma_items(items@, items@.len());
    }
    let mut result: Vec<String> = Vec::new();
    let mut i: usize = 0;
    while i < items.len()
        invariant
            i <= items@.len(),
            iv == items_view(items@),
            iv.len() == items@.len(),
            value@ == JsonV::Array(iv),
            forall|k: int| 0 <= k < items@.len() ==> #[trigger] iv[k] == jv(items@[k]),
            result@.len() == i,
            forall|k: int| 0 <= k < i ==> #[trigger] iv[k] == JsonV::Str(result@[k]@),
        decreases items@.len() - i,
    {
        match items[i].as_str() {
            Some(s) => result.push(owned(s)),
            None => {
                proof {
                    assert(!(iv[i as int] is Str));
                }
                return Err(ActionError::rejected(concat(subject, " must contain only strings")));
            },
        }
        i = i + 1;
    }
    proof {
        assert(forall|k: int| 0 <= k < iv.len() ==> (#[trigger] iv[k]) is Str);
        assert(iv.map_values(|x: JsonV| x->Str_0) =~= strs_view(result@));
    }
    if nonempty && result.len() == 0 {
        return Err(ActionError::rejected(concat(subject, " must not be empty")));
    }
    if unique && has_duplicate(&result) {
        return Err(ActionError::rejected(concat(subject, " contains duplicates")));
    }
    Ok(result)
}

/// The string under `key`, when it is one of `options`.
pub open spec fn one_of(v: JsonV, options: Seq<Seq<char>>) -> bool {
    v matches JsonV::Str(s) && options.contains(s)
}

/// Whether the value under `field` is the string `literal`.
pub fn field_is(object: &Vec<(String, Json)>, field: &str, literal: &str) -> (r: bool)
    ensures
        r == (val_at(entries_view(object@), field@) == JsonV::Str(literal@)),
{
    match entry(object, field) {
        Some(value) => match value.as_str() {
            Some(s) => str_eq(s, literal),
            None => false,
        },
        None => false,
    }
}

/// Whether the value under `field` is null, absent or a string.
pub fn field_str_or_null(object: &Vec<(String, Json)>, field: &str) -> (r: bool)
    ensures
        r == (val_at(entries_view(object@), field@) is Null || val_at(entries_view(object@), field@) is Str),
{
    match entry(object, field) {
        Some(value) => value.is_null() || value.as_str().is_some(),
        None => true,
    }
}

/// Whether the value under `field` is one of the given strings.
pub fn field_one_of(object: &Vec<(String, Json)>, field: &str, options: &[&str]) -> (r: bool)
    ensures
        r == one_of(val_at(entries_view(object@), field@), lits_view(options@)),
{
    match entry(object, field) {
        Some(value) => match value.as_str() {
            Some(s) => lit_in(options, s),
            None => false,
        },
        None => false,
    }
}

/// The strings of the array under `field`, as `string_list` reads them.
pub fn field_list(object: &Vec<(String, Json)>, field: &str, subject: &str, nonempty: bool, unique: bool)
    -> (r: Result<Vec<String>, ActionError>)
    ensures
        r is Ok <==> string_list_ok(val_at(entries_view(object@), field@), nonempty, unique),
        r matches Ok(v) ==> strings_of(val_at(entries_view(object@), field@)) == Some(strs_view(v@)),
        r matches Err(e) ==> e.kind == ErrorKind::Rejected,
{
    match entry(object, field) {
        Some(value) => string_list(value, subject, nonempty, unique),
        None => string_list(&Json::Null, subject, nonempty, unique),
    }
}

} // verus!
