//! Text scanning for the workflow audit: case folding, substring search, trimming, line lookup
//! and the parsing of `uses:` references and version tags.

use vstd::prelude::*;

use crate::repository::parse_u64;
use crate::validation::{strs_view, text_less, text_lt};
use crate::text::{chars_of, is_ascii_alnum, is_ascii_upper, is_whitespace, trim, starts_with, string_of, sub_chars, whitespace};

verus! {

/// ASCII lowercase of one character.
pub open spec fn lower_char(c: char) -> char {
    if is_ascii_upper(c) {
        ((c as u8 + 32) as u8) as char
    } else {
        c
    }
}

/// ASCII lowercase of a text, as `str::to_ascii_lowercase` returns.
pub open spec fn ascii_lower(s: Seq<char>) -> Seq<char> {
    s.map_values(|c: char| lower_char(c))
}

/// `needle` occurs in `s` starting at `i`.
pub open spec fn occurs_at(s: Seq<char>, needle: Seq<char>, i: int) -> bool {
    0 <= i && i + needle.len() <= s.len() && s.subrange(i, i + needle.len()) == needle
}

/// `needle` occurs somewhere in `s`.
pub open spec fn contains_text(s: Seq<char>, needle: Seq<char>) -> bool {
    exists|i: int| occurs_at(s, needle, i)
}

/// ASCII lowercase of the characters.
pub fn lower_chars(s: &[char]) -> (r: Vec<char>)
    ensures
        r@ == ascii_lower(s@),
{
    let mut out: Vec<char> = Vec::new();
    let mut i: usize = 0;
    while i < s.len()
        invariant
            i <= s@.len(),
            out@ == ascii_lower(s@.take(i as int)),
        decreases s@.len() - i,
    {
        let c = s[i];
        let l = if 'A' <= c && c <= 'Z' { (c as u8 + 32u8) as char } else { c };
        out.push(l);
        proof {
            assert(ascii_lower(s@.take(i + 1)) =~= ascii_lower(s@.take(i as int)).push(lower_char(c)));
        }
        i = i + 1;
    }
    proof {
        assert(s@.take(s@.len() as int) =~= s@);
    }
    out
}

/// Whether `needle` occurs in `s` at `i`.
pub fn occurs(s: &[char], needle: &[char], i: usize) -> (r: bool)
    ensures
        r == occurs_at(s@, needle@, i as int),
{
    let n = s.len();
    if i > n || needle.len() > n - i {
        return false;
    }
    let mut k: usize = 0;
    while k < needle.len()
        invariant
            n == s@.len(),
            i + needle@.len() <= n,
            k <= needle@.len(),
            forall|j: int| 0 <= j < k ==> s@[i + j] == needle@[j],
        decreases needle@.len() - k,
    {
        if s[i + k] != needle[k] {
            proof {
                assert(s@.subrange(i as int, i + needle@.len())[k as int] != needle@[k as int]);
            }
            return false;
        }
        k = k + 1;
    }
    proof {
        assert(s@.subrange(i as int, i + needle@.len()) =~= needle@);
    }
    true
}

/// The first position at or after `from` where `needle` occurs.
pub open spec fn next_occurrence(s: Seq<char>, needle: Seq<char>, from: int) -> Option<int>
    decreases s.len() + 1 - from,
{
    if from < 0 || from > s.len() {
        None
    } else if occurs_at(s, needle, from) {
        Some(from)
    } else {
        next_occurrence(s, needle, from + 1)
    }
}

proof fn lemma_next_occurrence_none(s: Seq<char>, needle: Seq<char>, from: int)
    requires
        0 <= from,
        forall|j: int| from <= j <= s.len() ==> !occurs_at(s, needle, j),
    ensures
        next_occurrence(s, needle, from) is None,
    decreases s.len() + 1 - from,
{
    if from <= s.len() {
        lemma_next_occurrence_none(s, needle, from + 1);
    }
}

proof fn lemma_next_occurrence_some(s: Seq<char>, needle: Seq<char>, from: int, k: int)
    requires
        0 <= from <= k,
        occurs_at(s, needle, k),
        forall|j: int| from <= j < k ==> !occurs_at(s, needle, j),
    ensures
        next_occurrence(s, needle, from) == Some(k),
    decreases k - from,
{
    if from < k {
        lemma_next_occurrence_some(s, needle, from + 1, k);
    }
}

/// An occurrence exactly when a first one exists.
pub proof fn lemma_contains_first(s: Seq<char>, needle: Seq<char>)
    ensures
        contains_text(s, needle) <==> next_occurrence(s, needle, 0) is Some,
{
    if contains_text(s, needle) {
        let k = choose|k: int| occurs_at(s, needle, k);
        if next_occurrence(s, needle, 0) is None {
            lemma_first_bound(s, needle, 0, k);
        }
    } else {
        lemma_next_occurrence_none(s, needle, 0);
    }
}

proof fn lemma_first_bound(s: Seq<char>, needle: Seq<char>, from: int, k: int)
    requires
        0 <= from <= k,
        occurs_at(s, needle, k),
    ensures
        next_occurrence(s, needle, from) is Some,
    decreases k - from,
{
    if !occurs_at(s, needle, from) {
        lemma_first_bound(s, needle, from + 1, k);
    }
}

/// The first position at or after `from` where `needle` occurs.
pub fn find_from(s: &[char], needle: &[char], from: usize) -> (r: Option<usize>)
    ensures
        match r {
            Some(k) => next_occurrence(s@, needle@, from as int) == Some(k as int),
            None => next_occurrence(s@, needle@, from as int) is None,
        },
{
    if from > s.len() {
        return None;
    }
    let n = s.len();
    let mut k: usize = from;
    while k < n
        invariant
            n == s@.len(),
            from <= k <= n,
            forall|j: int| from <= j < k ==> !occurs_at(s@, needle@, j),
        decreases n - k,
    {
        if occurs(s, needle, k) {
            proof {
                lemma_next_occurrence_some(s@, needle@, from as int, k as int);
            }
            return Some(k);
        }
        k = k + 1;
    }
    if occurs(s, needle, n) {
        proof {
            lemma_next_occurrence_some(s@, needle@, from as int, n as int);
        }
        return Some(n);
    }
    proof {
        lemma_next_occurrence_none(s@, needle@, from as int);
    }
    None
}

/// Whether `needle` occurs in `s`.
pub fn contains_chars(s: &[char], needle: &[char]) -> (r: bool)
    ensures
        r == contains_text(s@, needle@),
{
    proof {
        lemma_contains_first(s@, needle@);
    }
    find_from(s, needle, 0).is_some()
}

/// Whether `needle` occurs in `s`.
pub fn contains_str(s: &str, needle: &str) -> (r: bool)
    ensures
        r == contains_text(s@, needle@),
{
    let a = chars_of(s);
    let b = chars_of(needle);
    contains_chars(&a, &b)
}

/// `s` without leading whitespace, as `str::trim_start` returns.
pub open spec fn trim_start(s: Seq<char>) -> Seq<char>
    decreases s.len(),
{
    if s.len() > 0 && is_whitespace(s[0]) {
        trim_start(s.drop_first())
    } else {
        s
    }
}

/// `s` without leading and trailing whitespace.
pub fn trim_chars(s: &[char]) -> (r: Vec<char>)
    ensures
        r@ == trim(s@),
{
    let mut start: usize = 0;
    assert(s@.subrange(0, s@.len() as int) =~= s@);
    while start < s.len() && whitespace(s[start])
        invariant
            start <= s@.len(),
            trim(s@) == trim(s@.subrange(start as int, s@.len() as int)),
        decreases s@.len() - start,
    {
        proof {
            let x = s@.subrange(start as int, s@.len() as int);
            assert(x.drop_first() =~= s@.subrange(start + 1, s@.len() as int));
        }
        start = start + 1;
    }
    let mut end: usize = s.len();
    while end > start && whitespace(s[end - 1])
        invariant
            start <= end <= s@.len(),
            start < s@.len() ==> !is_whitespace(s@[start as int]),
            trim(s@) == trim(s@.subrange(start as int, end as int)),
        decreases end - start,
    {
        proof {
            let x = s@.subrange(start as int, end as int);
            assert(x.drop_last() =~= s@.subrange(start as int, end - 1));
            assert(x[0] == s@[start as int]);
        }
        end = end - 1;
    }
    proof {
        let x = s@.subrange(start as int, end as int);
        if x.len() > 0 {
            assert(x[0] == s@[start as int]);
            assert(x.last() == s@[end - 1]);
        }
    }
    sub_chars(s, start, end)
}

/// `s` without leading whitespace.
pub fn trim_start_chars(s: &[char]) -> (r: Vec<char>)
    ensures
        r@ == trim_start(s@),
{
    let mut start: usize = 0;
    assert(s@.subrange(0, s@.len() as int) =~= s@);
    while start < s.len() && whitespace(s[start])
        invariant
            start <= s@.len(),
            trim_start(s@) == trim_start(s@.subrange(start as int, s@.len() as int)),
        decreases s@.len() - start,
    {
        proof {
            let x = s@.subrange(start as int, s@.len() as int);
            assert(x.drop_first() =~= s@.subrange(start + 1, s@.len() as int));
        }
        start = start + 1;
    }
    sub_chars(s, start, s.len())
}

/// The index of the first line at or after `from` that contains `needle`.
pub open spec fn first_containing(lines: Seq<Seq<char>>, needle: Seq<char>, from: int) -> Option<int>
    decreases lines.len() - from,
{
    if from < 0 || from >= lines.len() {
        None
    } else if contains_text(lines[from], needle) {
        Some(from)
    } else {
        first_containing(lines, needle, from + 1)
    }
}

/// The characters of each line.
pub open spec fn lines_view(lines: Seq<Vec<char>>) -> Seq<Seq<char>> {
    lines.map_values(|l: Vec<char>| l@)
}

/// The one-based number of the first line at or after the zero-based `after` that contains
/// `needle`, else of the first such line anywhere, else 1.
pub open spec fn line_of(lines: Seq<Seq<char>>, needle: Seq<char>, after: int) -> nat {
    match first_containing(lines, needle, after) {
        Some(k) => (k + 1) as nat,
        None => match first_containing(lines, needle, 0) {
            Some(k) => (k + 1) as nat,
            None => 1,
        },
    }
}

proof fn lemma_first_containing_bound(lines: Seq<Seq<char>>, needle: Seq<char>, from: int)
    ensures
        first_containing(lines, needle, from) matches Some(k) ==> from <= k < lines.len(),
    decreases lines.len() - from,
{
    if 0 <= from < lines.len() && !contains_text(lines[from], needle) {
        lemma_first_containing_bound(lines, needle, from + 1);
    }
}

/// The first line at or after `from` containing `needle`.
fn scan_lines(lines: &Vec<Vec<char>>, needle: &[char], from: usize) -> (r: Option<usize>)
    ensures
        r == (match first_containing(lines_view(lines@), needle@, from as int) {
            Some(k) => Some(k as usize),
            None => None::<usize>,
        }),
        r matches Some(k) ==> k < lines@.len(),
{
    let ghost view = lines_view(lines@);
    let mut k: usize = from;
    if k > lines.len() {
        k = lines.len();
    }
    let ghost start = k;
    proof {
        if from > lines@.len() {
            assert(first_containing(view, needle@, from as int) is None);
        }
    }
    while k < lines.len()
        invariant
            k <= lines@.len(),
            view == lines_view(lines@),
            first_containing(view, needle@, from as int) == first_containing(view, needle@, k as int),
        decreases lines@.len() - k,
    {
        if contains_chars(&lines[k], needle) {
            return Some(k);
        }
        k = k + 1;
    }
    None
}

/// The one-based line number of `needle`, searching from line `after` (zero-based) on, then from
/// the start; 1 when no line holds it.
pub fn locate(lines: &Vec<Vec<char>>, needle: &str, after: usize) -> (r: usize)
    ensures
        r as nat == line_of(lines_view(lines@), needle@, after as int),
        r >= 1,
{
    let n = chars_of(needle);
    let count = lines.len();
    proof {
        lemma_first_containing_bound(lines_view(lines@), needle@, after as int);
        lemma_first_containing_bound(lines_view(lines@), needle@, 0);
    }
    match scan_lines(lines, &n, after) {
        Some(k) => k + 1,
        None => match scan_lines(lines, &n, 0) {
            Some(k) => k + 1,
            None => 1,
        },
    }
}

/// The characters up to the first `c`, or all of them.
pub open spec fn before_char(s: Seq<char>, c: char) -> Seq<char>
    decreases s.len(),
{
    if s.len() == 0 {
        s
    } else if s[0] == c {
        seq![]
    } else {
        seq![s[0]] + before_char(s.drop_first(), c)
    }
}

/// The index of the first `c`.
pub open spec fn index_of(s: Seq<char>, c: char) -> Option<int>
    decreases s.len(),
{
    if s.len() == 0 {
        None
    } else if s[0] == c {
        Some(0)
    } else {
        match index_of(s.drop_first(), c) {
            Some(k) => Some(k + 1),
            None => None,
        }
    }
}

proof fn lemma_index_of(s: Seq<char>, c: char, k: int)
    requires
        0 <= k <= s.len(),
        forall|j: int| 0 <= j < k ==> s[j] != c,
    ensures
        k < s.len() && s[k] == c ==> index_of(s, c) == Some(k),
        k == s.len() ==> index_of(s, c) is None,
        before_char(s, c) == (if k < s.len() && s[k] == c { s.take(k) } else if k == s.len() { s } else {
            before_char(s, c)
        }),
    decreases k,
{
    if k > 0 {
        lemma_index_of(s.drop_first(), c, k - 1);
        assert(s.drop_first().take(k - 1) =~= s.take(k).drop_first());
        assert(s.take(k) =~= seq![s[0]] + s.take(k).drop_first());
        assert(s =~= seq![s[0]] + s.drop_first());
    } else if s.len() == 0 {
        assert(s.take(0) =~= s);
    } else {
        assert(s.take(0) =~= seq![]);
    }
}

/// The index of the first `c` in `s`.
pub fn find_char(s: &[char], c: char) -> (r: Option<usize>)
    ensures
        r matches Some(k) ==> index_of(s@, c) == Some(k as int),
        r is None ==> index_of(s@, c) is None,
        r matches Some(k) ==> k < s@.len() && s@[k as int] == c && before_char(s@, c) == s@.take(k as int),
        r is None ==> before_char(s@, c) == s@,
{
    let mut k: usize = 0;
    while k < s.len()
        invariant
            k <= s@.len(),
            forall|j: int| 0 <= j < k ==> s@[j] != c,
        decreases s@.len() - k,
    {
        if s[k] == c {
            proof {
                lemma_index_of(s@, c, k as int);
            }
            return Some(k);
        }
        k = k + 1;
    }
    proof {
        lemma_index_of(s@, c, k as int);
    }
    None
}

/// `s` without any trailing `/`, as `str::trim_end_matches('/')` returns.
pub open spec fn trim_end_slashes(s: Seq<char>) -> Seq<char>
    decreases s.len(),
{
    if s.len() > 0 && s.last() == '/' {
        trim_end_slashes(s.drop_last())
    } else {
        s
    }
}

/// The action path and ref of a `uses:` value naming this Action, matched case-insensitively:
/// the part before the first `@` must be the owner, optionally followed by `/` and a path.
pub open spec fn spec_parse_uses(uses: Seq<char>, owner: Seq<char>) -> Option<(Seq<char>, Seq<char>)> {
    let t = trim(uses);
    match index_of(t, '@') {
        None => None,
        Some(k) => {
            let lower = ascii_lower(t.take(k));
            let reference = t.skip(k + 1);
            if !starts_with(lower, owner) {
                None
            } else {
                let rest = lower.skip(owner.len() as int);
                if rest.len() == 0 {
                    Some((Seq::<char>::empty(), reference))
                } else if rest[0] != '/' {
                    None
                } else {
                    Some((trim_end_slashes(rest.drop_first()), reference))
                }
            }
        },
    }
}

/// Splits `owner/repo[/path]@ref` for the Action named by `owner`, case-insensitively.
pub fn parse_uses(uses: &str, owner: &str) -> (r: Option<(String, String)>)
    ensures
        match r {
            Some((action, reference)) => spec_parse_uses(uses@, owner@) == Some((action@, reference@)),
            None => spec_parse_uses(uses@, owner@) is None,
        },
{
    let all = chars_of(uses);
    let t = trim_chars(&all);
    let found = find_char(&t, '@');
    if found.is_none() {
        return None;
    }
    let at = found.unwrap();
    let tn = t.len();
    assert(at < tn);
    let target = sub_chars(&t, 0, at);
    let lower = lower_chars(&target);
    let reference = sub_chars(&t, at + 1, tn);
    let o = chars_of(owner);
    proof {
        assert(t@.take(at as int) == target@);
        assert(t@.skip(at + 1) == reference@);
    }
    if o.len() > lower.len() {
        return None;
    }
    let head = sub_chars(&lower, 0, o.len());
    if !crate::text::chars_are(&head, owner) {
        proof {
            assert(lower@.subrange(0, o@.len() as int) == head@);
        }
        return None;
    }
    proof {
        assert(t@.take(at as int) == target@);
        assert(t@.skip(at + 1) == reference@);
        assert(starts_with(lower@, owner@));
    }
    let rest = sub_chars(&lower, o.len(), lower.len());
    proof {
        assert(rest@ == lower@.skip(owner@.len() as int));
    }
    if rest.len() == 0 {
        return Some((String::new(), string_of(&reference)));
    }
    if rest[0] != '/' {
        return None;
    }
    let mut end: usize = rest.len();
    while end > 1 && rest[end - 1] == '/'
        invariant
            1 <= end <= rest@.len(),
            trim_end_slashes(rest@.drop_first()) == trim_end_slashes(rest@.subrange(1, end as int)),
        decreases end,
    {
        proof {
            assert(rest@.subrange(1, end as int).drop_last() =~= rest@.subrange(1, end - 1));
        }
        end = end - 1;
    }
    proof {
        assert(rest@.drop_first() =~= rest@.subrange(1, rest@.len() as int));
    }
    let path = sub_chars(&rest, 1, end);
    Some((string_of(&path), string_of(&reference)))
}

/// The major version of a tag such as `v10` or `v10.2.1`: after an optional surrounding of
/// whitespace and a leading `v`, the digits before the first `.`, as `u64::from_str` reads them.
pub open spec fn spec_major_version(value: Seq<char>) -> Option<u64> {
    let t = trim(value);
    if t.len() > 0 && t[0] == 'v' {
        match parse_u64(before_char(t.drop_first(), '.')) {
            Some(n) => Some(n as u64),
            None => None,
        }
    } else {
        None
    }
}

/// Whether every character from `start` on is an ASCII digit.
fn digits_from(s: &[char], start: usize) -> (r: bool)
    requires
        start <= s@.len(),
    ensures
        r == crate::repository::all_digits(s@.skip(start as int)),
{
    let mut i: usize = start;
    while i < s.len()
        invariant
            start <= i <= s@.len(),
            forall|j: int| start <= j < i ==> crate::text::is_ascii_digit(#[trigger] s@[j]),
        decreases s@.len() - i,
    {
        if !('0' <= s[i] && s[i] <= '9') {
            proof {
                assert(s@.skip(start as int)[i - start] == s@[i as int]);
            }
            return false;
        }
        i = i + 1;
    }
    proof {
        assert forall|j: int| 0 <= j < s@.skip(start as int).len() implies crate::text::is_ascii_digit(
            #[trigger] s@.skip(start as int)[j],
        ) by {
            assert(s@.skip(start as int)[j] == s@[start + j]);
        }
    }
    true
}

/// The value of a run of decimal digits, with an optional leading `+`, as `u64::from_str` reads it.
pub fn parse_decimal(s: &[char]) -> (r: Option<u64>)
    ensures
        r == (match parse_u64(s@) {
            Some(n) => Some(n as u64),
            None => None::<u64>,
        }),
{
    let start: usize = if s.len() > 0 && s[0] == '+' { 1 } else { 0 };
    let ghost digits = if s@.len() > 0 && s@[0] == '+' { s@.drop_first() } else { s@ };
    proof {
        assert(digits =~= s@.skip(start as int));
    }
    if start >= s.len() {
        return None;
    }
    if !digits_from(s, start) {
        return None;
    }
    let mut value: u64 = 0;
    let mut i: usize = start;
    while i < s.len()
        invariant
            start <= i <= s@.len(),
            start < s@.len(),
            digits == s@.skip(start as int),
            digits == (if s@.len() > 0 && s@[0] == '+' { s@.drop_first() } else { s@ }),
            crate::repository::all_digits(digits),
            value as nat == crate::repository::digits_value(s@.subrange(start as int, i as int)),
        decreases s@.len() - i,
    {
        let c = s[i];
        let ghost a = s@.subrange(start as int, i + 1);
        proof {
            assert(a.drop_last() =~= s@.subrange(start as int, i as int));
            assert(a.last() == c);
            assert(digits[i - start] == c);
        }
        let d = (c as u32 - 48) as u64;
        if value > (u64::MAX - d) / 10 {
            proof {
                assert(a =~= digits.take(a.len() as int));
                assert(crate::repository::all_digits(a));
                assert(crate::repository::digits_value(a) == value * 10 + d);
                assert(value * 10 + d > u64::MAX) by (nonlinear_arith)
                    requires
                        value > (u64::MAX - d) / 10,
                        d <= 9,
                ;
                lemma_digits_grow(a, digits);

            }
            return None;
        }
        value = value * 10 + d;
        i = i + 1;
    }
    proof {
        assert(s@.subrange(start as int, s@.len() as int) =~= digits);
    }
    Some(value)
}

proof fn lemma_digits_prefix(a: Seq<char>, b: Seq<char>)
    requires
        a.len() <= b.len(),
        a == b.take(a.len() as int),
        crate::repository::all_digits(b),
    ensures
        crate::repository::digits_value(a) <= crate::repository::digits_value(b),
    decreases b.len(),
{
    if a.len() < b.len() {
        assert(b.drop_last().take(a.len() as int) =~= a);
        lemma_digits_prefix(a, b.drop_last());
    } else {
        assert(a =~= b);
    }
}

proof fn lemma_digits_grow(a: Seq<char>, b: Seq<char>)
    requires
        a.len() <= b.len(),
        a == b.take(a.len() as int),
        a.len() > 0,
        crate::repository::all_digits(a),
        crate::repository::digits_value(a) > u64::MAX,
    ensures
        !(crate::repository::all_digits(b) && crate::repository::digits_value(b) <= u64::MAX),
{
    if crate::repository::all_digits(b) {
        lemma_digits_prefix(a, b);
    }
}

/// The major version of a tag such as `v10.2.1`.
pub fn major_version(value: &str) -> (r: Option<u64>)
    ensures
        r == spec_major_version(value@),
{
    let all = chars_of(value);
    let t = trim_chars(&all);
    if t.len() == 0 || t[0] != 'v' {
        return None;
    }
    let digits = sub_chars(&t, 1, t.len());
    proof {
        assert(digits@ == t@.drop_first());
    }
    let major = match find_char(&digits, '.') {
        Some(k) => sub_chars(&digits, 0, k),
        None => digits,
    };
    parse_decimal(&major)
}

/// A character of an expression identifier: ASCII alphanumeric, `-` or `_`.
pub open spec fn is_ident_char(c: char) -> bool {
    is_ascii_alnum(c) || c == '-' || c == '_'
}

/// The identifier at the start of `s`: its longest prefix of identifier characters.
pub open spec fn ident(s: Seq<char>) -> Seq<char>
    decreases s.len(),
{
    if s.len() > 0 && is_ident_char(s[0]) {
        seq![s[0]] + ident(s.drop_first())
    } else {
        seq![]
    }
}

/// A character that continues a word, so that a prefix after it is not the start of a reference.
pub open spec fn joins_word(c: char) -> bool {
    is_ascii_alnum(c) || c == '.' || c == '_' || c == '-'
}

/// The text between a reference's name and its output.
pub open spec fn outputs_infix() -> Seq<char> {
    seq!['.', 'o', 'u', 't', 'p', 'u', 't', 's', '.']
}

/// The `(name, output)` of a `<prefix><name>.outputs.<output>` reference at an occurrence `i`
/// of `prefix` in `v`, when it is one.
pub open spec fn expression_at(v: Seq<char>, prefix: Seq<char>, i: int) -> Option<(Seq<char>, Seq<char>)> {
    if i > 0 && joins_word(v[i - 1]) {
        None
    } else {
        let rest = v.skip(i + prefix.len());
        let name = ident(rest);
        let after = rest.skip(name.len() as int);
        if !starts_with(after, outputs_infix()) {
            None
        } else {
            let output = ident(after.skip(9));
            if name.len() > 0 && output.len() > 0 {
                Some((name, output))
            } else {
                None
            }
        }
    }
}

pub proof fn lemma_next_occurrence_bound(s: Seq<char>, needle: Seq<char>, from: int)
    ensures
        next_occurrence(s, needle, from) matches Some(k) ==> from <= k && occurs_at(s, needle, k),
    decreases s.len() + 1 - from,
{
    if 0 <= from <= s.len() && !occurs_at(s, needle, from) {
        lemma_next_occurrence_bound(s, needle, from + 1);
    }
}

/// The references found scanning `v` from `from` on, visiting occurrences of `prefix` as
/// `str::match_indices` does: each search resumes after the previous occurrence.
pub open spec fn expressions_from(v: Seq<char>, prefix: Seq<char>, from: int) -> Set<(Seq<char>, Seq<char>)>
    decreases v.len() + 1 - from,
{
    if prefix.len() == 0 || from < 0 || from > v.len() {
        Set::empty()
    } else {
        match next_occurrence(v, prefix, from) {
            None => Set::empty(),
            Some(k) => {
                proof {
                    lemma_next_occurrence_bound(v, prefix, from);
                }
                let rest = expressions_from(v, prefix, k + prefix.len());
                match expression_at(v, prefix, k) {
                    Some(p) => rest.insert(p),
                    None => rest,
                }
            },
        }
    }
}

/// Every `<prefix><name>.outputs.<output>` reference in the texts.
pub open spec fn expressions_in(values: Seq<Seq<char>>, prefix: Seq<char>) -> Set<(Seq<char>, Seq<char>)>
    decreases values.len(),
{
    if values.len() == 0 {
        Set::empty()
    } else {
        expressions_in(values.drop_last(), prefix).union(expressions_from(values.last(), prefix, 0))
    }
}

/// Pairs of texts ordered by their first text, then their second.
pub open spec fn pair_lt(a: (Seq<char>, Seq<char>), b: (Seq<char>, Seq<char>)) -> bool {
    text_lt(a.0, b.0) || (a.0 == b.0 && text_lt(a.1, b.1))
}

/// The values of a list of pairs of strings.
pub open spec fn pairs_view(v: Seq<(String, String)>) -> Seq<(Seq<char>, Seq<char>)> {
    v.map_values(|p: (String, String)| (p.0@, p.1@))
}

/// Each pair sorts strictly after the one before it.
pub open spec fn pairs_sorted(l: Seq<(Seq<char>, Seq<char>)>) -> bool {
    forall|k: int| 0 < k < l.len() ==> pair_lt(l[k - 1], #[trigger] l[k])
}

/// Sorting by code point is transitive.
pub proof fn lemma_text_lt_trans(a: Seq<char>, b: Seq<char>, c: Seq<char>)
    requires
        text_lt(a, b),
        text_lt(b, c),
    ensures
        text_lt(a, c),
    decreases a.len(),
{
    if a.len() > 0 && b.len() > 0 && c.len() > 0 && a[0] == b[0] && b[0] == c[0] {
        lemma_text_lt_trans(a.drop_first(), b.drop_first(), c.drop_first());
    }
}

proof fn lemma_pair_lt_trans(a: (Seq<char>, Seq<char>), b: (Seq<char>, Seq<char>), c: (Seq<char>, Seq<char>))
    requires
        pair_lt(a, b),
        pair_lt(b, c),
    ensures
        pair_lt(a, c),
{
    if text_lt(a.0, b.0) && text_lt(b.0, c.0) {
        lemma_text_lt_trans(a.0, b.0, c.0);
    } else if a.0 == b.0 && b.0 == c.0 {
        lemma_text_lt_trans(a.1, b.1, c.1);
    }
}

proof fn lemma_pair_lt_irreflexive(a: (Seq<char>, Seq<char>))
    ensures
        !pair_lt(a, a),
{
    crate::validation::lemma_text_lt_irreflexive(a.0);
    crate::validation::lemma_text_lt_irreflexive(a.1);
}

proof fn lemma_pairs_sorted_global(l: Seq<(Seq<char>, Seq<char>)>, i: int, j: int)
    requires
        pairs_sorted(l),
        0 <= i < j < l.len(),
    ensures
        pair_lt(l[i], l[j]),
    decreases j - i,
{
    if j > i + 1 {
        lemma_pairs_sorted_global(l, i, j - 1);
        lemma_pair_lt_trans(l[i], l[j - 1], l[j]);
    }
}

/// Two sorted lists of pairs with the same members are the same list.
pub proof fn lemma_pairs_sorted_unique(a: Seq<(Seq<char>, Seq<char>)>, b: Seq<(Seq<char>, Seq<char>)>)
    requires
        pairs_sorted(a),
        pairs_sorted(b),
        forall|x: (Seq<char>, Seq<char>)| a.contains(x) <==> b.contains(x),
    ensures
        a == b,
    decreases a.len(),
{
    if a.len() == 0 {
        if b.len() > 0 {
            assert(b.contains(b[0]));
        }
        assert(a =~= b);
    } else {
        assert(a.contains(a[0]));
        assert(b.len() > 0);
        let j = choose|j: int| 0 <= j < b.len() && b[j] == a[0];
        assert(b.contains(b[0]));
        let i = choose|i: int| 0 <= i < a.len() && a[i] == b[0];
        if j > 0 {
            lemma_pairs_sorted_global(b, 0, j);
            if i > 0 {
                lemma_pairs_sorted_global(a, 0, i);
                lemma_pair_lt_trans(a[0], b[0], a[0]);
            }
            lemma_pair_lt_irreflexive(a[0]);
        }
        assert(a[0] == b[0]);
        let a1 = a.drop_first();
        let b1 = b.drop_first();
        assert forall|x: (Seq<char>, Seq<char>)| a1.contains(x) <==> b1.contains(x) by {
            if a1.contains(x) {
                let k = choose|k: int| 0 <= k < a1.len() && a1[k] == x;
                lemma_pairs_sorted_global(a, 0, k + 1);
                lemma_pair_lt_irreflexive(a[0]);
                assert(a.contains(x));
                let m = choose|m: int| 0 <= m < b.len() && b[m] == x;
                assert(m != 0);
                assert(b1[m - 1] == x);
            }
            if b1.contains(x) {
                let k = choose|k: int| 0 <= k < b1.len() && b1[k] == x;
                lemma_pairs_sorted_global(b, 0, k + 1);
                lemma_pair_lt_irreflexive(b[0]);
                assert(b.contains(x));
                let m = choose|m: int| 0 <= m < a.len() && a[m] == x;
                assert(m != 0);
                assert(a1[m - 1] == x);
            }
        }
        assert(pairs_sorted(a1)) by {
            assert forall|k: int| 0 < k < a1.len() implies pair_lt(a1[k - 1], #[trigger] a1[k]) by {
                assert(a1[k] == a[k + 1]);
            }
        }
        assert(pairs_sorted(b1)) by {
            assert forall|k: int| 0 < k < b1.len() implies pair_lt(b1[k - 1], #[trigger] b1[k]) by {
                assert(b1[k] == b[k + 1]);
            }
        }
        lemma_pairs_sorted_unique(a1, b1);
        assert(a =~= seq![a[0]] + a1);
        assert(b =~= seq![b[0]] + b1);
    }
}

/// The members of a set of pairs, sorted.
pub open spec fn sorted_pairs(set: Set<(Seq<char>, Seq<char>)>) -> Seq<(Seq<char>, Seq<char>)> {
    choose|l: Seq<(Seq<char>, Seq<char>)>| pairs_sorted(l) && forall|x: (Seq<char>, Seq<char>)| l.contains(x) <==> set.contains(x)
}

fn is_ident(c: char) -> (r: bool)
    ensures
        r == is_ident_char(c),
{
    ('0' <= c && c <= '9') || ('a' <= c && c <= 'z') || ('A' <= c && c <= 'Z') || c == '-' || c == '_'
}

proof fn lemma_ident(s: Seq<char>, j: int)
    requires
        0 <= j <= s.len(),
        forall|i: int| 0 <= i < j ==> is_ident_char(#[trigger] s[i]),
        j == s.len() || !is_ident_char(s[j]),
    ensures
        ident(s) == s.take(j),
    decreases j,
{
    if j > 0 {
        lemma_ident(s.drop_first(), j - 1);
        assert(s.take(j) =~= seq![s[0]] + s.drop_first().take(j - 1));
    } else {
        assert(s.take(0) =~= seq![]);
    }
}

/// The end of the identifier that starts at `start`.
fn ident_end(v: &[char], start: usize) -> (end: usize)
    requires
        start <= v@.len(),
    ensures
        start <= end <= v@.len(),
        v@.subrange(start as int, end as int) == ident(v@.skip(start as int)),
{
    let mut j: usize = start;
    while j < v.len() && is_ident(v[j])
        invariant
            start <= j <= v@.len(),
            forall|i: int| start <= i < j ==> is_ident_char(#[trigger] v@[i]),
        decreases v@.len() - j,
    {
        j = j + 1;
    }
    proof {
        let s = v@.skip(start as int);
        assert forall|i: int| 0 <= i < j - start implies is_ident_char(#[trigger] s[i]) by {
            assert(s[i] == v@[start + i]);
        }
        if j < v@.len() {
            assert(s[j - start] == v@[j as int]);
        }
        lemma_ident(s, j - start);
        assert(s.take(j - start) =~= v@.subrange(start as int, j as int));
    }
    j
}

/// The reference at an occurrence `k` of a prefix of length `prefix_len`.
fn expression_here(v: &[char], prefix: &[char], k: usize) -> (r: Option<(String, String)>)
    requires
        occurs_at(v@, prefix@, k as int),
    ensures
        match r {
            Some(p) => expression_at(v@, prefix@, k as int) == Some((p.0@, p.1@)),
            None => expression_at(v@, prefix@, k as int) is None,
        },
{
    if k > 0 {
        let c = v[k - 1];
        if ('0' <= c && c <= '9') || ('a' <= c && c <= 'z') || ('A' <= c && c <= 'Z') || c == '.' || c == '_'
            || c == '-' {
            return None;
        }
    }
    let start = k + prefix.len();
    let name_end = ident_end(v, start);
    let infix: [char; 9] = ['.', 'o', 'u', 't', 'p', 'u', 't', 's', '.'];
    proof {
        assert(infix@ == outputs_infix());
        let rest = v@.skip(start as int);
        let name = ident(rest);
        assert(name.len() == name_end - start);
        assert(rest.skip(name.len() as int) =~= v@.skip(name_end as int));
    }
    if !occurs(v, &infix, name_end) {
        proof {
            let after = v@.skip(name_end as int);
            if starts_with(after, outputs_infix()) {
                assert(v@.subrange(name_end as int, name_end + 9) =~= after.subrange(0, 9));
            }
        }
        return None;
    }
    assert(infix@.len() == 9);
    let vn = v.len();
    assert(name_end + 9 <= vn);
    let output_start = name_end + 9;
    let output_end = ident_end(v, output_start);
    proof {
        let after = v@.skip(name_end as int);
        assert(after.subrange(0, 9) =~= v@.subrange(name_end as int, name_end + 9));
        assert(after.skip(9) =~= v@.skip(output_start as int));
    }
    if name_end == start || output_end == output_start {
        return None;
    }
    let name = string_of(&sub_chars(v, start, name_end));
    let output = string_of(&sub_chars(v, output_start, output_end));
    Some((name, output))
}

/// Whether pair `a` sorts before pair `b`.
fn pair_less(a: &(String, String), b: &(String, String)) -> (r: bool)
    ensures
        r == pair_lt((a.0@, a.1@), (b.0@, b.1@)),
{
    if text_less(a.0.as_str(), b.0.as_str()) {
        return true;
    }
    crate::text::str_eq(a.0.as_str(), b.0.as_str()) && text_less(a.1.as_str(), b.1.as_str())
}

/// Inserts a pair into a list kept in strictly sorted order; a pair already present is not repeated.
fn insert_pair(list: &mut Vec<(String, String)>, pair: (String, String))
    requires
        pairs_sorted(pairs_view(old(list)@)),
    ensures
        pairs_sorted(pairs_view(final(list)@)),
        forall|x: (Seq<char>, Seq<char>)| pairs_view(final(list)@).contains(x) <==> (pairs_view(old(list)@).contains(x)
            || x == (pair.0@, pair.1@)),
{
    let ghost before = pairs_view(list@);
    let ghost item = (pair.0@, pair.1@);
    let mut i: usize = 0;
    while i < list.len()
        invariant
            i <= list@.len(),
            before == pairs_view(list@),
            before == pairs_view(old(list)@),
            item == (pair.0@, pair.1@),
            pairs_sorted(before),
            i > 0 ==> pair_lt(before[i - 1], item),
        decreases list@.len() - i,
    {
        proof {
            assert(before[i as int] == (list@[i as int].0@, list@[i as int].1@));
        }
        if crate::text::str_eq(list[i].0.as_str(), pair.0.as_str()) && crate::text::str_eq(
            list[i].1.as_str(),
            pair.1.as_str(),
        ) {
            proof {
                assert(before.contains(before[i as int]));
            }
            return;
        }
        if pair_less(&pair, &list[i]) {
            list.insert(i, pair);
            proof {
                let after = pairs_view(list@);
                assert(after =~= before.take(i as int).push(item) + before.skip(i as int));
                assert forall|k: int| 0 < k < after.len() implies pair_lt(after[k - 1], #[trigger] after[k]) by {
                    if k < i {
                        assert(after[k - 1] == before[k - 1] && after[k] == before[k]);
                    } else if k == i {
                    } else if k == i + 1 {
                        assert(after[k] == before[i as int]);
                    } else {
                        assert(after[k - 1] == before[k - 2] && after[k] == before[k - 1]);
                    }
                }
                assert forall|x: (Seq<char>, Seq<char>)| after.contains(x) <==> (before.contains(x) || x == item) by {
                    if after.contains(x) {
                        let k = choose|k: int| 0 <= k < after.len() && after[k] == x;
                        if k < i {
                            assert(before[k] == x);
                        } else if k > i {
                            assert(before[k - 1] == x);
                        }
                    }
                    if before.contains(x) {
                        let k = choose|k: int| 0 <= k < before.len() && before[k] == x;
                        if k < i {
                            assert(after[k] == x);
                        } else {
                            assert(after[k + 1] == x);
                        }
                    }
                    if x == item {
                        assert(after[i as int] == x);
                    }
                }
            }
            return;
        }
        proof {
            let b = before[i as int];
            if item.0 != b.0 {
                crate::validation::lemma_text_lt_total(item.0, b.0);
            } else if item.1 != b.1 {
                crate::validation::lemma_text_lt_total(item.1, b.1);
            } else {
                assert(item == b);
            }
        }
        i = i + 1;
    }
    list.push(pair);
    proof {
        let after = pairs_view(list@);
        assert(after =~= before.push(item));
        assert forall|x: (Seq<char>, Seq<char>)| after.contains(x) <==> (before.contains(x) || x == item) by {
            if after.contains(x) {
                let k = choose|k: int| 0 <= k < after.len() && after[k] == x;
                if k < before.len() {
                    assert(before[k] == x);
                }
            }
            if before.contains(x) {
                let k = choose|k: int| 0 <= k < before.len() && before[k] == x;
                assert(after[k] == x);
            }
            if x == item {
                assert(after[before.len() as int] == x);
            }
        }
    }
}

/// Every `<prefix><name>.outputs.<output>` reference in the texts, once each, sorted by name
/// and then output.
pub fn expressions(values: &Vec<String>, prefix: &str) -> (r: Vec<(String, String)>)
    requires
        prefix@.len() > 0,
    ensures
        pairs_view(r@) == sorted_pairs(expressions_in(strs_view(values@), prefix@)),
        forall|x: (Seq<char>, Seq<char>)| pairs_view(r@).contains(x) <==> expressions_in(strs_view(values@), prefix@).contains(x),
{
    let p = chars_of(prefix);
    let mut found: Vec<(String, String)> = Vec::new();
    let mut i: usize = 0;
    while i < values.len()
        invariant
            i <= values@.len(),
            p@ == prefix@,
            p@.len() > 0,
            pairs_sorted(pairs_view(found@)),
            forall|x: (Seq<char>, Seq<char>)| pairs_view(found@).contains(x) <==> expressions_in(
                strs_view(values@).take(i as int),
                prefix@,
            ).contains(x),
        decreases values@.len() - i,
    {
        proof {
            assert(strs_view(values@).take(i + 1).drop_last() == strs_view(values@).take(i as int));
            assert(strs_view(values@).take(i + 1).last() == values@[i as int]@);
        }
        let v = chars_of(values[i].as_str());
        let ghost acc = expressions_in(strs_view(values@).take(i as int), prefix@);
        let ghost all = expressions_from(v@, p@, 0);
        let ghost mut seen: Set<(Seq<char>, Seq<char>)> = Set::empty();
        let mut pos: usize = 0;
        loop
            invariant
                p@ == prefix@,
                p@.len() > 0,
                pos <= v@.len(),
                all == expressions_from(v@, p@, 0),
                all == seen.union(expressions_from(v@, p@, pos as int)),
                pairs_sorted(pairs_view(found@)),
                forall|x: (Seq<char>, Seq<char>)| pairs_view(found@).contains(x) <==> (acc.contains(x) || seen.contains(x)),
            ensures
                pairs_sorted(pairs_view(found@)),
                forall|x: (Seq<char>, Seq<char>)| pairs_view(found@).contains(x) <==> (acc.contains(x) || all.contains(x)),
            decreases v@.len() + 1 - pos,
        {
            let next = find_from(&v, &p, pos);
            match next {
                None => {
                    proof {
                        assert(expressions_from(v@, p@, pos as int) =~= Set::empty());
                        assert(all =~= seen);
                    }
                    break;
                },
                Some(k) => {
                    proof {
                        lemma_next_occurrence_bound(v@, p@, pos as int);
                    }
                    let here = expression_here(&v, &p, k);
                    let ghost later = expressions_from(v@, p@, k + p@.len());
                    match here {
                        Some(pair) => {
                            proof {
                                seen = seen.insert((pair.0@, pair.1@));
                                assert(all =~= seen.union(later));
                            }
                            insert_pair(&mut found, pair);
                        },
                        None => {
                            proof {
                                assert(all =~= seen.union(later));
                            }
                        },
                    }
                    pos = k + p.len();
                },
            }
        }
        proof {
            assert(v@ == strs_view(values@).take(i + 1).last());
            assert forall|x: (Seq<char>, Seq<char>)| pairs_view(found@).contains(x) <==> expressions_in(
                strs_view(values@).take(i + 1),
                prefix@,
            ).contains(x) by {}
        }
        i = i + 1;
    }
    proof {
        assert(strs_view(values@).take(values@.len() as int) == strs_view(values@));
        let set = expressions_in(strs_view(values@), prefix@);
        let l = pairs_view(found@);
        assert(pairs_sorted(l) && forall|x: (Seq<char>, Seq<char>)| l.contains(x) <==> set.contains(x));
        let m = sorted_pairs(set);
        lemma_pairs_sorted_unique(l, m);
    }
    found
}

} // verus!
