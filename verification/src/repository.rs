use vstd::prelude::*;

use crate::error::{ActionError, ErrorKind, rejection};
use crate::text::{byte_len, has_char, starts_with, ends_with, is_whitespace, is_ascii_digit, is_hex_digit, chars_of, contains_char, whitespace, string_of, owned, str_eq, concat};

verus! {

/// The longest accepted Git ref or path input, in bytes.
pub const MAX_PATH_BYTES: usize = 4096;

/// No whitespace at either end, as `str::trim` leaves it unchanged.
pub open spec fn unpadded(s: Seq<char>) -> bool {
    s.len() > 0 ==> !is_whitespace(s[0]) && !is_whitespace(s.last())
}

/// One bounded, non-option Git ref without padding or line breaks.
pub open spec fn valid_ref(value: &str) -> bool {
    let s = value@;
    &&& s.len() > 0
    &&& value.len() <= MAX_PATH_BYTES
    &&& unpadded(s)
    &&& s[0] != '-'
    &&& !has_char(s, '\r')
    &&& !has_char(s, '\n')
    &&& !has_char(s, '\0')
}

/// One non-empty bounded path without line breaks or NUL.
pub open spec fn valid_path_input(value: &str) -> bool {
    let s = value@;
    &&& s.len() > 0
    &&& value.len() <= MAX_PATH_BYTES
    &&& !has_char(s, '\r')
    &&& !has_char(s, '\n')
    &&& !has_char(s, '\0')
}

/// A full 40- or 64-digit hexadecimal Git object name.
pub open spec fn spec_is_sha(s: Seq<char>) -> bool {
    (s.len() == 40 || s.len() == 64) && forall|i: int| 0 <= i < s.len() ==> is_hex_digit(#[trigger] s[i])
}

/// The all-zero object name that GitHub uses for "no previous commit".
pub open spec fn spec_is_zero_sha(s: Seq<char>) -> bool {
    spec_is_sha(s) && forall|i: int| 0 <= i < s.len() ==> #[trigger] s[i] == '0'
}

/// The value of a sequence of decimal digits.
pub open spec fn digits_value(s: Seq<char>) -> nat
    decreases s.len(),
{
    if s.len() == 0 {
        0
    } else {
        digits_value(s.drop_last()) * 10 + (s.last() as nat - 48) as nat
    }
}

pub open spec fn all_digits(s: Seq<char>) -> bool {
    forall|i: int| 0 <= i < s.len() ==> is_ascii_digit(#[trigger] s[i])
}

/// What `u64::from_str` accepts: an optional `+`, then one or more digits, within range.
pub open spec fn parse_u64(s: Seq<char>) -> Option<nat> {
    let digits = if s.len() > 0 && s[0] == '+' { s.drop_first() } else { s };
    if digits.len() > 0 && all_digits(digits) && digits_value(digits) <= u64::MAX {
        Some(digits_value(digits))
    } else {
        None
    }
}

pub open spec fn head_prefix() -> Seq<char> {
    seq!['H', 'E', 'A', 'D', '~']
}

/// The depth of a `HEAD~N` ref, when it is at most one million.
pub open spec fn spec_head_relative_depth(s: Seq<char>) -> Option<u64> {
    if starts_with(s, head_prefix()) {
        match parse_u64(s.skip(5)) {
            Some(depth) => if depth <= 1_000_000 { Some(depth as u64) } else { None },
            None => None,
        }
    } else {
        None
    }
}

/// The character for a six-bit value in the standard Base64 alphabet.
pub open spec fn base64_char(v: nat) -> char {
    if v < 26 {
        (65 + v) as char
    } else if v < 52 {
        (97 + v - 26) as char
    } else if v < 62 {
        (48 + v - 52) as char
    } else if v == 62 {
        '+'
    } else {
        '/'
    }
}

/// The four characters that encode one chunk of up to three bytes, with `=` padding.
pub open spec fn base64_quad(b: Seq<u8>) -> Seq<char> {
    let first = b[0] as nat;
    let second = if b.len() > 1 { b[1] as nat } else { 0 };
    let third = if b.len() > 2 { b[2] as nat } else { 0 };
    seq![
        base64_char(first / 4),
        base64_char((first % 4) * 16 + second / 16),
        if b.len() > 1 { base64_char((second % 16) * 4 + third / 64) } else { '=' },
        if b.len() > 2 { base64_char(third % 64) } else { '=' },
    ]
}

/// Standard padded Base64 (RFC 4648) of a byte sequence.
pub open spec fn spec_base64(b: Seq<u8>) -> Seq<char>
    decreases b.len(),
{
    if b.len() == 0 {
        seq![]
    } else if b.len() <= 3 {
        base64_quad(b)
    } else {
        base64_quad(b.take(3)) + spec_base64(b.skip(3))
    }
}

/// A rejection whose message is `subject` followed by `suffix`.
pub fn subject_rejection(subject: &str, suffix: &str) -> (e: ActionError)
    ensures
        e.kind == ErrorKind::Rejected,
        e.message@ == subject@ + suffix@,
{
    ActionError::rejected(concat(subject, suffix))
}

/// Fails with a rejection carrying `message` when `condition` is false.
pub fn require(condition: bool, message: String) -> (r: Result<(), ActionError>)
    ensures
        r is Ok <==> condition,
        r matches Err(e) ==> e.kind == ErrorKind::Rejected && e.message@ == message@,
{
    if condition {
        Ok(())
    } else {
        Err(ActionError::rejected(message))
    }
}

fn unpadded_exec(s: &Vec<char>) -> (r: bool)
    ensures
        r == unpadded(s@),
{
    s.len() == 0 || (!whitespace(s[0]) && !whitespace(s[s.len() - 1]))
}

/// Accepts one bounded, non-option Git ref without padding.
pub fn validate_ref(value: &str, subject: &str) -> (r: Result<(), ActionError>)
    ensures
        r is Ok <==> valid_ref(value),
        r matches Err(e) ==> e.kind == ErrorKind::Rejected && e.message@ == subject@
            + " must be one bounded, non-option Git ref without padding"@,
{
    let chars = chars_of(value);
    if chars.len() == 0 || value.len() > MAX_PATH_BYTES || !unpadded_exec(&chars) || chars[0] == '-'
        || contains_char(&chars, '\r') || contains_char(&chars, '\n') || contains_char(&chars, '\0')
    {
        return Err(
            subject_rejection(subject, " must be one bounded, non-option Git ref without padding"),
        );
    }
    Ok(())
}

/// Accepts the empty string or one valid Git ref.
pub fn validate_ref_or_empty(value: &str, subject: &str) -> (r: Result<(), ActionError>)
    ensures
        r is Ok <==> (value@.len() == 0 || valid_ref(value)),
        r matches Err(e) ==> e.kind == ErrorKind::Rejected && e.message@ == subject@
            + " must be one bounded, non-option Git ref without padding"@,
{
    if value.is_empty() {
        Ok(())
    } else {
        validate_ref(value, subject)
    }
}

/// Accepts one non-empty path of at most 4 KiB without line breaks or NUL.
pub fn validate_path_input(value: &str, subject: &str) -> (r: Result<(), ActionError>)
    ensures
        r is Ok <==> valid_path_input(value),
        r matches Err(e) ==> e.kind == ErrorKind::Rejected && e.message@ == subject@
            + " must be one non-empty path no longer than 4 KiB"@,
{
    let chars = chars_of(value);
    if chars.len() == 0 || value.len() > MAX_PATH_BYTES || contains_char(&chars, '\r')
        || contains_char(&chars, '\n') || contains_char(&chars, '\0')
    {
        return Err(subject_rejection(subject, " must be one non-empty path no longer than 4 KiB"));
    }
    Ok(())
}

/// The longest accepted repository token, in bytes.
pub const MAX_TOKEN_BYTES: usize = 4096;

/// Accepts a repository token (possibly empty) of at most 4 KiB on one line.
pub fn check_repository_token(token: &str) -> (r: Result<(), ActionError>)
    ensures
        r is Ok <==> token.len() <= MAX_TOKEN_BYTES && !has_char(token@, '\r') && !has_char(token@, '\n'),
        r matches Err(e) ==> e.kind == ErrorKind::Rejected && e.message@
            == "repository-token must be one value within the 4 KiB bound"@,
{
    let chars = chars_of(token);
    if token.len() > MAX_TOKEN_BYTES || contains_char(&chars, '\r') || contains_char(&chars, '\n') {
        return Err(rejection("repository-token must be one value within the 4 KiB bound"));
    }
    Ok(())
}

/// Parses the Boolean input spellings `true` and `false`.
pub fn parse_bool(value: &str, name: &str) -> (r: Result<bool, ActionError>)
    ensures
        value@ == "true"@ ==> r == Ok::<bool, ActionError>(true),
        value@ == "false"@ ==> r == Ok::<bool, ActionError>(false),
        value@ != "true"@ && value@ != "false"@ ==> (r matches Err(e) && e.kind
            == ErrorKind::Rejected && e.message@ == name@ + " must be true or false"@),
{
    proof {
        reveal_strlit("true");
        reveal_strlit("false");
        assert("false"@.len() == 5);
        assert("true"@.len() == 4);
        assert("false"@ != "true"@);
    }
    if str_eq(value, "true") {
        Ok(true)
    } else if str_eq(value, "false") {
        Ok(false)
    } else {
        Err(subject_rejection(name, " must be true or false"))
    }
}

fn hex_digit_exec(c: char) -> (r: bool)
    ensures
        r == is_hex_digit(c),
{
    ('0' <= c && c <= '9') || ('a' <= c && c <= 'f') || ('A' <= c && c <= 'F')
}

/// Whether `value` is a full 40- or 64-digit hexadecimal object name.
pub fn is_sha(value: &str) -> (r: bool)
    ensures
        r == spec_is_sha(value@),
{
    let chars = chars_of(value);
    if chars.len() != 40 && chars.len() != 64 {
        return false;
    }
    let mut i: usize = 0;
    while i < chars.len()
        invariant
            i <= chars@.len(),
            chars@ == value@,
            forall|j: int| 0 <= j < i ==> is_hex_digit(#[trigger] chars@[j]),
        decreases chars@.len() - i,
    {
        if !hex_digit_exec(chars[i]) {
            return false;
        }
        i = i + 1;
    }
    true
}

/// Whether `value` is the all-zero object name.
pub fn is_zero_sha(value: &str) -> (r: bool)
    ensures
        r == spec_is_zero_sha(value@),
{
    if !is_sha(value) {
        return false;
    }
    let chars = chars_of(value);
    let mut i: usize = 0;
    while i < chars.len()
        invariant
            i <= chars@.len(),
            chars@ == value@,
            forall|j: int| 0 <= j < i ==> #[trigger] chars@[j] == '0',
        decreases chars@.len() - i,
    {
        if chars[i] != '0' {
            return false;
        }
        i = i + 1;
    }
    true
}

proof fn lemma_digits_value_grows(s: Seq<char>, n: int)
    requires
        0 <= n <= s.len(),
        all_digits(s),
    ensures
        digits_value(s.take(n)) <= digits_value(s),
    decreases s.len() - n,
{
    if n < s.len() {
        lemma_digits_value_grows(s, n + 1);
        assert(s.take(n + 1).drop_last() == s.take(n));
    } else {
        assert(s.take(n) == s);
    }
}

/// The value of the digits from `start` on, when they are all digits and it is at most one million.
fn capped_digits(chars: &Vec<char>, start: usize) -> (r: Option<u64>)
    requires
        start <= chars@.len(),
    ensures
        ({
            let d = chars@.skip(start as int);
            r == (if d.len() > 0 && all_digits(d) && digits_value(d) <= 1_000_000 {
                Some(digits_value(d) as u64)
            } else {
                None
            })
        }),
{
    let ghost d = chars@.skip(start as int);
    if start == chars.len() {
        return None;
    }
    let mut depth: u64 = 0;
    let mut i: usize = start;
    while i < chars.len()
        invariant
            start <= i <= chars@.len(),
            d == chars@.skip(start as int),
            forall|j: int| 0 <= j < i - start ==> is_ascii_digit(#[trigger] d[j]),
            depth == digits_value(d.take(i - start)),
            depth <= 1_000_000,
        decreases chars@.len() - i,
    {
        let c = chars[i];
        assert(d[i - start] == c);
        if c < '0' || c > '9' {
            return None;
        }
        proof {
            assert(d.take(i + 1 - start).drop_last() == d.take(i - start));
            assert(d.take(i + 1 - start).last() == c);
        }
        let next = depth * 10 + ((c as u32) - 48) as u64;
        if next > 1_000_000 {
            proof {
                if all_digits(d) {
                    lemma_digits_value_grows(d, i + 1 - start);
                }
            }
            return None;
        }
        depth = next;
        i = i + 1;
    }
    proof {
        assert(d.take(i - start) == d);
    }
    Some(depth)
}

/// The depth of a `HEAD~N` comparison ref, when it is at most one million.
pub fn head_relative_depth(value: &str) -> (r: Option<u64>)
    ensures
        r == spec_head_relative_depth(value@),
{
    let chars = chars_of(value);
    if chars.len() < 5 || chars[0] != 'H' || chars[1] != 'E' || chars[2] != 'A' || chars[3] != 'D'
        || chars[4] != '~'
    {
        proof {
            if starts_with(value@, head_prefix()) {
                assert(value@.subrange(0, 5)[0] == 'H');
                assert(value@.subrange(0, 5)[1] == 'E');
                assert(value@.subrange(0, 5)[2] == 'A');
                assert(value@.subrange(0, 5)[3] == 'D');
                assert(value@.subrange(0, 5)[4] == '~');
            }
        }
        return None;
    }
    proof {
        assert(value@.subrange(0, 5) == head_prefix());
    }
    let ghost rest = value@.skip(5);
    if chars.len() > 5 && chars[5] == '+' {
        proof {
            assert(rest[0] == '+');
            assert(rest.drop_first() == chars@.skip(6));
        }
        capped_digits(&chars, 6)
    } else {
        proof {
            assert(rest.len() > 0 ==> rest[0] == chars@[5]);
            assert(rest == chars@.skip(5));
        }
        capped_digits(&chars, 5)
    }
}

fn base64_char_exec(v: u8) -> (c: char)
    requires
        v < 64,
    ensures
        c == base64_char(v as nat),
{
    if v < 26 {
        (v + 65) as char
    } else if v < 52 {
        (v - 26 + 97) as char
    } else if v < 62 {
        (v - 52 + 48) as char
    } else if v == 62 {
        '+'
    } else {
        '/'
    }
}

/// Standard padded Base64 of `bytes`, used for an HTTP basic-authorization header.
pub fn base64(bytes: &[u8]) -> (encoded: String)
    ensures
        encoded@ == spec_base64(bytes@),
{
    let mut out: Vec<char> = Vec::new();
    let mut i: usize = 0;
    proof {
        assert(bytes@.skip(0) == bytes@);
    }
    while i < bytes.len()
        invariant
            i <= bytes@.len(),
            out@ + spec_base64(bytes@.skip(i as int)) == spec_base64(bytes@),
        decreases bytes@.len() - i,
    {
        let ghost rest = bytes@.skip(i as int);
        let remaining = bytes.len() - i;
        let first = bytes[i];
        let second: u8 = if remaining > 1 { bytes[i + 1] } else { 0 };
        let third: u8 = if remaining > 2 { bytes[i + 2] } else { 0 };
        let ghost chunk = if rest.len() <= 3 { rest } else { rest.take(3) };
        proof {
            assert(chunk[0] == first);
            assert(chunk.len() > 1 ==> chunk[1] == second);
            assert(chunk.len() > 2 ==> chunk[2] == third);
            assert(chunk.len() > 1 <==> remaining > 1);
            assert(chunk.len() > 2 <==> remaining > 2);
        }
        let c1 = base64_char_exec(first / 4);
        let c2 = base64_char_exec((first % 4) * 16 + second / 16);
        let c3 = if remaining > 1 { base64_char_exec((second % 16) * 4 + third / 64) } else { '=' };
        let c4 = if remaining > 2 { base64_char_exec(third % 64) } else { '=' };
        let ghost before = out@;
        out.push(c1);
        out.push(c2);
        out.push(c3);
        out.push(c4);
        proof {
            assert(out@ == before + base64_quad(chunk));
        }
        if remaining <= 3 {
            proof {
                assert(bytes@.skip(bytes@.len() as int) =~= Seq::<u8>::empty());
            }
            i = bytes.len();
        } else {
            proof {
                assert(rest.skip(3) == bytes@.skip(i + 3));
            }
            i = i + 3;
        }
    }
    proof {
        assert(bytes@.skip(bytes@.len() as int) =~= Seq::<u8>::empty());
    }
    string_of(&out)
}

/// Accepts a GitHub server URL and `owner/name` repository for a same-repository fetch.
pub open spec fn valid_repository_authority(server: Seq<char>, repository: Seq<char>) -> bool {
    &&& starts_with(server, "https://"@)
    &&& !ends_with(server, seq!['/'])
    &&& !has_char(server, '\r') && !has_char(server, '\n')
    &&& !starts_with(repository, seq!['/'])
    &&& !ends_with(repository, seq!['/'])
    &&& count_char(repository, '/') == 1
    &&& !has_char(repository, '\r') && !has_char(repository, '\n')
}

/// How often `c` occurs in `s`.
pub open spec fn count_char(s: Seq<char>, c: char) -> nat
    decreases s.len(),
{
    if s.len() == 0 {
        0
    } else {
        count_char(s.drop_last(), c) + if s.last() == c { 1nat } else { 0nat }
    }
}

/// The number of occurrences of `c`.
pub fn count_of(s: &[char], c: char) -> (n: usize)
    ensures
        n == count_char(s@, c),
{
    let mut n: usize = 0;
    let mut i: usize = 0;
    while i < s.len()
        invariant
            i <= s@.len(),
            n == count_char(s@.take(i as int), c),
            n <= i,
        decreases s@.len() - i,
    {
        proof {
            assert(s@.take(i + 1).drop_last() == s@.take(i as int));
        }
        if s[i] == c {
            n = n + 1;
        }
        i = i + 1;
    }
    proof {
        assert(s@.take(s@.len() as int) == s@);
    }
    n
}

/// Whether `s` starts with `prefix`.
pub fn chars_start_with(s: &[char], prefix: &[char]) -> (r: bool)
    ensures
        r == starts_with(s@, prefix@),
{
    if prefix.len() > s.len() {
        return false;
    }
    let mut i: usize = 0;
    while i < prefix.len()
        invariant
            i <= prefix@.len() <= s@.len(),
            forall|j: int| 0 <= j < i ==> s@[j] == prefix@[j],
        decreases prefix@.len() - i,
    {
        if s[i] != prefix[i] {
            proof {
                assert(s@.subrange(0, prefix@.len() as int)[i as int] == s@[i as int]);
            }
            return false;
        }
        i = i + 1;
    }
    proof {
        assert(s@.subrange(0, prefix@.len() as int) =~= prefix@);
    }
    true
}

/// Whether `s` ends with `suffix`.
pub fn chars_end_with(s: &[char], suffix: &[char]) -> (r: bool)
    ensures
        r == ends_with(s@, suffix@),
{
    if suffix.len() > s.len() {
        return false;
    }
    let offset = s.len() - suffix.len();
    let mut j: usize = offset;
    while j < s.len()
        invariant
            offset <= j <= s@.len(),
            offset == s@.len() - suffix@.len(),
            forall|k: int| offset <= k < j ==> s@[k] == suffix@[k - offset],
        decreases s@.len() - j,
    {
        if s[j] != suffix[j - offset] {
            proof {
                assert(s@.subrange(offset as int, s@.len() as int)[j - offset] == s@[j as int]);
            }
            return false;
        }
        j = j + 1;
    }
    proof {
        assert forall|k: int| 0 <= k < suffix@.len() implies s@.subrange(offset as int, s@.len() as int)[k]
            == suffix@[k] by {
            assert(s@[offset + k] == suffix@[(offset + k) - offset]);
        }
        assert(s@.subrange(offset as int, s@.len() as int) =~= suffix@);
    }
    true
}

/// Checks the GitHub server URL and repository that a same-repository fetch sends its token to.
pub fn github_repository_authority(server: &str, repository: &str) -> (r: Result<(String, String), ActionError>)
    ensures
        r is Ok <==> valid_repository_authority(server@, repository@),
        r matches Ok((s, p)) ==> s@ == server@ && p@ == repository@,
        r matches Err(e) ==> e.kind == ErrorKind::Rejected
            && e.message@ == "GitHub server or repository context is malformed"@,
{
    let s = chars_of(server);
    let p = chars_of(repository);
    let https = chars_of("https://");
    let slash = chars_of("/");
    proof {
        reveal_strlit("/");
        assert(slash@ == seq!['/']);
    }
    if !chars_start_with(&s, &https) || chars_end_with(&s, &slash) || contains_char(&s, '\r')
        || contains_char(&s, '\n') || chars_start_with(&p, &slash) || chars_end_with(&p, &slash)
        || count_of(&p, '/') != 1 || contains_char(&p, '\r') || contains_char(&p, '\n')
    {
        return Err(rejection("GitHub server or repository context is malformed"));
    }
    Ok((owned(server), owned(repository)))
}

} // verus!
