use vstd::prelude::*;
use vstd::string::StringExecFns;
use vstd::utf8::encode_utf8;

verus! {

/// The UTF-8 byte length of a character sequence.
pub open spec fn byte_len(s: Seq<char>) -> nat {
    encode_utf8(s).len()
}

/// What `str::len` returns for a string with these characters: its UTF-8 byte length.
pub open spec fn text_len(s: Seq<char>) -> usize {
    encode_utf8(s).len() as usize
}

/// Whether `c` occurs in `s`.
pub open spec fn has_char(s: Seq<char>, c: char) -> bool {
    exists|i: int| 0 <= i < s.len() && s[i] == c
}

/// Whether `prefix` is a prefix of `s`.
pub open spec fn starts_with(s: Seq<char>, prefix: Seq<char>) -> bool {
    prefix.len() <= s.len() && s.subrange(0, prefix.len() as int) == prefix
}

/// Whether `suffix` is a suffix of `s`.
pub open spec fn ends_with(s: Seq<char>, suffix: Seq<char>) -> bool {
    suffix.len() <= s.len() && s.subrange(s.len() - suffix.len(), s.len() as int) == suffix
}

/// The ASCII digit character for a value below ten.
pub open spec fn digit_char(d: nat) -> char {
    (48 + d) as char
}

/// The shortest decimal text of a natural number.
pub open spec fn decimal(n: nat) -> Seq<char>
    decreases n,
{
    if n < 10 {
        seq![digit_char(n)]
    } else {
        decimal(n / 10).push(digit_char(n % 10))
    }
}

pub open spec fn is_ascii_digit(c: char) -> bool {
    '0' <= c && c <= '9'
}

pub open spec fn is_ascii_lower(c: char) -> bool {
    'a' <= c && c <= 'z'
}

pub open spec fn is_ascii_upper(c: char) -> bool {
    'A' <= c && c <= 'Z'
}

pub open spec fn is_ascii_alnum(c: char) -> bool {
    is_ascii_digit(c) || is_ascii_lower(c) || is_ascii_upper(c)
}

/// A hexadecimal digit of either case, as `u8::is_ascii_hexdigit` accepts.
pub open spec fn is_hex_digit(c: char) -> bool {
    is_ascii_digit(c) || ('a' <= c && c <= 'f') || ('A' <= c && c <= 'F')
}

/// A lowercase hexadecimal digit.
pub open spec fn is_lower_hex(c: char) -> bool {
    is_ascii_digit(c) || ('a' <= c && c <= 'f')
}

/// Printable ASCII other than space, as `u8::is_ascii_graphic` accepts.
pub open spec fn is_ascii_graphic(c: char) -> bool {
    '!' <= c && c <= '~'
}

/// Unicode `White_Space`, as `char::is_whitespace` accepts.
pub open spec fn is_whitespace(c: char) -> bool {
    ('\u{9}' <= c && c <= '\u{d}') || c == ' ' || c == '\u{85}' || c == '\u{a0}'
        || c == '\u{1680}' || ('\u{2000}' <= c && c <= '\u{200a}') || c == '\u{2028}'
        || c == '\u{2029}' || c == '\u{202f}' || c == '\u{205f}' || c == '\u{3000}'
}

/// `s` without its leading and trailing whitespace, as `str::trim` returns.
pub open spec fn trim(s: Seq<char>) -> Seq<char>
    decreases s.len(),
{
    if s.len() > 0 && is_whitespace(s[0]) {
        trim(s.drop_first())
    } else if s.len() > 0 && is_whitespace(s.last()) {
        trim(s.drop_last())
    } else {
        s
    }
}

/// The characters of `s`, in order.
pub fn chars_of(s: &str) -> (v: Vec<char>)
    ensures
        v@ == s@,
{
    broadcast use vstd::string::group_string_axioms;

    let mut v: Vec<char> = Vec::new();
    for c in it: s.chars()
        invariant
            v@ == it.seq().take(it.index() as int),
            it.seq() == s@,
    {
        v.push(c);
    }
    v
}

/// Calls `String::push`, which appends one character.
#[verifier::external_body]
pub(crate) fn push_char(s: &mut String, c: char)
    ensures
        final(s)@ == old(s)@.push(c),
{
    s.push(c);
}

/// Appends `other` to `s`.
pub fn push_str(s: &mut String, other: &str)
    ensures
        final(s)@ == old(s)@ + other@,
{
    s.append(other);
}

/// The string holding exactly the given characters.
pub fn string_of(chars: &[char]) -> (s: String)
    ensures
        s@ == chars@,
{
    let mut s = String::new();
    let mut i: usize = 0;
    while i < chars.len()
        invariant
            i <= chars@.len(),
            s@ == chars@.subrange(0, i as int),
        decreases chars@.len() - i,
    {
        push_char(&mut s, chars[i]);
        proof {
            assert(chars@.subrange(0, i + 1) == chars@.subrange(0, i as int).push(chars@[i as int]));
        }
        i = i + 1;
    }
    proof {
        assert(chars@.subrange(0, chars@.len() as int) == chars@);
    }
    s
}

/// A new string with the contents of `s`.
pub fn owned(s: &str) -> (r: String)
    ensures
        r@ == s@,
{
    s.to_owned()
}

/// Whether two strings hold the same characters.
pub fn str_eq(a: &str, b: &str) -> (r: bool)
    ensures
        r == (a@ == b@),
{
    let x = a.to_owned();
    let y = b.to_owned();
    x == y
}

/// The concatenation of two strings.
pub fn concat(a: &str, b: &str) -> (r: String)
    ensures
        r@ == a@ + b@,
{
    let mut s = a.to_owned();
    s.append(b);
    s
}

/// The concatenation of three strings.
pub fn concat3(a: &str, b: &str, c: &str) -> (r: String)
    ensures
        r@ == a@ + b@ + c@,
{
    let mut s = a.to_owned();
    s.append(b);
    s.append(c);
    s
}

/// The decimal text of `n`.
pub fn u64_text(n: u64) -> (s: String)
    ensures
        s@ == decimal(n as nat),
    decreases n,
{
    let digit = ((n % 10) as u8 + 48u8) as char;
    if n < 10 {
        let mut s = String::new();
        push_char(&mut s, digit);
        proof {
            assert(s@ == seq![digit_char(n as nat)]);
        }
        s
    } else {
        let mut s = u64_text(n / 10);
        push_char(&mut s, digit);
        s
    }
}

/// The decimal text of `n`.
pub fn usize_text(n: usize) -> (s: String)
    ensures
        s@ == decimal(n as nat),
{
    u64_text(n as u64)
}

/// Whether `c` occurs in `s`.
pub fn contains_char(s: &[char], c: char) -> (r: bool)
    ensures
        r == has_char(s@, c),
{
    let mut i: usize = 0;
    while i < s.len()
        invariant
            i <= s@.len(),
            forall|j: int| 0 <= j < i ==> s@[j] != c,
        decreases s@.len() - i,
    {
        if s[i] == c {
            return true;
        }
        i = i + 1;
    }
    false
}

/// Whether `c` is Unicode whitespace.
pub fn whitespace(c: char) -> (r: bool)
    ensures
        r == is_whitespace(c),
{
    ('\u{9}' <= c && c <= '\u{d}') || c == ' ' || c == '\u{85}' || c == '\u{a0}'
        || c == '\u{1680}' || ('\u{2000}' <= c && c <= '\u{200a}') || c == '\u{2028}'
        || c == '\u{2029}' || c == '\u{202f}' || c == '\u{205f}' || c == '\u{3000}'
}


/// The characters of `s` from `start` up to `end`.
pub fn sub_chars(s: &[char], start: usize, end: usize) -> (r: Vec<char>)
    requires
        start <= end <= s@.len(),
    ensures
        r@ == s@.subrange(start as int, end as int),
{
    let mut r: Vec<char> = Vec::new();
    let mut i: usize = start;
    while i < end
        invariant
            start <= i <= end <= s@.len(),
            r@ == s@.subrange(start as int, i as int),
        decreases end - i,
    {
        r.push(s[i]);
        proof {
            assert(s@.subrange(start as int, i + 1) == s@.subrange(start as int, i as int).push(s@[i as int]));
        }
        i = i + 1;
    }
    r
}

/// Whether `s` starts with the characters of `prefix`.
pub fn has_prefix(s: &[char], prefix: &[char]) -> (r: bool)
    ensures
        r == starts_with(s@, prefix@),
{
    if prefix.len() > s.len() {
        return false;
    }
    let mut i: usize = 0;
    while i < prefix.len()
        invariant
            i <= prefix@.len() <= s@.len(),
            forall|j: int| 0 <= j < i ==> s@[j] == prefix@[j],
        decreases prefix@.len() - i,
    {
        if s[i] != prefix[i] {
            proof {
                assert(s@.subrange(0, prefix@.len() as int)[i as int] == s@[i as int]);
            }
            return false;
        }
        i = i + 1;
    }
    proof {
        assert(s@.subrange(0, prefix@.len() as int) =~= prefix@);
    }
    true
}

/// `s` without `prefix`, when it starts with it.
pub fn strip_prefix(s: &[char], prefix: &str) -> (r: Option<Vec<char>>)
    ensures
        r matches Some(rest) ==> starts_with(s@, prefix@) && rest@ == s@.skip(prefix@.len() as int),
        r is None ==> !starts_with(s@, prefix@),
{
    let p = chars_of(prefix);
    if has_prefix(s, &p) {
        Some(sub_chars(s, p.len(), s.len()))
    } else {
        None
    }
}

pub open spec fn all_lower_hex(s: Seq<char>) -> bool {
    forall|i: int| 0 <= i < s.len() ==> is_lower_hex(#[trigger] s[i])
}

/// Whether every character is a lowercase hexadecimal digit.
pub fn lower_hex_only(s: &[char]) -> (r: bool)
    ensures
        r == all_lower_hex(s@),
{
    let mut i: usize = 0;
    while i < s.len()
        invariant
            i <= s@.len(),
            forall|j: int| 0 <= j < i ==> is_lower_hex(#[trigger] s@[j]),
        decreases s@.len() - i,
    {
        let c = s[i];
        if !(('0' <= c && c <= '9') || ('a' <= c && c <= 'f')) {
            return false;
        }
        i = i + 1;
    }
    true
}

/// Whether `s` holds exactly the characters of `literal`.
pub fn chars_are(s: &[char], literal: &str) -> (r: bool)
    ensures
        r == (s@ == literal@),
{
    let l = chars_of(literal);
    if s.len() != l.len() {
        return false;
    }
    let mut i: usize = 0;
    while i < s.len()
        invariant
            i <= s@.len(),
            s@.len() == l@.len(),
            l@ == literal@,
            forall|j: int| 0 <= j < i ==> s@[j] == l@[j],
        decreases s@.len() - i,
    {
        if s[i] != l[i] {
            return false;
        }
        i = i + 1;
    }
    proof {
        assert(s@ =~= l@);
    }
    true
}


/// The pieces of `s` between occurrences of `sep`, as `str::split` yields them.
pub open spec fn split_on(s: Seq<char>, sep: char) -> Seq<Seq<char>>
    decreases s.len(),
{
    if s.len() == 0 {
        seq![Seq::<char>::empty()]
    } else {
        let prev = split_on(s.drop_last(), sep);
        if s.last() == sep {
            prev.push(Seq::<char>::empty())
        } else {
            prev.update(prev.len() - 1, prev.last().push(s.last()))
        }
    }
}

pub proof fn lemma_split_on_nonempty(s: Seq<char>, sep: char)
    ensures
        split_on(s, sep).len() >= 1,
    decreases s.len(),
{
    if s.len() > 0 {
        lemma_split_on_nonempty(s.drop_last(), sep);
    }
}

/// `line` without one trailing carriage return.
pub open spec fn strip_cr(line: Seq<char>) -> Seq<char> {
    if line.len() > 0 && line.last() == '\r' { line.drop_last() } else { line }
}

/// The lines of `s`, as `str::lines` yields them: split at line feeds, without a final empty
/// piece after a trailing line feed, each without one trailing carriage return.
pub open spec fn spec_lines(s: Seq<char>) -> Seq<Seq<char>> {
    let pieces = if s.len() == 0 {
        Seq::<Seq<char>>::empty()
    } else if s.last() == '\n' {
        split_on(s.drop_last(), '\n')
    } else {
        split_on(s, '\n')
    };
    pieces.map_values(|line: Seq<char>| strip_cr(line))
}

/// The pieces of `s` between occurrences of `sep`.
pub fn split_chars(s: &[char], sep: char) -> (pieces: Vec<Vec<char>>)
    ensures
        pieces@.len() == split_on(s@, sep).len(),
        forall|i: int| 0 <= i < pieces@.len() ==> #[trigger] pieces@[i]@ == split_on(s@, sep)[i],
{
    let mut pieces: Vec<Vec<char>> = Vec::new();
    let mut current: Vec<char> = Vec::new();
    let mut i: usize = 0;
    while i < s.len()
        invariant
            i <= s@.len(),
            pieces@.len() + 1 == split_on(s@.take(i as int), sep).len(),
            forall|j: int| 0 <= j < pieces@.len() ==> #[trigger] pieces@[j]@ == split_on(s@.take(i as int), sep)[j],
            current@ == split_on(s@.take(i as int), sep).last(),
        decreases s@.len() - i,
    {
        proof {
            assert(s@.take(i + 1).drop_last() == s@.take(i as int));
            assert(s@.take(i + 1).last() == s@[i as int]);
            lemma_split_on_nonempty(s@.take(i as int), sep);
        }
        if s[i] == sep {
            let done = current;
            pieces.push(done);
            current = Vec::new();
        } else {
            current.push(s[i]);
        }
        i = i + 1;
    }
    proof {
        assert(s@.take(s@.len() as int) == s@);
        lemma_split_on_nonempty(s@, sep);
    }
    pieces.push(current);
    pieces
}

/// `line` without one trailing carriage return.
pub fn strip_cr_exec(line: Vec<char>) -> (r: Vec<char>)
    ensures
        r@ == strip_cr(line@),
{
    if line.len() > 0 && line[line.len() - 1] == '\r' {
        let n = line.len() - 1;
        sub_chars(&line, 0, n)
    } else {
        line
    }
}

/// The lines of `s`, as `str::lines` yields them.
pub fn lines_of(s: &[char]) -> (lines: Vec<Vec<char>>)
    ensures
        lines@.len() == spec_lines(s@).len(),
        forall|i: int| 0 <= i < lines@.len() ==> #[trigger] lines@[i]@ == spec_lines(s@)[i],
{
    if s.len() == 0 {
        return Vec::new();
    }
    let body = if s[s.len() - 1] == '\n' { sub_chars(s, 0, s.len() - 1) } else { sub_chars(s, 0, s.len()) };
    proof {
        if s@.last() != '\n' {
            assert(body@ == s@);
        } else {
            assert(body@ == s@.drop_last());
        }
    }
    let pieces = split_chars(&body, '\n');
    let ghost spec_pieces = split_on(body@, '\n');
    let mut lines: Vec<Vec<char>> = Vec::new();
    let mut i: usize = 0;
    while i < pieces.len()
        invariant
            i <= pieces@.len() == spec_pieces.len(),
            spec_pieces == split_on(body@, '\n'),
            forall|j: int| 0 <= j < pieces@.len() ==> #[trigger] pieces@[j]@ == spec_pieces[j],
            lines@.len() == i,
            forall|j: int| 0 <= j < i ==> #[trigger] lines@[j]@ == strip_cr(spec_pieces[j]),
        decreases pieces@.len() - i,
    {
        let piece = pieces[i].clone();
        lines.push(strip_cr_exec(piece));
        i = i + 1;
    }
    lines
}


/// Splitting around one separator splits each side.
pub proof fn lemma_split_on_append(x: Seq<char>, sep: char, y: Seq<char>)
    ensures
        split_on(x + seq![sep] + y, sep) == split_on(x, sep) + split_on(y, sep),
    decreases y.len(),
{
    let s = x + seq![sep] + y;
    if y.len() == 0 {
        assert(s.drop_last() =~= x);
        assert(split_on(y, sep) =~= seq![Seq::<char>::empty()]);
        assert(split_on(s, sep) =~= split_on(x, sep) + split_on(y, sep));
    } else {
        lemma_split_on_append(x, sep, y.drop_last());
        lemma_split_on_nonempty(y.drop_last(), sep);
        lemma_split_on_nonempty(x, sep);
        assert(s.drop_last() =~= x + seq![sep] + y.drop_last());
        assert(s.last() == y.last());
        let px = split_on(x, sep);
        let py = split_on(y.drop_last(), sep);
        if y.last() == sep {
            assert(split_on(s, sep) =~= (px + py).push(Seq::<char>::empty()));
            assert(split_on(y, sep) =~= py.push(Seq::<char>::empty()));
            assert(split_on(s, sep) =~= px + split_on(y, sep));
        } else {
            let prev = px + py;
            assert(prev.last() == py.last());
            assert(split_on(s, sep) =~= prev.update(prev.len() - 1, prev.last().push(y.last())));
            assert(split_on(y, sep) =~= py.update(py.len() - 1, py.last().push(y.last())));
            assert(split_on(s, sep) =~= px + split_on(y, sep));
        }
    }
}

/// A text without the separator is one piece.
pub proof fn lemma_split_on_single(x: Seq<char>, sep: char)
    requires
        !has_char(x, sep),
    ensures
        split_on(x, sep) == seq![x],
    decreases x.len(),
{
    if x.len() == 0 {
        assert(x =~= Seq::<char>::empty());
        assert(split_on(x, sep) =~= seq![x]);
    } else {
        assert(!has_char(x.drop_last(), sep)) by {
            if has_char(x.drop_last(), sep) {
                let i = choose|i: int| 0 <= i < x.drop_last().len() && x.drop_last()[i] == sep;
                assert(x[i] == sep);
            }
        }
        lemma_split_on_single(x.drop_last(), sep);
        let prev = split_on(x.drop_last(), sep);
        assert(prev == seq![x.drop_last()]);
        assert(x.last() != sep) by {
            if x.last() == sep {
                assert(x[x.len() - 1] == sep);
            }
        }
        assert(x.drop_last().push(x.last()) =~= x);
        assert(split_on(x, sep) == prev.update(prev.len() - 1, prev.last().push(x.last())));
        assert(prev.update(prev.len() - 1, prev.last().push(x.last())) =~= seq![x]);
    }
}

/// A character occurs in a concatenation exactly when it occurs in a part.
pub proof fn lemma_has_char_concat(a: Seq<char>, b: Seq<char>, c: char)
    ensures
        has_char(a + b, c) == (has_char(a, c) || has_char(b, c)),
{
    if has_char(a + b, c) {
        let i = choose|i: int| 0 <= i < (a + b).len() && (a + b)[i] == c;
        if i < a.len() {
            assert(a[i] == c);
        } else {
            assert(b[i - a.len()] == c);
        }
    }
    if has_char(a, c) {
        let i = choose|i: int| 0 <= i < a.len() && a[i] == c;
        assert((a + b)[i] == c);
    }
    if has_char(b, c) {
        let i = choose|i: int| 0 <= i < b.len() && b[i] == c;
        assert((a + b)[i + a.len()] == c);
    }
}

/// The decimal text of a number is digits, without a leading zero, of that value.
pub proof fn lemma_decimal_digits(n: nat)
    ensures
        decimal(n).len() >= 1,
        forall|i: int| 0 <= i < decimal(n).len() ==> is_ascii_digit(#[trigger] decimal(n)[i]),
        n >= 1 ==> decimal(n)[0] != '0',
        crate::repository::digits_value(decimal(n)) == n,
    decreases n,
{
    if n < 10 {
        let d = decimal(n);
        assert(d.drop_last() =~= Seq::<char>::empty());
        assert(d.last() == digit_char(n));
        assert(digit_char(n) as nat == 48 + n);
        assert(crate::repository::digits_value(d) == crate::repository::digits_value(d.drop_last()) * 10 + (
        d.last() as nat - 48) as nat);
        assert(crate::repository::digits_value(d.drop_last()) == 0);
    } else {
        lemma_decimal_digits(n / 10);        let d = decimal(n);
        let p = decimal(n / 10);
        assert(d == p.push(digit_char(n % 10)));
        assert(d.drop_last() =~= p);
        assert forall|i: int| 0 <= i < d.len() implies is_ascii_digit(#[trigger] d[i]) by {
            if i < p.len() {
                assert(d[i] == p[i]);
            }
        }
        assert(d[0] == p[0]);
        assert(d.last() == digit_char(n % 10));
        assert(digit_char(n % 10) as nat == 48 + n % 10);
        assert((n / 10) * 10 + n % 10 == n);
        assert(crate::repository::digits_value(d) == crate::repository::digits_value(d.drop_last()) * 10 + (
        d.last() as nat - 48) as nat);
    }
}

/// Lines joined with a line feed after each.
pub open spec fn joined_lines(lines: Seq<Seq<char>>) -> Seq<char>
    decreases lines.len(),
{
    if lines.len() == 0 {
        Seq::empty()
    } else {
        joined_lines(lines.drop_last()) + lines.last() + "\n"@
    }
}

/// Lines joined with a line feed between each.
pub open spec fn separated_lines(lines: Seq<Seq<char>>) -> Seq<char>
    decreases lines.len(),
{
    if lines.len() <= 1 {
        if lines.len() == 1 {
            lines[0]
        } else {
            Seq::empty()
        }
    } else {
        separated_lines(lines.drop_last()) + seq!['\n'] + lines.last()
    }
}

proof fn lemma_joined_separated(lines: Seq<Seq<char>>)
    requires
        lines.len() >= 1,
    ensures
        joined_lines(lines.drop_last()) + lines.last() == separated_lines(lines),
    decreases lines.len(),
{
    reveal_strlit("\n");
    if lines.len() == 1 {
        assert(joined_lines(lines.drop_last()) =~= Seq::<char>::empty());
        assert(joined_lines(lines.drop_last()) + lines.last() =~= lines[0]);
    } else {
        let front = lines.drop_last();
        lemma_joined_separated(front);
        assert(joined_lines(front) == joined_lines(front.drop_last()) + front.last() + "\n"@);
        assert(joined_lines(front) + lines.last() =~= separated_lines(front) + seq!['\n'] + lines.last());
    }
}

proof fn lemma_split_separated(lines: Seq<Seq<char>>)
    requires
        lines.len() >= 1,
        forall|i: int| 0 <= i < lines.len() ==> !has_char(#[trigger] lines[i], '\n'),
    ensures
        split_on(separated_lines(lines), '\n') == lines,
    decreases lines.len(),
{
    if lines.len() == 1 {
        lemma_split_on_single(lines[0], '\n');
        assert(seq![lines[0]] =~= lines);
    } else {
        let front = lines.drop_last();
        lemma_split_separated(front);
        lemma_split_on_append(separated_lines(front), '\n', lines.last());
        lemma_split_on_single(lines.last(), '\n');
        assert(front + seq![lines.last()] =~= lines);
    }
}

pub proof fn lemma_joined_ends(lines: Seq<Seq<char>>)
    requires
        lines.len() >= 1,
    ensures
        joined_lines(lines).len() > 0,
        joined_lines(lines).last() == '\n',
        joined_lines(lines).drop_last() == joined_lines(lines.drop_last()) + lines.last(),
{
    reveal_strlit("\n");
    assert(joined_lines(lines).drop_last() =~= joined_lines(lines.drop_last()) + lines.last());
}

/// The lines of text joined with line feeds are those lines, when none holds a line break.
pub proof fn lemma_lines_of_joined(lines: Seq<Seq<char>>)
    requires
        lines.len() >= 1,
        forall|i: int| 0 <= i < lines.len() ==> !has_char(#[trigger] lines[i], '\n') && !has_char(lines[i], '\r'),
    ensures
        spec_lines(joined_lines(lines)) == lines,
{
    lemma_joined_ends(lines);
    lemma_joined_separated(lines);
    lemma_split_separated(lines);
    let pieces = split_on(joined_lines(lines).drop_last(), '\n');
    assert(pieces == lines);
    assert forall|i: int| 0 <= i < lines.len() implies #[trigger] strip_cr(lines[i]) == lines[i] by {
        if lines[i].len() > 0 && lines[i].last() == '\r' {
            assert(lines[i][lines[i].len() - 1] == '\r');
        }
    }
    assert(pieces.map_values(|line: Seq<char>| strip_cr(line)) =~= lines);
}

/// Text joined from lines holds a carriage return only where a line does.
pub proof fn lemma_joined_no_cr(lines: Seq<Seq<char>>)
    requires
        forall|i: int| 0 <= i < lines.len() ==> !has_char(#[trigger] lines[i], '\r'),
    ensures
        !has_char(joined_lines(lines), '\r'),
    decreases lines.len(),
{
    reveal_strlit("\n");
    if lines.len() > 0 {
        lemma_joined_no_cr(lines.drop_last());
        lemma_has_char_concat(joined_lines(lines.drop_last()), lines.last(), '\r');
        lemma_has_char_concat(joined_lines(lines.drop_last()) + lines.last(), "\n"@, '\r');
        assert(!has_char("\n"@, '\r')) by {
            if has_char("\n"@, '\r') {
                let i = choose|i: int| 0 <= i < "\n"@.len() && "\n"@[i] == '\r';
            }
        }
        assert(lines.last() == lines[lines.len() - 1]);
    }
}
} // verus!
