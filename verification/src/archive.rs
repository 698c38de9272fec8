//! The authenticated Cargo-Rail release archive: its checksum manifest, the names and kinds of
//! its ZIP entries, its component manifest, and the inventory they must agree on.

use vstd::prelude::*;
use vstd::utf8::{decode_utf8, valid_utf8};

use crate::error::{rejection, ActionError, ErrorKind};
use crate::install::{
    parse_manifest_entry, row_message, spec_manifest_row, spec_valid_digest, valid_digest, ManifestEntry,
    RowOutcome, MAX_COMPONENT_BYTES, MAX_MANIFEST_BYTES,
};
use crate::text::{chars_of, concat, concat3, has_char, push_char, push_str, split_chars, split_on, string_of};
use crate::workflow_text::{ascii_lower, lower_chars};

verus! {

/// The most entries a release archive may hold.
pub const MAX_ARCHIVE_ENTRIES: usize = 128;

/// The most bytes the files of a release archive may expand to.
pub const MAX_EXPANDED_BYTES: u64 = 536870912;

/// Calls `std::str::from_utf8`: the text that the bytes encode, when they are valid UTF-8.
#[verifier::external_body]
pub(crate) fn utf8_text(bytes: &[u8]) -> (r: Option<String>)
    ensures
        r is Some <==> valid_utf8(bytes@),
        r matches Some(s) ==> s@ == decode_utf8(bytes@),
{
    std::str::from_utf8(bytes).ok().map(|text| text.to_owned())
}

/// How a ZIP entry is compressed, as far as the release contract distinguishes it.
#[derive(Debug, Clone, Copy, PartialEq, Eq, Structural)]
pub enum Compression {
    Stored,
    Deflated,
    Other,
}

/// Refuses an entry that does not follow the compression contract: directories stored, files
/// deflated.
pub fn validate_zip_entry_compression(name: &str, directory: bool, compression: Compression) -> (r: Result<
    (),
    ActionError,
>)
    ensures
        r is Ok <==> compression == (if directory {
            Compression::Stored
        } else {
            Compression::Deflated
        }),
        r matches Err(e) ==> e.kind == ErrorKind::Rejected && e.message@ == "Cargo-Rail ZIP entry "@ + name@
            + " does not use the exact v0.26 compression contract"@,
{
    let expected = if directory {
        Compression::Stored
    } else {
        Compression::Deflated
    };
    if compression != expected {
        return Err(ActionError::rejected(concat3(
            "Cargo-Rail ZIP entry ",
            name,
            " does not use the exact v0.26 compression contract",
        )));
    }
    Ok(())
}

/// The slash-separated join of the normal components among the first `n` pieces of a path: empty
/// pieces and `.` are dropped, as path component iteration drops them after the first.
pub open spec fn normal_join(pieces: Seq<Seq<char>>, n: nat) -> Seq<char>
    decreases n,
{
    if n == 0 || n > pieces.len() {
        Seq::empty()
    } else {
        let prev = normal_join(pieces, (n - 1) as nat);
        let p = pieces[n - 1];
        if p.len() == 0 || p == "."@ {
            prev
        } else if prev.len() == 0 {
            p
        } else {
            prev + "/"@ + p
        }
    }
}

/// Why an archive entry path is refused, or its normalized form.
pub open spec fn archive_name_outcome(path: Seq<char>) -> Result<Seq<char>, Seq<char>> {
    let pieces = split_on(path, '/');
    if path.len() > 0 && path[0] == '/' {
        Err("archive entry path must be relative"@)
    } else if path.len() == 0 || has_char(path, '\\') || has_char(path, '\0') {
        Err("archive entry path is malformed"@)
    } else if pieces[0] == "."@ || exists|i: int| 0 <= i < pieces.len() && #[trigger] pieces[i] == ".."@ {
        Err("archive entry path is unsafe: "@ + path)
    } else {
        Ok(normal_join(pieces, pieces.len()))
    }
}

/// The relative, normalized form of an archive entry path whose components are all plain names.
pub fn safe_archive_name(path: &str) -> (r: Result<String, ActionError>)
    ensures
        match archive_name_outcome(path@) {
            Ok(n) => r matches Ok(s) && s@ == n,
            Err(m) => r matches Err(e) && e.kind == ErrorKind::Rejected && e.message@ == m,
        },
{
    let chars = chars_of(path);
    if chars.len() > 0 && chars[0] == '/' {
        return Err(rejection("archive entry path must be relative"));
    }
    if chars.len() == 0 || crate::text::contains_char(&chars, '\\') || crate::text::contains_char(&chars, '\0') {
        return Err(rejection("archive entry path is malformed"));
    }
    let pieces = split_chars(&chars, '/');
    let ghost spec_pieces = split_on(path@, '/');
    proof {
        crate::text::lemma_split_on_nonempty(path@, '/');
    }
    if crate::text::chars_are(&pieces[0], ".") {
        return Err(ActionError::rejected(concat("archive entry path is unsafe: ", path)));
    }
    let mut normalized: Vec<char> = Vec::new();
    let mut i: usize = 0;
    while i < pieces.len()
        invariant
            i <= pieces@.len() == spec_pieces.len(),
            spec_pieces == split_on(path@, '/'),
            forall|j: int| 0 <= j < pieces@.len() ==> #[trigger] pieces@[j]@ == spec_pieces[j],
            forall|j: int| 0 <= j < i ==> #[trigger] spec_pieces[j] != ".."@,
            path@.len() > 0 && path@[0] != '/' && !has_char(path@, '\\') && !has_char(path@, '\0'),
            spec_pieces.len() > 0 && spec_pieces[0] != "."@,
            normalized@ == normal_join(spec_pieces, i as nat),
        decreases pieces@.len() - i,
    {
        let piece = &pieces[i];
        if crate::text::chars_are(piece, "..") {
            proof {
                assert(spec_pieces[i as int] == ".."@);
            }
            return Err(ActionError::rejected(concat("archive entry path is unsafe: ", path)));
        }
        let dot = crate::text::chars_are(piece, ".");
        if piece.len() > 0 && !dot {
            if normalized.len() > 0 {
                normalized.push('/');
            }
            let mut k: usize = 0;
            let ghost base = normalized@;
            while k < piece.len()
                invariant
                    k <= piece@.len(),
                    normalized@ == base + piece@.take(k as int),
                decreases piece@.len() - k,
            {
                normalized.push(piece[k]);
                proof {
                    assert(piece@.take(k + 1) =~= piece@.take(k as int).push(piece@[k as int]));
                }
                k = k + 1;
            }
            proof {
                assert(piece@.take(k as int) =~= piece@);
                reveal_strlit("/");
                assert(normal_join(spec_pieces, (i + 1) as nat) == if normal_join(spec_pieces, i as nat).len() == 0 {
                    spec_pieces[i as int]
                } else {
                    normal_join(spec_pieces, i as nat) + "/"@ + spec_pieces[i as int]
                });
                assert(normalized@ =~= normal_join(spec_pieces, (i + 1) as nat));
            }
        }
        i = i + 1;
    }
    Ok(string_of(&normalized))
}


/// ASCII whitespace, as `u8::is_ascii_whitespace` accepts.
pub open spec fn ascii_space(c: char) -> bool {
    c == ' ' || c == '\t' || c == '\n' || c == '\x0C' || c == '\r'
}

/// The words of a text between runs of ASCII whitespace, as `str::split_ascii_whitespace`
/// yields them.
pub open spec fn words(s: Seq<char>) -> Seq<Seq<char>>
    decreases s.len(),
{
    if s.len() == 0 {
        Seq::empty()
    } else {
        let prev = words(s.drop_last());
        let c = s.last();
        if ascii_space(c) {
            prev
        } else if s.len() >= 2 && !ascii_space(s[s.len() - 2]) {
            prev.update(prev.len() - 1, prev.last().push(c))
        } else {
            prev.push(seq![c])
        }
    }
}

proof fn lemma_words_nonempty(s: Seq<char>)
    requires
        s.len() > 0,
        !ascii_space(s.last()),
    ensures
        words(s).len() > 0,
    decreases s.len(),
{
    if s.len() >= 2 && !ascii_space(s[s.len() - 2]) {
        assert(s.drop_last().last() == s[s.len() - 2]);
        lemma_words_nonempty(s.drop_last());
    }
}

fn words_of(s: &[char]) -> (r: Vec<Vec<char>>)
    ensures
        r@.len() == words(s@).len(),
        forall|i: int| 0 <= i < r@.len() ==> #[trigger] r@[i]@ == words(s@)[i],
{
    let mut out: Vec<Vec<char>> = Vec::new();
    let mut i: usize = 0;
    while i < s.len()
        invariant
            i <= s@.len(),
            out@.len() == words(s@.take(i as int)).len(),
            forall|j: int| 0 <= j < out@.len() ==> #[trigger] out@[j]@ == words(s@.take(i as int))[j],
        decreases s@.len() - i,
    {
        let c = s[i];
        let ghost t = s@.take(i + 1);
        proof {
            assert(t.drop_last() =~= s@.take(i as int));
            assert(t.last() == c);
        }
        if c == ' ' || c == '\t' || c == '\n' || c == '\x0C' || c == '\r' {
        } else if i >= 1 && !(s[i - 1] == ' ' || s[i - 1] == '\t' || s[i - 1] == '\n' || s[i - 1] == '\x0C' || s[i - 1]
            == '\r') {
            proof {
                assert(t[t.len() - 2] == s@[i - 1]);
                assert(s@.take(i as int).last() == s@[i - 1]);
                lemma_words_nonempty(s@.take(i as int));
            }
            let last = out.len() - 1;
            let mut word = out[last].clone();
            word.push(c);
            out.set(last, word);
            proof {
                assert(words(t) =~= words(s@.take(i as int)).update(last as int, words(s@.take(i as int))[last as int].push(c)));
            }
        } else {
            let mut word: Vec<char> = Vec::new();
            word.push(c);
            proof {
                assert(word@ =~= seq![c]);
            }
            out.push(word);
        }
        i = i + 1;
    }
    proof {
        assert(s@.take(i as int) =~= s@);
    }
    out
}

/// A text without its leading `*` characters, as `str::trim_start_matches('*')` returns it.
pub open spec fn strip_stars(s: Seq<char>) -> Seq<char>
    decreases s.len(),
{
    if s.len() > 0 && s[0] == '*' {
        strip_stars(s.drop_first())
    } else {
        s
    }
}

fn strip_stars_of(s: &[char]) -> (r: Vec<char>)
    ensures
        r@ == strip_stars(s@),
{
    let mut k: usize = 0;
    proof {
        assert(s@.skip(0) =~= s@);
    }
    while k < s.len() && s[k] == '*'
        invariant
            k <= s@.len(),
            strip_stars(s@) == strip_stars(s@.skip(k as int)),
        decreases s@.len() - k,
    {
        proof {
            assert(s@.skip(k as int).drop_first() =~= s@.skip(k + 1));
        }
        k = k + 1;
    }
    let n = s.len();
    crate::text::sub_chars(s, k, n)
}

/// A row of a checksum manifest: a digest and a file name (a leading `*` marks binary mode),
/// nothing more. Gives the lowercase digest and the name, or nothing for an invalid row.
pub open spec fn checksum_row(line: Seq<char>) -> Option<(Seq<char>, Seq<char>)> {
    let ws = words(line);
    let digest = if ws.len() > 0 {
        ws[0]
    } else {
        ""@
    };
    let name = strip_stars(
        if ws.len() > 1 {
            ws[1]
        } else {
            ""@
        },
    );
    if ws.len() > 2 || !spec_valid_digest(ascii_lower(digest)) || has_char(name, '/') || has_char(name, '\\') {
        None
    } else {
        Some((ascii_lower(digest), name))
    }
}

fn checksum_row_of(line: &[char]) -> (r: Option<(Vec<char>, Vec<char>)>)
    ensures
        match checksum_row(line@) {
            Some((d, n)) => r matches Some((a, b)) && a@ == d && b@ == n,
            None => r is None,
        },
{
    let ws = words_of(line);
    let empty: Vec<char> = Vec::new();
    let digest = if ws.len() > 0 {
        lower_chars(&ws[0])
    } else {
        lower_chars(&empty)
    };
    let name = if ws.len() > 1 {
        strip_stars_of(&ws[1])
    } else {
        strip_stars_of(&empty)
    };
    proof {
        reveal_strlit("");
        assert(empty@ =~= ""@);
    }
    let d = string_of(&digest);
    if ws.len() > 2 || !valid_digest(d.as_str()) || crate::text::contains_char(&name, '/')
        || crate::text::contains_char(&name, '\\') {
        return None;
    }
    Some((digest, name))
}

/// The lowercase digests of the non-empty rows among the first `n` lines that name `archive`.
pub open spec fn selected_digests(lines: Seq<Seq<char>>, archive: Seq<char>, n: nat) -> Seq<Seq<char>>
    decreases n,
{
    if n == 0 || n > lines.len() {
        Seq::empty()
    } else {
        let prev = selected_digests(lines, archive, (n - 1) as nat);
        let line = lines[n - 1];
        if line.len() == 0 {
            prev
        } else {
            match checksum_row(line) {
                Some((d, name)) => if name == archive {
                    prev.push(d)
                } else {
                    prev
                },
                None => prev,
            }
        }
    }
}

/// What the checksum manifest says of `archive`: a failure message, or its one lowercase digest.
pub open spec fn checksum_outcome(bytes: Seq<u8>, archive: Seq<char>) -> Result<Seq<char>, Seq<char>> {
    let text = decode_utf8(bytes);
    let lines = crate::text::spec_lines(text);
    let selected = selected_digests(lines, archive, lines.len());
    if !valid_utf8(bytes) {
        Err("release checksum manifest is not UTF-8"@)
    } else if exists|i: int| 0 <= i < lines.len() && has_char(#[trigger] lines[i], '\r') {
        Err("release checksum manifest must use LF line endings"@)
    } else if exists|i: int| 0 <= i < lines.len() && (#[trigger] lines[i]).len() > 0 && checksum_row(lines[i]) is None {
        Err("release checksum manifest contains an invalid row"@)
    } else if selected.len() != 1 {
        Err("release checksum manifest must contain exactly one entry for "@ + archive)
    } else {
        Ok(selected[0])
    }
}

/// The digest that the release checksum manifest gives `archive`: every non-empty row must be a
/// valid digest and pathless name, and exactly one row may name the archive.
pub fn checksum_for(bytes: &[u8], archive: &str) -> (r: Result<String, ActionError>)
    ensures
        match checksum_outcome(bytes@, archive@) {
            Ok(d) => r matches Ok(s) && s@ == d,
            Err(m) => r matches Err(e) && e.kind == ErrorKind::Rejected && e.message@ == m,
        },
{
    let text = match utf8_text(bytes) {
        Some(t) => t,
        None => {
            return Err(rejection("release checksum manifest is not UTF-8"));
        },
    };
    let chars = chars_of(text.as_str());
    let lines = crate::text::lines_of(&chars);
    let ghost spec_lines = crate::text::spec_lines(chars@);
    let mut k: usize = 0;
    while k < lines.len()
        invariant
            k <= lines@.len() == spec_lines.len(),
            valid_utf8(bytes@),
            chars@ == decode_utf8(bytes@),
            spec_lines == crate::text::spec_lines(chars@),
            forall|j: int| 0 <= j < lines@.len() ==> #[trigger] lines@[j]@ == spec_lines[j],
            forall|j: int| 0 <= j < k ==> !has_char(#[trigger] spec_lines[j], '\r'),
        decreases lines@.len() - k,
    {
        if crate::text::contains_char(&lines[k], '\r') {
            proof {
                assert(has_char(spec_lines[k as int], '\r'));
            }
            return Err(rejection("release checksum manifest must use LF line endings"));
        }
        k = k + 1;
    }
    let mut selected: Vec<Vec<char>> = Vec::new();
    let mut i: usize = 0;
    while i < lines.len()
        invariant
            i <= lines@.len() == spec_lines.len(),
            valid_utf8(bytes@),
            chars@ == decode_utf8(bytes@),
            forall|j: int| 0 <= j < spec_lines.len() ==> !has_char(#[trigger] spec_lines[j], '\r'),
            spec_lines == crate::text::spec_lines(chars@),
            forall|j: int| 0 <= j < lines@.len() ==> #[trigger] lines@[j]@ == spec_lines[j],
            forall|j: int| 0 <= j < i ==> (#[trigger] spec_lines[j]).len() > 0 ==> checksum_row(spec_lines[j]) is Some,
            selected@.len() == selected_digests(spec_lines, archive@, i as nat).len(),
            forall|j: int| 0 <= j < selected@.len() ==> #[trigger] selected@[j]@ == selected_digests(
                spec_lines,
                archive@,
                i as nat,
            )[j],
        decreases lines@.len() - i,
    {
        if lines[i].len() > 0 {
            match checksum_row_of(&lines[i]) {
                None => {
                    proof {
                        assert(spec_lines[i as int].len() > 0 && checksum_row(spec_lines[i as int]) is None);
                    }
                    return Err(rejection("release checksum manifest contains an invalid row"));
                },
                Some((digest, name)) => {
                    let name_text = string_of(&name);
                    if crate::text::str_eq(name_text.as_str(), archive) {
                        selected.push(digest);
                    }
                },
            }
        }
        i = i + 1;
    }
    if selected.len() != 1 {
        return Err(ActionError::rejected(concat("release checksum manifest must contain exactly one entry for ", archive)));
    }
    Ok(string_of(&selected[0]))
}

/// The first line of a component manifest of `version` for `target`.
pub open spec fn manifest_header(version: Seq<char>, target: Seq<char>) -> Seq<char> {
    "cargo-rail-components-v1\t"@ + version + "\t"@ + target
}

/// The name a manifest row declares, or the empty text.
pub open spec fn row_name(line: Seq<char>) -> Seq<char> {
    match spec_manifest_row(line) {
        RowOutcome::Entry { name, .. } => name,
        _ => ""@,
    }
}

/// The first failure among the first `n` rows of a component manifest: a row that is not an
/// entry, or an entry whose name an earlier row declared.
pub open spec fn rows_failure(rows: Seq<Seq<char>>, n: nat) -> Option<Seq<char>>
    decreases n,
{
    if n == 0 || n > rows.len() {
        None
    } else {
        match rows_failure(rows, (n - 1) as nat) {
            Some(m) => Some(m),
            None => match spec_manifest_row(rows[n - 1]) {
                RowOutcome::Entry { name, .. } => if exists|j: int| 0 <= j < n - 1 && #[trigger] row_name(rows[j]) == name {
                    Some("Cargo-Rail component manifest contains duplicate names"@)
                } else {
                    None
                },
                o => Some("Cargo-Rail component manifest"@ + row_message(o)),
            },
        }
    }
}

proof fn lemma_rows_failure_stays(rows: Seq<Seq<char>>, k: nat, m: nat)
    requires
        k <= m <= rows.len(),
        rows_failure(rows, k) is Some,
    ensures
        rows_failure(rows, m) == rows_failure(rows, k),
    decreases m,
{
    if m > k {
        lemma_rows_failure_stays(rows, k, (m - 1) as nat);
    }
}

/// Why a component manifest is refused, if it is.
pub open spec fn manifest_failure(bytes: Seq<u8>, version: Seq<char>, target: Seq<char>) -> Option<Seq<char>> {
    let text = decode_utf8(bytes);
    let lines = crate::text::spec_lines(text);
    let rows = lines.skip(1);
    if bytes.len() > MAX_MANIFEST_BYTES || bytes.contains(13u8) || !(bytes.len() > 0 && bytes.last() == 10u8) {
        Some("Cargo-Rail component manifest is not canonical LF-only text"@)
    } else if !valid_utf8(bytes) {
        Some("Cargo-Rail component manifest is not UTF-8"@)
    } else if exists|i: int| 0 <= i < text.len() && #[trigger] text[i] > '\x7f' {
        Some("Cargo-Rail component manifest must be ASCII"@)
    } else if lines.len() == 0 || lines[0] != manifest_header(version, target) {
        Some("Cargo-Rail component manifest authority is incompatible"@)
    } else if rows_failure(rows, rows.len()) is Some {
        rows_failure(rows, rows.len())
    } else if rows.len() == 0 {
        Some("Cargo-Rail component manifest has no entries"@)
    } else {
        None
    }
}

/// The entry a row declares.
pub open spec fn entry_of(e: ManifestEntry) -> RowOutcome {
    RowOutcome::Entry { name: e.name@, digest: e.digest@, bytes: e.bytes, capability: e.capability@ }
}

fn byte_in(bytes: &[u8], b: u8) -> (r: bool)
    ensures
        r == bytes@.contains(b),
{
    let mut i: usize = 0;
    while i < bytes.len()
        invariant
            i <= bytes@.len(),
            forall|j: int| 0 <= j < i ==> bytes@[j] != b,
        decreases bytes@.len() - i,
    {
        if bytes[i] == b {
            proof {
                assert(bytes@[i as int] == b);
            }
            return true;
        }
        i = i + 1;
    }
    false
}

fn ascii_only(s: &[char]) -> (r: bool)
    ensures
        r == !exists|i: int| 0 <= i < s@.len() && #[trigger] s@[i] > '\x7f',
{
    let mut i: usize = 0;
    while i < s.len()
        invariant
            i <= s@.len(),
            forall|j: int| 0 <= j < i ==> s@[j] <= '\x7f',
        decreases s@.len() - i,
    {
        if s[i] > '\x7f' {
            proof {
                assert(s@[i as int] > '\x7f');
            }
            return false;
        }
        i = i + 1;
    }
    true
}

/// The entries of a component manifest of `version` for `target`: bounded LF-only ASCII text whose
/// first line names the version and target and whose other lines are valid entries of distinct
/// names, at least one.
pub fn parse_component_manifest(bytes: &[u8], version: &str, target: &str) -> (r: Result<
    Vec<ManifestEntry>,
    ActionError,
>)
    ensures
        match manifest_failure(bytes@, version@, target@) {
            Some(m) => r matches Err(e) && e.kind == ErrorKind::Rejected && e.message@ == m,
            None => r matches Ok(entries) && entries@.len() == crate::text::spec_lines(decode_utf8(bytes@)).len() - 1
                && forall|i: int| 0 <= i < entries@.len() ==> spec_manifest_row(
                crate::text::spec_lines(decode_utf8(bytes@))[i + 1],
            ) == entry_of(#[trigger] entries@[i]),
        },
{
    let n = bytes.len();
    if n as u64 > MAX_MANIFEST_BYTES || byte_in(bytes, 13u8) || !(n > 0 && bytes[n - 1] == 10u8) {
        return Err(rejection("Cargo-Rail component manifest is not canonical LF-only text"));
    }
    let text = match utf8_text(bytes) {
        Some(t) => t,
        None => {
            return Err(rejection("Cargo-Rail component manifest is not UTF-8"));
        },
    };
    let chars = chars_of(text.as_str());
    if !ascii_only(&chars) {
        return Err(rejection("Cargo-Rail component manifest must be ASCII"));
    }
    let lines = crate::text::lines_of(&chars);
    let ghost all = crate::text::spec_lines(chars@);
    let ghost rows = all.skip(1);
    let mut header = crate::text::owned("cargo-rail-components-v1\t");
    push_str(&mut header, version);
    push_str(&mut header, "\t");
    push_str(&mut header, target);
    if lines.len() == 0 || !crate::text::chars_are(&lines[0], header.as_str()) {
        return Err(rejection("Cargo-Rail component manifest authority is incompatible"));
    }
    let mut entries: Vec<ManifestEntry> = Vec::new();
    let mut i: usize = 1;
    while i < lines.len()
        invariant
            1 <= i <= lines@.len() == all.len(),
            rows == all.skip(1),
            !(n as u64 > MAX_MANIFEST_BYTES || bytes@.contains(13u8) || !(n > 0 && bytes@.last() == 10u8)),
            n == bytes@.len(),
            valid_utf8(bytes@),
            chars@ == decode_utf8(bytes@),
            !exists|k: int| 0 <= k < chars@.len() && #[trigger] chars@[k] > '\x7f',
            all == crate::text::spec_lines(chars@),
            all.len() > 0 && all[0] == manifest_header(version@, target@),
            forall|j: int| 0 <= j < lines@.len() ==> #[trigger] lines@[j]@ == all[j],
            entries@.len() == i - 1,
            rows_failure(rows, (i - 1) as nat) is None,
            forall|j: int| 0 <= j < entries@.len() ==> spec_manifest_row(rows[j]) == entry_of(#[trigger] entries@[j]),
        decreases lines@.len() - i,
    {
        let line = string_of(&lines[i]);
        proof {
            assert(rows[i - 1] == all[i as int]);
        }
        let entry = match parse_manifest_entry(line.as_str(), "Cargo-Rail component manifest") {
            Ok(e) => e,
            Err(e) => {
                proof {
                    lemma_rows_failure_stays(rows, i as nat, rows.len());
                }
                return Err(e);
            },
        };
        if crate::install::name_before(entries.as_slice(), entries.len(), entry.name.as_str()) {
            proof {
                let j = choose|j: int| 0 <= j < entries@.len() && entries@[j].name@ == entry.name@;
                assert(spec_manifest_row(rows[j]) == entry_of(entries@[j]));
                assert(row_name(rows[j]) == entry.name@);
                lemma_rows_failure_stays(rows, i as nat, rows.len());
            }
            return Err(rejection("Cargo-Rail component manifest contains duplicate names"));
        }
        proof {
            assert forall|j: int| 0 <= j < i - 1 implies #[trigger] row_name(rows[j]) != entry.name@ by {
                assert(spec_manifest_row(rows[j]) == entry_of(entries@[j]));
            }
        }
        entries.push(entry);
        i = i + 1;
    }
    if entries.len() == 0 {
        return Err(rejection("Cargo-Rail component manifest has no entries"));
    }
    Ok(entries)
}

/// What the ZIP reader reports of one archive entry.
#[derive(Debug)]
pub struct ZipEntry {
    /// The entry's path as the archive stores it.
    pub name: String,
    pub is_dir: bool,
    pub is_file: bool,
    /// The Unix mode bits, where the archive records them.
    pub unix_mode: Option<u32>,
    pub compression: Compression,
    /// The uncompressed size.
    pub size: u64,
}

/// The files of an archive, by normalized name, and the names of its component manifests.
#[derive(Debug)]
pub struct Inventory {
    pub files: Vec<(String, u64)>,
    pub manifests: Vec<String>,
}

/// The name of the component manifest inside a release archive.
pub open spec fn manifest_file_name() -> Seq<char> {
    "cargo-rail-components-v1.tsv"@
}

/// What inspecting the entries so far has gathered: every normalized name, the regular files
/// with their sizes, the component manifests, and the expanded size of the files.
pub struct InspectState {
    pub names: Seq<Seq<char>>,
    pub files: Seq<(Seq<char>, u64)>,
    pub manifests: Seq<Seq<char>>,
    pub expanded: nat,
}

/// The file type bits of an entry: zero where the archive records no Unix mode.
pub open spec fn unix_kind(mode: Option<u32>) -> u32 {
    match mode {
        Some(m) => m & 0o170000u32,
        None => 0,
    }
}

/// The compression contract message of an entry.
pub open spec fn compression_message(name: Seq<char>) -> Seq<char> {
    "Cargo-Rail ZIP entry "@ + name + " does not use the exact v0.26 compression contract"@
}

/// One step of inspecting an archive: the entry must have a safe path not seen before; a
/// directory must be stored; a file must be regular, deflated and bounded, and keep the archive's
/// expanded size bounded; a component manifest must be small.
pub open spec fn inspect_step(st: InspectState, e: ZipEntry) -> Result<InspectState, Seq<char>> {
    match archive_name_outcome(e.name@) {
        Err(m) => Err(m),
        Ok(name) => if st.names.contains(name) {
            Err("Cargo-Rail archive contains duplicate entry "@ + name)
        } else if e.is_dir {
            if e.compression != Compression::Stored {
                Err(compression_message(name))
            } else {
                Ok(InspectState { names: st.names.push(name), ..st })
            }
        } else if !e.is_file || !(unix_kind(e.unix_mode) == 0 || unix_kind(e.unix_mode) == 0o100000u32) {
            Err("Cargo-Rail ZIP contains a non-regular entry: "@ + name)
        } else if e.compression != Compression::Deflated {
            Err(compression_message(name))
        } else if e.size > MAX_COMPONENT_BYTES {
            Err("Cargo-Rail archive entry "@ + name + " exceeds its file bound"@)
        } else if st.expanded + e.size > MAX_EXPANDED_BYTES {
            Err("Cargo-Rail archive exceeds its expanded byte bound"@)
        } else if split_on(name, '/').last() == manifest_file_name() && e.size > MAX_MANIFEST_BYTES {
            Err("Cargo-Rail component manifest exceeds 64 KiB"@)
        } else {
            Ok(InspectState {
                names: st.names.push(name),
                files: st.files.push((name, e.size)),
                manifests: if split_on(name, '/').last() == manifest_file_name() {
                    st.manifests.push(name)
                } else {
                    st.manifests
                },
                expanded: st.expanded + e.size as nat,
            })
        },
    }
}

/// Inspecting the first `n` entries in order.
pub open spec fn inspect_fold(entries: Seq<ZipEntry>, n: nat) -> Result<InspectState, Seq<char>>
    decreases n,
{
    if n == 0 || n > entries.len() {
        Ok(InspectState { names: Seq::empty(), files: Seq::empty(), manifests: Seq::empty(), expanded: 0 })
    } else {
        match inspect_fold(entries, (n - 1) as nat) {
            Err(m) => Err(m),
            Ok(st) => inspect_step(st, entries[n - 1]),
        }
    }
}

/// What inspecting an archive's entries gives: a failure message, or what was gathered.
pub open spec fn inspect_outcome(entries: Seq<ZipEntry>) -> Result<InspectState, Seq<char>> {
    if entries.len() > MAX_ARCHIVE_ENTRIES {
        Err("Cargo-Rail archive exceeds the 128-entry bound"@)
    } else {
        inspect_fold(entries, entries.len())
    }
}

/// The values of file records.
pub open spec fn files_view(v: Seq<(String, u64)>) -> Seq<(Seq<char>, u64)> {
    v.map_values(|f: (String, u64)| (f.0@, f.1))
}

proof fn lemma_fold_stays(entries: Seq<ZipEntry>, k: nat, m: nat)
    requires
        k <= m <= entries.len(),
        inspect_fold(entries, k) is Err,
    ensures
        inspect_fold(entries, m) == inspect_fold(entries, k),
    decreases m,
{
    if m > k {
        lemma_fold_stays(entries, k, (m - 1) as nat);
    }
}

fn last_piece_is_manifest(name: &str) -> (r: bool)
    ensures
        r == (split_on(name@, '/').last() == manifest_file_name()),
{
    let chars = chars_of(name);
    let pieces = split_chars(&chars, '/');
    proof {
        crate::text::lemma_split_on_nonempty(name@, '/');
    }
    let last = pieces.len() - 1;
    crate::text::chars_are(&pieces[last], "cargo-rail-components-v1.tsv")
}

fn seen_before(names: &Vec<String>, name: &str) -> (r: bool)
    ensures
        r == crate::validation::strs_view(names@).contains(name@),
{
    let mut i: usize = 0;
    while i < names.len()
        invariant
            i <= names@.len(),
            forall|j: int| 0 <= j < i ==> names@[j]@ != name@,
        decreases names@.len() - i,
    {
        if crate::text::str_eq(names[i].as_str(), name) {
            proof {
                assert(crate::validation::strs_view(names@)[i as int] == name@);
            }
            return true;
        }
        i = i + 1;
    }
    proof {
        if crate::validation::strs_view(names@).contains(name@) {
            let j = choose|j: int| 0 <= j < names@.len() && crate::validation::strs_view(names@)[j] == name@;
            assert(names@[j]@ == name@);
        }
    }
    false
}

/// Inspects the entries of a release archive in order: at most 128, each with a safe path not seen
/// before; directories stored; files regular, deflated and bounded, together within the expanded
/// bound; component manifests within 64 KiB. Gives the files and the manifests.
pub fn inspect_entries(entries: &[ZipEntry]) -> (r: Result<Inventory, ActionError>)
    ensures
        match inspect_outcome(entries@) {
            Ok(st) => r matches Ok(inv) && files_view(inv.files@) == st.files
                && crate::validation::strs_view(inv.manifests@) == st.manifests,
            Err(m) => r matches Err(e) && e.kind == ErrorKind::Rejected && e.message@ == m,
        },
{
    if entries.len() > MAX_ARCHIVE_ENTRIES {
        return Err(rejection("Cargo-Rail archive exceeds the 128-entry bound"));
    }
    let mut names: Vec<String> = Vec::new();
    let mut files: Vec<(String, u64)> = Vec::new();
    let mut manifests: Vec<String> = Vec::new();
    let mut expanded: u64 = 0;
    let mut i: usize = 0;
    while i < entries.len()
        invariant
            i <= entries@.len() <= MAX_ARCHIVE_ENTRIES,
            inspect_fold(entries@, i as nat) matches Ok(st) && st.names == crate::validation::strs_view(names@)
                && st.files == files_view(files@) && st.manifests == crate::validation::strs_view(manifests@)
                && st.expanded == expanded as nat && expanded <= MAX_EXPANDED_BYTES,
        decreases entries@.len() - i,
    {
        let e = &entries[i];
        let ghost st = inspect_fold(entries@, i as nat)->Ok_0;
        let name = match safe_archive_name(e.name.as_str()) {
            Ok(n) => n,
            Err(err) => {
                proof {
                    lemma_fold_stays(entries@, (i + 1) as nat, entries@.len());
                }
                return Err(err);
            },
        };
        let fail: Option<ActionError> = if seen_before(&names, name.as_str()) {
            Some(ActionError::rejected(concat("Cargo-Rail archive contains duplicate entry ", name.as_str())))
        } else if e.is_dir {
            match validate_zip_entry_compression(name.as_str(), true, e.compression) {
                Err(err) => Some(err),
                Ok(()) => None,
            }
        } else {
            let kind: u32 = match e.unix_mode {
                Some(m) => m & 0o170000u32,
                None => 0,
            };
            if !e.is_file || !(kind == 0 || kind == 0o100000u32) {
                Some(ActionError::rejected(concat("Cargo-Rail ZIP contains a non-regular entry: ", name.as_str())))
            } else {
                match validate_zip_entry_compression(name.as_str(), false, e.compression) {
                    Err(err) => Some(err),
                    Ok(()) => if e.size > MAX_COMPONENT_BYTES {
                        Some(ActionError::rejected(concat3(
                            "Cargo-Rail archive entry ",
                            name.as_str(),
                            " exceeds its file bound",
                        )))
                    } else if expanded + e.size > MAX_EXPANDED_BYTES {
                        Some(rejection("Cargo-Rail archive exceeds its expanded byte bound"))
                    } else if last_piece_is_manifest(name.as_str()) && e.size > MAX_MANIFEST_BYTES {
                        Some(rejection("Cargo-Rail component manifest exceeds 64 KiB"))
                    } else {
                        None
                    },
                }
            }
        };
        match fail {
            Some(err) => {
                proof {
                    lemma_fold_stays(entries@, (i + 1) as nat, entries@.len());
                }
                return Err(err);
            },
            None => {},
        }
        if !e.is_dir {
            let manifest = last_piece_is_manifest(name.as_str());
            files.push((crate::text::owned(name.as_str()), e.size));
            expanded = expanded + e.size;
            if manifest {
                manifests.push(crate::text::owned(name.as_str()));
            }
        }
        names.push(name);
        proof {
            let next = inspect_fold(entries@, (i + 1) as nat)->Ok_0;
            assert(crate::validation::strs_view(names@) =~= st.names.push(next.names.last()));
            assert(files_view(files@) =~= next.files);
            assert(crate::validation::strs_view(manifests@) =~= next.manifests);
        }
        i = i + 1;
    }
    Ok(Inventory { files, manifests })
}

/// The directory part of a normalized archive path: everything before its last `/`, or the empty
/// text.
pub open spec fn parent_text(s: Seq<char>) -> Seq<char>
    decreases s.len(),
{
    if s.len() == 0 {
        s
    } else if s.last() == '/' {
        s.drop_last()
    } else {
        parent_text(s.drop_last())
    }
}

fn parent_of(s: &[char]) -> (r: Vec<char>)
    ensures
        r@ == parent_text(s@),
{
    let mut n: usize = s.len();
    proof {
        assert(s@.take(n as int) =~= s@);
    }
    while n > 0 && s[n - 1] != '/'
        invariant
            n <= s@.len(),
            parent_text(s@) == parent_text(s@.take(n as int)),
        decreases n,
    {
        proof {
            assert(s@.take(n as int).drop_last() =~= s@.take(n - 1));
        }
        n = n - 1;
    }
    if n == 0 {
        proof {
            assert(s@.take(0) =~= Seq::<char>::empty());
        }
        Vec::new()
    } else {
        proof {
            assert(s@.take(n as int).drop_last() =~= s@.take(n - 1));
        }
        crate::text::sub_chars(s, 0, n - 1)
    }
}

/// The directory of the components: the manifest's directory, with `/` separators.
pub open spec fn component_directory_of(manifest_path: Seq<char>) -> Seq<char> {
    crate::release_record::replace_all(parent_text(manifest_path), "\\"@, "/"@)
}

/// The archive path of a component in the components' directory.
pub open spec fn archive_path(dir: Seq<char>, name: Seq<char>) -> Seq<char> {
    if dir.len() == 0 {
        name
    } else {
        dir + "/"@ + name
    }
}

/// The files a component manifest declares, in the order a map of them is filled: the manifest
/// itself, then each component.
pub open spec fn declared_files(manifest_path: Seq<char>, manifest_len: u64, dir: Seq<char>, entries: Seq<ManifestEntry>) -> Seq<
    (Seq<char>, u64),
> {
    seq![(manifest_path, manifest_len)] + entries.map_values(|e: ManifestEntry| (archive_path(dir, e.name@), e.bytes))
}

/// The size that the last record of `name` gives, as a map filled in order keeps it.
pub open spec fn lookup_last(v: Seq<(Seq<char>, u64)>, name: Seq<char>) -> Option<u64>
    decreases v.len(),
{
    if v.len() == 0 {
        None
    } else if v.last().0 == name {
        Some(v.last().1)
    } else {
        lookup_last(v.drop_last(), name)
    }
}

/// Two sequences of records fill equal maps of name to size.
pub open spec fn same_files(a: Seq<(Seq<char>, u64)>, b: Seq<(Seq<char>, u64)>) -> bool {
    forall|k: Seq<char>| #[trigger] lookup_last(a, k) == lookup_last(b, k)
}

proof fn lemma_lookup_absent(v: Seq<(Seq<char>, u64)>, k: Seq<char>)
    requires
        forall|i: int| 0 <= i < v.len() ==> (#[trigger] v[i]).0 != k,
    ensures
        lookup_last(v, k) is None,
    decreases v.len(),
{
    if v.len() > 0 {
        lemma_lookup_absent(v.drop_last(), k);
    }
}

fn lookup_last_of(v: &Vec<(String, u64)>, k: &str) -> (r: Option<u64>)
    ensures
        r == lookup_last(files_view(v@), k@),
{
    let ghost fv = files_view(v@);
    let mut i: usize = v.len();
    proof {
        assert(fv.take(i as int) =~= fv);
    }
    while i > 0
        invariant
            i <= v@.len(),
            fv == files_view(v@),
            lookup_last(fv, k@) == lookup_last(fv.take(i as int), k@),
        decreases i,
    {
        proof {
            assert(fv.take(i as int).drop_last() =~= fv.take(i - 1));
            assert(fv.take(i as int).last() == (v@[i - 1].0@, v@[i - 1].1));
        }
        if crate::text::str_eq(v[i - 1].0.as_str(), k) {
            return Some(v[i - 1].1);
        }
        i = i - 1;
    }
    proof {
        assert(fv.take(0) =~= Seq::<(Seq<char>, u64)>::empty());
    }
    None
}

fn same_files_of(a: &Vec<(String, u64)>, b: &Vec<(String, u64)>) -> (r: bool)
    ensures
        r == same_files(files_view(a@), files_view(b@)),
{
    let ghost av = files_view(a@);
    let ghost bv = files_view(b@);
    let mut i: usize = 0;
    while i < a.len()
        invariant
            i <= a@.len(),
            av == files_view(a@),
            bv == files_view(b@),
            forall|j: int| 0 <= j < i ==> lookup_last(av, #[trigger] av[j].0) == lookup_last(bv, av[j].0),
        decreases a@.len() - i,
    {
        if lookup_last_of(a, a[i].0.as_str()) != lookup_last_of(b, a[i].0.as_str()) {
            proof {
                assert(av[i as int].0 == a@[i as int].0@);
            }
            return false;
        }
        i = i + 1;
    }
    let mut j: usize = 0;
    while j < b.len()
        invariant
            j <= b@.len(),
            av == files_view(a@),
            bv == files_view(b@),
            forall|m: int| 0 <= m < a@.len() ==> lookup_last(av, #[trigger] av[m].0) == lookup_last(bv, av[m].0),
            forall|m: int| 0 <= m < j ==> lookup_last(av, #[trigger] bv[m].0) == lookup_last(bv, bv[m].0),
        decreases b@.len() - j,
    {
        if lookup_last_of(a, b[j].0.as_str()) != lookup_last_of(b, b[j].0.as_str()) {
            proof {
                assert(bv[j as int].0 == b@[j as int].0@);
            }
            return false;
        }
        j = j + 1;
    }
    proof {
        assert forall|k: Seq<char>| #[trigger] lookup_last(av, k) == lookup_last(bv, k) by {
            if exists|m: int| 0 <= m < av.len() && av[m].0 == k {
                let m = choose|m: int| 0 <= m < av.len() && av[m].0 == k;
                assert(lookup_last(av, av[m].0) == lookup_last(bv, av[m].0));
            } else if exists|m: int| 0 <= m < bv.len() && bv[m].0 == k {
                let m = choose|m: int| 0 <= m < bv.len() && bv[m].0 == k;
                assert(lookup_last(av, bv[m].0) == lookup_last(bv, bv[m].0));
            } else {
                lemma_lookup_absent(av, k);
                lemma_lookup_absent(bv, k);
            }
        }
    }
    true
}

/// The entries of a component manifest match its rows.
pub open spec fn rows_match(entries: Seq<ManifestEntry>, bytes: Seq<u8>) -> bool {
    let lines = crate::text::spec_lines(decode_utf8(bytes));
    &&& entries.len() == lines.len() - 1
    &&& forall|i: int| 0 <= i < entries.len() ==> spec_manifest_row(lines[i + 1]) == entry_of(#[trigger] entries[i])
}

/// Whether the entries of an archive's manifest are the complete expected components of the
/// requested set and the archive holds exactly the manifest and those components.
pub open spec fn layout_ok(
    files: Seq<(Seq<char>, u64)>,
    manifest_path: Seq<char>,
    bytes: Seq<u8>,
    target: Seq<char>,
    set: crate::install::ComponentSet,
    entries: Seq<ManifestEntry>,
) -> bool {
    &&& forall|i: int| 0 <= i < entries.len() ==> crate::install::entry_expected(entries, target, i)
    &&& crate::install::counts_complete(entries, set)
    &&& same_files(
        files,
        declared_files(manifest_path, bytes.len() as u64, component_directory_of(manifest_path), entries),
    )
}

/// The manifest's entries are the expected complete set, but the archive's files are not exactly
/// the manifest and the components it declares.
pub open spec fn inventory_mismatch(
    files: Seq<(Seq<char>, u64)>,
    manifest_path: Seq<char>,
    bytes: Seq<u8>,
    target: Seq<char>,
    set: crate::install::ComponentSet,
    entries: Seq<ManifestEntry>,
) -> bool {
    &&& forall|i: int| 0 <= i < entries.len() ==> crate::install::entry_expected(entries, target, i)
    &&& crate::install::counts_complete(entries, set)
    &&& !same_files(
        files,
        declared_files(manifest_path, bytes.len() as u64, component_directory_of(manifest_path), entries),
    )
}

/// Where an archive's components lie and what its manifest declares.
#[derive(Debug)]
pub struct ArchiveLayout {
    pub component_directory: String,
    pub entries: Vec<ManifestEntry>,
}

/// The layout of an inspected archive: it must hold exactly one component manifest, valid for
/// the version and target, declaring the complete requested set, and nothing but the manifest and
/// the components it declares.
pub fn inspect_archive(
    inventory: &Inventory,
    manifest_bytes: &[u8],
    version: &str,
    target: &str,
    set: crate::install::ComponentSet,
) -> (r: Result<ArchiveLayout, ActionError>)
    ensures
        r matches Err(e) ==> e.kind == ErrorKind::Rejected,
        inventory.manifests@.len() != 1 ==> (r matches Err(e) && e.message@
            == "Cargo-Rail archive must contain exactly one cargo-rail-components-v1.tsv"@),
        inventory.manifests@.len() == 1 ==> match manifest_failure(manifest_bytes@, version@, target@) {
            Some(m) => r matches Err(e) && e.message@ == m,
            None => {
                &&& (r matches Ok(layout) ==> rows_match(layout.entries@, manifest_bytes@)
                    && layout.component_directory@ == component_directory_of(inventory.manifests@[0]@)
                    && layout_ok(
                    files_view(inventory.files@),
                    inventory.manifests@[0]@,
                    manifest_bytes@,
                    target@,
                    set,
                    layout.entries@,
                ))
                &&& (forall|es: Seq<ManifestEntry>| rows_match(es, manifest_bytes@) ==> #[trigger] layout_ok(
                    files_view(inventory.files@),
                    inventory.manifests@[0]@,
                    manifest_bytes@,
                    target@,
                    set,
                    es,
                )) ==> r is Ok
                &&& (forall|es: Seq<ManifestEntry>| rows_match(es, manifest_bytes@) ==> #[trigger] inventory_mismatch(
                    files_view(inventory.files@),
                    inventory.manifests@[0]@,
                    manifest_bytes@,
                    target@,
                    set,
                    es,
                )) ==> (r matches Err(e) && e.message@
                    == "Cargo-Rail archive inventory disagrees with its component manifest"@)
            },
        },
{
    if inventory.manifests.len() != 1 {
        return Err(rejection("Cargo-Rail archive must contain exactly one cargo-rail-components-v1.tsv"));
    }
    let manifest_path = inventory.manifests[0].as_str();
    let path_chars = chars_of(manifest_path);
    let parent = parent_of(&path_chars);
    let parent_text_value = string_of(&parent);
    proof {
        reveal_strlit("\\");
    }
    let directory = crate::release_record::replace(parent_text_value.as_str(), "\\", "/");
    let entries = parse_component_manifest(manifest_bytes, version, target)?;
    proof {
        assert(rows_match(entries@, manifest_bytes@));
    }
    match crate::install::validate_manifest_inventory(entries.as_slice(), target, set) {
        Ok(()) => {},
        Err(e) => {
            proof {
                assert(!layout_ok(
                    files_view(inventory.files@),
                    inventory.manifests@[0]@,
                    manifest_bytes@,
                    target@,
                    set,
                    entries@,
                ));
                assert(!inventory_mismatch(
                    files_view(inventory.files@),
                    inventory.manifests@[0]@,
                    manifest_bytes@,
                    target@,
                    set,
                    entries@,
                ));
            }
            return Err(e);
        },
    }
    let mut declared: Vec<(String, u64)> = Vec::new();
    let n = manifest_bytes.len();
    declared.push((crate::text::owned(manifest_path), n as u64));
    let mut i: usize = 0;
    while i < entries.len()
        invariant
            i <= entries@.len(),
            n == manifest_bytes@.len(),
            directory@ == component_directory_of(manifest_path@),
            files_view(declared@) == declared_files(manifest_path@, n as u64, directory@, entries@.take(i as int)),
        decreases entries@.len() - i,
    {
        let path = if directory.as_str().is_empty() {
            crate::text::owned(entries[i].name.as_str())
        } else {
            let mut p = crate::text::owned(directory.as_str());
            push_str(&mut p, "/");
            push_str(&mut p, entries[i].name.as_str());
            p
        };
        let ghost before = files_view(declared@);
        declared.push((path, entries[i].bytes));
        proof {
            assert(files_view(declared@) =~= before.push((archive_path(directory@, entries@[i as int].name@), entries@[i as int].bytes)));
            assert(entries@.take(i + 1) =~= entries@.take(i as int).push(entries@[i as int]));
            assert(declared_files(manifest_path@, n as u64, directory@, entries@.take(i + 1)) =~= declared_files(
                manifest_path@,
                n as u64,
                directory@,
                entries@.take(i as int),
            ).push((archive_path(directory@, entries@[i as int].name@), entries@[i as int].bytes)));
        }
        i = i + 1;
    }
    proof {
        assert(entries@.take(i as int) =~= entries@);
    }
    proof {
        assert(manifest_path@ == inventory.manifests@[0]@);
    }
    if !same_files_of(&inventory.files, &declared) {
        proof {
            assert(!layout_ok(
                files_view(inventory.files@),
                inventory.manifests@[0]@,
                manifest_bytes@,
                target@,
                set,
                entries@,
            ));
        }
        return Err(rejection("Cargo-Rail archive inventory disagrees with its component manifest"));
    }
    proof {
        assert(!inventory_mismatch(
            files_view(inventory.files@),
            inventory.manifests@[0]@,
            manifest_bytes@,
            target@,
            set,
            entries@,
        ));
    }
    Ok(ArchiveLayout { component_directory: directory, entries })
}

proof fn lemma_selected_valid(lines: Seq<Seq<char>>, archive: Seq<char>, n: nat)
    ensures
        forall|k: int| 0 <= k < selected_digests(lines, archive, n).len() ==> spec_valid_digest(
            #[trigger] selected_digests(lines, archive, n)[k],
        ),
    decreases n,
{
    if n > 0 && n <= lines.len() {
        lemma_selected_valid(lines, archive, (n - 1) as nat);
        let prev = selected_digests(lines, archive, (n - 1) as nat);
        let now = selected_digests(lines, archive, n);
        assert forall|k: int| 0 <= k < now.len() implies spec_valid_digest(#[trigger] now[k]) by {
            if k < prev.len() {
                assert(now[k] == prev[k]);
            }
        }
    }
}

/// The digest the checksum manifest gives an archive is always a lowercase SHA-256 digest.
pub proof fn law_checksum_is_a_lowercase_digest(bytes: Seq<u8>, archive: Seq<char>)
    ensures
        checksum_outcome(bytes, archive) matches Ok(d) ==> spec_valid_digest(d),
{
    let lines = crate::text::spec_lines(decode_utf8(bytes));
    lemma_selected_valid(lines, archive, lines.len());
}

proof fn lemma_rows_distinct(rows: Seq<Seq<char>>, n: nat)
    requires
        n <= rows.len(),
        rows_failure(rows, n) is None,
    ensures
        forall|k: int| 0 <= k < n ==> spec_manifest_row(#[trigger] rows[k]) is Entry,
        forall|i: int, j: int| 0 <= i < j < n ==> row_name(rows[i]) != row_name(rows[j]),
    decreases n,
{
    if n > 0 {
        lemma_rows_distinct(rows, (n - 1) as nat);
        assert forall|i: int, j: int| 0 <= i < j < n implies row_name(rows[i]) != row_name(rows[j]) by {
            if j == n - 1 {
                assert(!(exists|m: int| 0 <= m < n - 1 && #[trigger] row_name(rows[m]) == row_name(rows[j])));
            }
        }
    }
}

/// A component manifest that is accepted names each component once.
pub proof fn law_manifest_names_each_component_once(bytes: Seq<u8>, version: Seq<char>, target: Seq<char>)
    requires
        manifest_failure(bytes, version, target) is None,
    ensures
        ({
            let rows = crate::text::spec_lines(decode_utf8(bytes)).skip(1);
            &&& forall|k: int| 0 <= k < rows.len() ==> spec_manifest_row(#[trigger] rows[k]) is Entry
            &&& forall|i: int, j: int| 0 <= i < j < rows.len() ==> row_name(rows[i]) != row_name(rows[j])
        }),
{
    let rows = crate::text::spec_lines(decode_utf8(bytes)).skip(1);
    lemma_rows_distinct(rows, rows.len());
}
} // verus!
