use vstd::prelude::*;
use vstd::utf8::{is_char_boundary, valid_utf8, encode_utf8_valid_utf8, encode_utf8};
use vstd::string::StringSliceAdditionalSpecFns;

use crate::error::{ActionError, ErrorKind};
use crate::text::{text_len, chars_of, push_char, push_str, concat, concat3, u64_text, usize_text, decimal};

verus! {

/// The bound on one published GitHub output value.
pub const MAX_OUTPUT_BYTES: usize = 262144;
/// The bound on one emitted diagnostic.
pub const MAX_DIAGNOSTIC_BYTES: usize = 8192;
/// The bound on the step summary.
pub const MAX_SUMMARY_BYTES: usize = 262144;

/// The replacement text of one character in inline Markdown.
pub open spec fn markdown_char(c: char) -> Seq<char> {
    if c == '&' {
        "&amp;"@
    } else if c == '<' {
        "&lt;"@
    } else if c == '>' {
        "&gt;"@
    } else if c == '|' {
        "&#124;"@
    } else if c == '`' {
        "&#96;"@
    } else if c == '\\' {
        "&#92;"@
    } else if c == '*' {
        "&#42;"@
    } else if c == '_' {
        "&#95;"@
    } else if c == '[' {
        "&#91;"@
    } else if c == ']' {
        "&#93;"@
    } else if c == '~' {
        "&#126;"@
    } else if c == '\r' || c == '\n' {
        seq![' ']
    } else {
        seq![c]
    }
}

/// Inline Markdown that cannot open structure: each character replaced by `markdown_char`.
pub open spec fn spec_markdown_inline(s: Seq<char>) -> Seq<char>
    decreases s.len(),
{
    if s.len() == 0 {
        seq![]
    } else {
        spec_markdown_inline(s.drop_last()) + markdown_char(s.last())
    }
}

/// The replacement text of one character in a workflow-command value.
pub open spec fn command_char(c: char) -> Seq<char> {
    if c == '%' {
        "%25"@
    } else if c == '\r' {
        "%0D"@
    } else if c == '\n' {
        "%0A"@
    } else {
        seq![c]
    }
}

/// A workflow-command value: `%`, CR and LF percent-encoded.
pub open spec fn spec_command_escape(s: Seq<char>) -> Seq<char>
    decreases s.len(),
{
    if s.len() == 0 {
        seq![]
    } else {
        spec_command_escape(s.drop_last()) + command_char(s.last())
    }
}

/// The replacement text of one character in a workflow-command property.
pub open spec fn property_char(c: char) -> Seq<char> {
    if c == ':' {
        "%3A"@
    } else if c == ',' {
        "%2C"@
    } else {
        command_char(c)
    }
}

/// A workflow-command property: the value escape, then `:` and `,` percent-encoded.
pub open spec fn spec_property_escape(s: Seq<char>) -> Seq<char>
    decreases s.len(),
{
    if s.len() == 0 {
        seq![]
    } else {
        spec_property_escape(s.drop_last()) + property_char(s.last())
    }
}

fn push_markdown_char(out: &mut String, c: char)
    ensures
        final(out)@ == old(out)@ + markdown_char(c),
{
    if c == '&' {
        push_str(out, "&amp;");
    } else if c == '<' {
        push_str(out, "&lt;");
    } else if c == '>' {
        push_str(out, "&gt;");
    } else if c == '|' {
        push_str(out, "&#124;");
    } else if c == '`' {
        push_str(out, "&#96;");
    } else if c == '\\' {
        push_str(out, "&#92;");
    } else if c == '*' {
        push_str(out, "&#42;");
    } else if c == '_' {
        push_str(out, "&#95;");
    } else if c == '[' {
        push_str(out, "&#91;");
    } else if c == ']' {
        push_str(out, "&#93;");
    } else if c == '~' {
        push_str(out, "&#126;");
    } else if c == '\r' || c == '\n' {
        push_char(out, ' ');
    } else {
        push_char(out, c);
    }
}

/// Text that renders literally inside one line of GitHub Markdown.
pub fn markdown_inline(value: &str) -> (escaped: String)
    ensures
        escaped@ == spec_markdown_inline(value@),
{
    let chars = chars_of(value);
    let mut out = String::new();
    let mut i: usize = 0;
    while i < chars.len()
        invariant
            i <= chars@.len(),
            chars@ == value@,
            out@ == spec_markdown_inline(chars@.take(i as int)),
        decreases chars@.len() - i,
    {
        proof {
            assert(chars@.take(i + 1).drop_last() == chars@.take(i as int));
        }
        push_markdown_char(&mut out, chars[i]);
        i = i + 1;
    }
    proof {
        assert(chars@.take(chars@.len() as int) == chars@);
    }
    out
}

fn push_command_char(out: &mut String, c: char, property: bool)
    ensures
        final(out)@ == old(out)@ + (if property { property_char(c) } else { command_char(c) }),
{
    if c == '%' {
        push_str(out, "%25");
    } else if c == '\r' {
        push_str(out, "%0D");
    } else if c == '\n' {
        push_str(out, "%0A");
    } else if property && c == ':' {
        push_str(out, "%3A");
    } else if property && c == ',' {
        push_str(out, "%2C");
    } else {
        push_char(out, c);
    }
}

/// A workflow-command value with `%`, CR and LF percent-encoded.
pub fn command_escape(value: &str) -> (escaped: String)
    ensures
        escaped@ == spec_command_escape(value@),
{
    let chars = chars_of(value);
    let mut out = String::new();
    let mut i: usize = 0;
    while i < chars.len()
        invariant
            i <= chars@.len(),
            chars@ == value@,
            out@ == spec_command_escape(chars@.take(i as int)),
        decreases chars@.len() - i,
    {
        proof {
            assert(chars@.take(i + 1).drop_last() == chars@.take(i as int));
        }
        push_command_char(&mut out, chars[i], false);
        i = i + 1;
    }
    proof {
        assert(chars@.take(chars@.len() as int) == chars@);
    }
    out
}

/// A workflow-command property with `%`, CR, LF, `:` and `,` percent-encoded.
pub fn property_escape(value: &str) -> (escaped: String)
    ensures
        escaped@ == spec_property_escape(value@),
{
    let chars = chars_of(value);
    let mut out = String::new();
    let mut i: usize = 0;
    while i < chars.len()
        invariant
            i <= chars@.len(),
            chars@ == value@,
            out@ == spec_property_escape(chars@.take(i as int)),
        decreases chars@.len() - i,
    {
        proof {
            assert(chars@.take(i + 1).drop_last() == chars@.take(i as int));
        }
        push_command_char(&mut out, chars[i], true);
        i = i + 1;
    }
    proof {
        assert(chars@.take(chars@.len() as int) == chars@);
    }
    out
}

/// The longest prefix of `value` of at most `maximum` bytes that ends on a character boundary.
pub fn truncate_utf8(value: &str, maximum: usize) -> (prefix: &str)
    ensures
        value.len() <= maximum ==> prefix@ == value@,
        value.len() > maximum ==> {
            let bytes = value.spec_bytes();
            &&& prefix.spec_bytes() == bytes.take(prefix.spec_bytes().len() as int)
            &&& prefix.spec_bytes().len() <= maximum
            &&& is_char_boundary(bytes, prefix.spec_bytes().len() as int)
            &&& forall|k: int| prefix.spec_bytes().len() < k <= maximum ==> !is_char_boundary(bytes, k)
        },
{
    if value.len() <= maximum {
        return value;
    }
    let ghost bytes = value.spec_bytes();
    proof {
        encode_utf8_valid_utf8(value@);
        assert(valid_utf8(bytes));
        assert(maximum < bytes.len());
        assert(is_char_boundary(bytes, 0));
    }
    let mut end: usize = maximum;
    while !value.is_char_boundary(end)
        invariant
            end <= maximum < bytes.len(),
            bytes == value.spec_bytes(),
            valid_utf8(bytes),
            forall|k: int| end < k <= maximum ==> !is_char_boundary(bytes, k),
        decreases end,
    {
        assert(end != 0);
        end = end - 1;
    }
    let (head, _tail) = value.split_at(end);
    proof {
        assert(head.spec_bytes().len() == end);
        assert(bytes.subrange(0, end as int) == bytes.take(end as int));
    }
    head
}

/// Accepts text of at most `maximum` bytes.
pub fn bounded_text(value: String, maximum: usize, subject: &str) -> (r: Result<String, ActionError>)
    ensures
        text_len(value@) <= maximum ==> (r matches Ok(v) && v@ == value@),
        text_len(value@) > maximum ==> (r matches Err(e) && e.kind == ErrorKind::Rejected
            && e.message@ == subject@ + " exceeds its "@ + decimal(maximum as nat) + "-byte bound"@),
{
    if value.as_str().len() > maximum {
        let mut message = concat3(subject, " exceeds its ", usize_text(maximum).as_str());
        push_str(&mut message, "-byte bound");
        return Err(ActionError::rejected(message));
    }
    Ok(value)
}


/// A message with each non-empty secret, in turn, replaced by `[REDACTED]`.
pub open spec fn spec_redact(message: Seq<char>, secrets: Seq<Seq<char>>) -> Seq<char>
    decreases secrets.len(),
{
    if secrets.len() == 0 {
        message
    } else {
        let before = spec_redact(message, secrets.drop_last());
        if secrets.last().len() == 0 {
            before
        } else {
            crate::release_record::replace_all(before, secrets.last(), "[REDACTED]"@)
        }
    }
}

/// A message with each non-empty secret replaced by `[REDACTED]`.
pub fn redact(message: &str, secrets: &Vec<String>) -> (r: String)
    ensures
        r@ == spec_redact(message@, crate::validation::strs_view(secrets@)),
{
    let ghost sv = crate::validation::strs_view(secrets@);
    let mut out = crate::text::owned(message);
    let mut i: usize = 0;
    while i < secrets.len()
        invariant
            i <= secrets@.len(),
            sv == crate::validation::strs_view(secrets@),
            out@ == spec_redact(message@, sv.take(i as int)),
        decreases secrets@.len() - i,
    {
        proof {
            assert(sv.take(i + 1).drop_last() =~= sv.take(i as int));
            assert(sv.take(i + 1).last() == secrets@[i as int]@);
        }
        if !secrets[i].as_str().is_empty() {
            out = crate::release_record::replace(out.as_str(), secrets[i].as_str(), "[REDACTED]");
        }
        i = i + 1;
    }
    proof {
        assert(sv.take(i as int) =~= sv);
    }
    out
}

/// The error annotation of a message: `::error::` and the escaped message, cut at a character
/// boundary within the diagnostic bound.
pub fn error_annotation(message: &str) -> (r: String)
    ensures
        exists|p: Seq<char>| #![trigger encode_utf8(p)]
            {
                let all = encode_utf8(spec_command_escape(message@));
                &&& r@ == "::error::"@ + p
                &&& text_len(spec_command_escape(message@)) <= MAX_DIAGNOSTIC_BYTES ==> p == spec_command_escape(
                    message@,
                )
                &&& text_len(spec_command_escape(message@)) > MAX_DIAGNOSTIC_BYTES ==> {
                    &&& encode_utf8(p) == all.take(encode_utf8(p).len() as int)
                    &&& encode_utf8(p).len() <= MAX_DIAGNOSTIC_BYTES
                    &&& is_char_boundary(all, encode_utf8(p).len() as int)
                    &&& forall|k: int| encode_utf8(p).len() < k <= MAX_DIAGNOSTIC_BYTES ==> !is_char_boundary(all, k)
                }
            },
{
    let escaped = command_escape(message);
    let escaped_str = escaped.as_str();
    let bounded = truncate_utf8(escaped_str, MAX_DIAGNOSTIC_BYTES);
    let r = crate::text::concat("::error::", bounded);
    proof {
        let all = encode_utf8(spec_command_escape(message@));
        let p = bounded@;
        assert(encode_utf8(p) == bounded.spec_bytes());
        assert(all == escaped_str.spec_bytes());
        assert(r@ == "::error::"@ + p);
    }
    r
}

/// Whether a name is a constant environment variable name: uppercase ASCII and underscores.
pub open spec fn constant_name(name: Seq<char>) -> bool {
    forall|i: int| 0 <= i < name.len() ==> ('A' <= #[trigger] name[i] && name[i] <= 'Z') || name[i] == '_'
}

/// One variable a step exports: its name, its path's text when that is UTF-8, and whether the
/// path is absolute.
pub struct EnvironmentValue {
    pub name: String,
    pub path: Option<String>,
    pub absolute: bool,
}

/// The environment-file lines exporting the first `n` values, or the refusal of the first invalid
/// one.
pub open spec fn environment_outcome(values: Seq<EnvironmentValue>, n: nat) -> Result<Seq<char>, Seq<char>>
    decreases n,
{
    if n == 0 || n > values.len() {
        Ok(Seq::empty())
    } else {
        match environment_outcome(values, (n - 1) as nat) {
            Err(m) => Err(m),
            Ok(payload) => {
                let v = values[n - 1];
                match v.path {
                    None => Err("report environment path is invalid"@),
                    Some(p) => if crate::text::has_char(p@, '\r') || crate::text::has_char(p@, '\n') {
                        Err("report environment path is invalid"@)
                    } else if !v.absolute || !constant_name(v.name@) {
                        Err("report environment must use an absolute path and a constant variable name"@)
                    } else {
                        Ok(payload + v.name@ + "="@ + p@ + "\n"@)
                    },
                }
            },
        }
    }
}

proof fn lemma_environment_stays(values: Seq<EnvironmentValue>, k: nat, m: nat)
    requires
        k <= m <= values.len(),
        environment_outcome(values, k) is Err,
    ensures
        environment_outcome(values, m) == environment_outcome(values, k),
    decreases m,
{
    if m > k {
        lemma_environment_stays(values, k, (m - 1) as nat);
    }
}

fn constant_name_exec(name: &str) -> (r: bool)
    ensures
        r == constant_name(name@),
{
    let chars = chars_of(name);
    let mut i: usize = 0;
    while i < chars.len()
        invariant
            i <= chars@.len(),
            chars@ == name@,
            forall|k: int| 0 <= k < i ==> ('A' <= #[trigger] chars@[k] && chars@[k] <= 'Z') || chars@[k] == '_',
        decreases chars@.len() - i,
    {
        let c = chars[i];
        if !(('A' <= c && c <= 'Z') || c == '_') {
            return false;
        }
        i = i + 1;
    }
    true
}

/// The environment-file lines that export each path under its name.
pub fn environment_payload(values: &Vec<EnvironmentValue>) -> (r: Result<String, ActionError>)
    ensures
        match environment_outcome(values@, values@.len() as nat) {
            Ok(p) => r matches Ok(s) && s@ == p,
            Err(m) => r matches Err(e) && e.kind == ErrorKind::Rejected && e.message@ == m,
        },
{
    let mut payload = String::new();
    let mut i: usize = 0;
    while i < values.len()
        invariant
            i <= values@.len(),
            environment_outcome(values@, i as nat) == Ok::<Seq<char>, Seq<char>>(payload@),
        decreases values@.len() - i,
    {
        let v = &values[i];
        let text = match &v.path {
            Some(p) => {
                let chars = chars_of(p.as_str());
                if crate::text::contains_char(&chars, '\r') || crate::text::contains_char(&chars, '\n') {
                    proof {
                        lemma_environment_stays(values@, (i + 1) as nat, values@.len() as nat);
                    }
                    return Err(crate::error::rejection("report environment path is invalid"));
                }
                p.as_str()
            },
            None => {
                proof {
                    lemma_environment_stays(values@, (i + 1) as nat, values@.len() as nat);
                }
                return Err(crate::error::rejection("report environment path is invalid"));
            },
        };
        if !v.absolute || !constant_name_exec(v.name.as_str()) {
            proof {
                lemma_environment_stays(values@, (i + 1) as nat, values@.len() as nat);
            }
            return Err(
                crate::error::rejection("report environment must use an absolute path and a constant variable name"),
            );
        }
        push_str(&mut payload, v.name.as_str());
        push_str(&mut payload, "=");
        push_str(&mut payload, text);
        push_str(&mut payload, "\n");
        proof {
            assert(payload@ =~= environment_outcome(values@, i as nat)->Ok_0 + v.name@ + "="@ + text@ + "\n"@);
        }
        i = i + 1;
    }
    Ok(payload)
}

/// The `Debug` text of a string, as `format!("{:?}", s)` writes it.
pub uninterp spec fn debug_quoted(s: Seq<char>) -> Seq<char>;

/// Calls `format!("{:?}", s)`; trusted to depend on the text alone, which `debug_quoted` names.
#[verifier::external_body]
fn debug_text(s: &str) -> (r: String)
    ensures
        r@ == debug_quoted(s@),
{
    format!("{s:?}")
}

/// A directory published on `PATH`: its UTF-8 text when it has one, how it displays, and whether
/// it is absolute.
pub struct PublishedPath {
    pub text: Option<String>,
    pub display: String,
    pub absolute: bool,
}

/// The `PATH` lines of the first `n` directories, or the refusal of the first invalid one.
pub open spec fn path_payload(paths: Seq<PublishedPath>, n: nat) -> Result<Seq<char>, Seq<char>>
    decreases n,
{
    if n == 0 || n > paths.len() {
        Ok(Seq::empty())
    } else {
        match path_payload(paths, (n - 1) as nat) {
            Err(m) => Err(m),
            Ok(payload) => {
                let p = paths[n - 1];
                if !p.absolute {
                    Err("PATH publication must use an absolute directory: "@ + p.display@)
                } else {
                    match p.text {
                        None => Err("PATH publication contains non-UTF-8 data"@),
                        Some(t) => if crate::text::has_char(t@, '\r') || crate::text::has_char(t@, '\n') {
                            Err("PATH publication contains a line break"@)
                        } else {
                            Ok(payload + t@ + "\n"@)
                        },
                    }
                }
            },
        }
    }
}

/// A GitHub output name: lowercase ASCII letters, digits and hyphens, at least one.
pub open spec fn output_name_ok(name: Seq<char>) -> bool {
    name.len() > 0 && forall|i: int| 0 <= i < name.len() ==> ('a' <= #[trigger] name[i] && name[i] <= 'z') || (
    '0' <= name[i] && name[i] <= '9') || name[i] == '-'
}

/// The output lines of the first `n` outputs, or the refusal of the first invalid one.
pub open spec fn output_payload(outputs: Seq<(String, String)>, n: nat) -> Result<Seq<char>, Seq<char>>
    decreases n,
{
    if n == 0 || n > outputs.len() {
        Ok(Seq::empty())
    } else {
        match output_payload(outputs, (n - 1) as nat) {
            Err(m) => Err(m),
            Ok(payload) => {
                let (name, value) = (outputs[n - 1].0@, outputs[n - 1].1@);
                if !output_name_ok(name) {
                    Err("invalid GitHub output name "@ + debug_quoted(name))
                } else if crate::text::has_char(value, '\r') || crate::text::has_char(value, '\n') {
                    Err("GitHub output "@ + name + " must be single-line"@)
                } else if text_len(value) > MAX_OUTPUT_BYTES {
                    Err("GitHub output "@ + name + " exceeds the 256 KiB value bound"@)
                } else {
                    Ok(payload + name + "="@ + value + "\n"@)
                }
            },
        }
    }
}

/// What a publication writes: the bounded summary, the `PATH` lines and the output lines.
pub struct Payloads {
    pub summary: Option<String>,
    pub paths: String,
    pub outputs: String,
}

proof fn lemma_path_payload_stays(paths: Seq<PublishedPath>, k: nat, m: nat)
    requires
        k <= m <= paths.len(),
        path_payload(paths, k) is Err,
    ensures
        path_payload(paths, m) == path_payload(paths, k),
    decreases m,
{
    if m > k {
        lemma_path_payload_stays(paths, k, (m - 1) as nat);
    }
}

proof fn lemma_output_payload_stays(outputs: Seq<(String, String)>, k: nat, m: nat)
    requires
        k <= m <= outputs.len(),
        output_payload(outputs, k) is Err,
    ensures
        output_payload(outputs, m) == output_payload(outputs, k),
    decreases m,
{
    if m > k {
        lemma_output_payload_stays(outputs, k, (m - 1) as nat);
    }
}

fn output_name_valid(name: &str) -> (r: bool)
    ensures
        r == output_name_ok(name@),
{
    let chars = chars_of(name);
    if chars.len() == 0 {
        return false;
    }
    let mut i: usize = 0;
    while i < chars.len()
        invariant
            i <= chars@.len(),
            chars@ == name@,
            forall|k: int| 0 <= k < i ==> ('a' <= #[trigger] chars@[k] && chars@[k] <= 'z') || ('0' <= chars@[k]
                && chars@[k] <= '9') || chars@[k] == '-',
        decreases chars@.len() - i,
    {
        let c = chars[i];
        if !(('a' <= c && c <= 'z') || ('0' <= c && c <= '9') || c == '-') {
            return false;
        }
        i = i + 1;
    }
    true
}

fn paths_text(paths: &Vec<PublishedPath>) -> (r: Result<String, ActionError>)
    ensures
        match path_payload(paths@, paths@.len() as nat) {
            Ok(p) => r matches Ok(s) && s@ == p,
            Err(m) => r matches Err(e) && e.kind == ErrorKind::Rejected && e.message@ == m,
        },
{
    let mut payload = String::new();
    let mut i: usize = 0;
    while i < paths.len()
        invariant
            i <= paths@.len(),
            path_payload(paths@, i as nat) == Ok::<Seq<char>, Seq<char>>(payload@),
        decreases paths@.len() - i,
    {
        let p = &paths[i];
        if !p.absolute {
            proof {
                lemma_path_payload_stays(paths@, (i + 1) as nat, paths@.len() as nat);
            }
            return Err(ActionError::rejected(crate::text::concat(
                "PATH publication must use an absolute directory: ",
                p.display.as_str(),
            )));
        }
        let text = match &p.text {
            Some(t) => t.as_str(),
            None => {
                proof {
                    lemma_path_payload_stays(paths@, (i + 1) as nat, paths@.len() as nat);
                }
                return Err(crate::error::rejection("PATH publication contains non-UTF-8 data"));
            },
        };
        let chars = chars_of(text);
        if crate::text::contains_char(&chars, '\r') || crate::text::contains_char(&chars, '\n') {
            proof {
                lemma_path_payload_stays(paths@, (i + 1) as nat, paths@.len() as nat);
            }
            return Err(crate::error::rejection("PATH publication contains a line break"));
        }
        push_str(&mut payload, text);
        push_str(&mut payload, "\n");
        i = i + 1;
    }
    Ok(payload)
}

fn outputs_text(outputs: &Vec<(String, String)>) -> (r: Result<String, ActionError>)
    ensures
        match output_payload(outputs@, outputs@.len() as nat) {
            Ok(p) => r matches Ok(s) && s@ == p,
            Err(m) => r matches Err(e) && e.kind == ErrorKind::Rejected && e.message@ == m,
        },
{
    let mut payload = String::new();
    let mut i: usize = 0;
    while i < outputs.len()
        invariant
            i <= outputs@.len(),
            output_payload(outputs@, i as nat) == Ok::<Seq<char>, Seq<char>>(payload@),
        decreases outputs@.len() - i,
    {
        let name = outputs[i].0.as_str();
        let value = outputs[i].1.as_str();
        if !output_name_valid(name) {
            proof {
                lemma_output_payload_stays(outputs@, (i + 1) as nat, outputs@.len() as nat);
            }
            let quoted = debug_text(name);
            return Err(ActionError::rejected(crate::text::concat("invalid GitHub output name ", quoted.as_str())));
        }
        let chars = chars_of(value);
        if crate::text::contains_char(&chars, '\r') || crate::text::contains_char(&chars, '\n') {
            proof {
                lemma_output_payload_stays(outputs@, (i + 1) as nat, outputs@.len() as nat);
            }
            return Err(ActionError::rejected(concat3("GitHub output ", name, " must be single-line")));
        }
        if value.len() > MAX_OUTPUT_BYTES {
            proof {
                lemma_output_payload_stays(outputs@, (i + 1) as nat, outputs@.len() as nat);
            }
            return Err(ActionError::rejected(concat3("GitHub output ", name, " exceeds the 256 KiB value bound")));
        }
        push_str(&mut payload, name);
        push_str(&mut payload, "=");
        push_str(&mut payload, value);
        push_str(&mut payload, "\n");
        i = i + 1;
    }
    Ok(payload)
}

/// What a publication writes: the summary within its bound, the `PATH` lines of absolute UTF-8
/// single-line directories, and the lines of outputs with valid names and bounded single-line
/// values; or the refusal of the first invalid part, in that order.
pub fn publication_payloads(summary: Option<String>, paths: &Vec<PublishedPath>, outputs: &Vec<(String, String)>) -> (r: Result<
    Payloads,
    ActionError,
>)
    ensures
        r matches Err(e) ==> e.kind == ErrorKind::Rejected,
        match summary {
            Some(s) => text_len(s@) > MAX_SUMMARY_BYTES ==> (r matches Err(e) && e.message@ == "GitHub summary"@ + " exceeds its "@
                + decimal(MAX_SUMMARY_BYTES as nat) + "-byte bound"@),
            None => true,
        },
        (match summary {
            Some(s) => text_len(s@) <= MAX_SUMMARY_BYTES,
            None => true,
        }) ==> match path_payload(paths@, paths@.len() as nat) {
            Err(m) => r matches Err(e) && e.message@ == m,
            Ok(pp) => match output_payload(outputs@, outputs@.len() as nat) {
                Err(m) => r matches Err(e) && e.message@ == m,
                Ok(op) => r matches Ok(p) && p.paths@ == pp && p.outputs@ == op && match summary {
                    Some(s) => p.summary matches Some(t) && t@ == s@,
                    None => p.summary is None,
                },
            },
        },
{
    let bounded = match summary {
        Some(s) => match bounded_text(s, MAX_SUMMARY_BYTES, "GitHub summary") {
            Ok(t) => Some(t),
            Err(e) => {
                return Err(e);
            },
        },
        None => None,
    };
    let path_lines = match paths_text(paths) {
        Ok(t) => t,
        Err(e) => {
            return Err(e);
        },
    };
    let output_lines = match outputs_text(outputs) {
        Ok(t) => t,
        Err(e) => {
            return Err(e);
        },
    };
    Ok(Payloads { summary: bounded, paths: path_lines, outputs: output_lines })
}

/// The failure of writing a publication; once a write was attempted, it says that part of it may
/// remain but grants no authority.
pub fn publication_failure(error: &str, attempted_any: bool) -> (e: ActionError)
    ensures
        e.kind == ErrorKind::Operational,
        e.message@ == "cannot publish GitHub action result: "@ + error@ + if attempted_any {
            "; a partial summary or environment-file write may remain, but no output from this failed step is valid authority"@
        } else {
            ""@
        },
{
    let mut message = crate::text::concat("cannot publish GitHub action result: ", error);
    if attempted_any {
        push_str(
            &mut message,
            "; a partial summary or environment-file write may remain, but no output from this failed step is valid authority",
        );
    } else {
        proof {
            reveal_strlit("");
            assert(message@ =~= message@ + ""@);
        }
    }
    ActionError::operational(message)
}

/// A character that can open or close inline Markdown structure, or break the line.
pub open spec fn markdown_structural(c: char) -> bool {
    c == '<' || c == '>' || c == '|' || c == '`' || c == '\\' || c == '*' || c == '_' || c == '[' || c == ']'
        || c == '~' || c == '\r' || c == '\n'
}

proof fn lemma_markdown_char_flat(c: char)
    ensures
        forall|i: int| 0 <= i < markdown_char(c).len() ==> !markdown_structural(#[trigger] markdown_char(c)[i]),
{
    reveal_strlit("&amp;");
    reveal_strlit("&lt;");
    reveal_strlit("&gt;");
    reveal_strlit("&#124;");
    reveal_strlit("&#96;");
    reveal_strlit("&#92;");
    reveal_strlit("&#42;");
    reveal_strlit("&#95;");
    reveal_strlit("&#91;");
    reveal_strlit("&#93;");
    reveal_strlit("&#126;");
}

/// Escaped inline Markdown holds no character that opens structure or breaks the line, whatever
/// the text.
pub proof fn law_markdown_inline_is_flat(s: Seq<char>)
    ensures
        forall|i: int| 0 <= i < spec_markdown_inline(s).len() ==> !markdown_structural(
            #[trigger] spec_markdown_inline(s)[i],
        ),
    decreases s.len(),
{
    if s.len() > 0 {
        law_markdown_inline_is_flat(s.drop_last());
        lemma_markdown_char_flat(s.last());
        let prev = spec_markdown_inline(s.drop_last());
        let tail = markdown_char(s.last());
        assert forall|i: int| 0 <= i < spec_markdown_inline(s).len() implies !markdown_structural(
            #[trigger] spec_markdown_inline(s)[i],
        ) by {
            if i < prev.len() {
                assert(spec_markdown_inline(s)[i] == prev[i]);
            } else {
                assert(spec_markdown_inline(s)[i] == tail[i - prev.len()]);
            }
        }
    }
}

/// An escaped workflow-command value holds no line break, so an annotation stays one line.
pub proof fn law_command_escape_is_one_line(s: Seq<char>)
    ensures
        forall|i: int| 0 <= i < spec_command_escape(s).len() ==> #[trigger] spec_command_escape(s)[i] != '\r'
            && spec_command_escape(s)[i] != '\n',
    decreases s.len(),
{
    if s.len() > 0 {
        law_command_escape_is_one_line(s.drop_last());
        reveal_strlit("%25");
        reveal_strlit("%0D");
        reveal_strlit("%0A");
        let prev = spec_command_escape(s.drop_last());
        let tail = command_char(s.last());
        assert forall|i: int| 0 <= i < spec_command_escape(s).len() implies #[trigger] spec_command_escape(s)[i]
            != '\r' && spec_command_escape(s)[i] != '\n' by {
            if i < prev.len() {
                assert(spec_command_escape(s)[i] == prev[i]);
            } else {
                assert(spec_command_escape(s)[i] == tail[i - prev.len()]);
            }
        }
    }
}
} // verus!
