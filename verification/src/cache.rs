use vstd::prelude::*;

use crate::error::{ActionError, ErrorKind, rejection};
use crate::text::{
    chars_of, push_str, concat, concat3, u64_text, decimal, text_len, has_char, contains_char,
    is_ascii_digit, starts_with, sub_chars, strip_prefix, all_lower_hex, lower_hex_only, chars_are,
    is_lower_hex,
};
use crate::repository::digits_value;

verus! {

/// The provider, authority, mode and activation of Cargo-Rail's remote cache.
#[derive(Debug)]
pub struct RemoteState {
    pub provider: String,
    pub authority: String,
    pub mode: String,
    pub activation: String,
}

/// Fails with a rejection carrying `message` when `condition` is false.
pub fn require(condition: bool, message: String) -> (r: Result<(), ActionError>)
    ensures
        r is Ok <==> condition,
        r matches Err(e) ==> e.kind == ErrorKind::Rejected && e.message@ == message@,
{
    if condition {
        Ok(())
    } else {
        Err(ActionError::rejected(message))
    }
}

/// Two observations of the remote cache name the same provider, authority, mode and activation.
pub fn require_remote_match(left: &RemoteState, right: &RemoteState, subject: &str) -> (r: Result<(), ActionError>)
    ensures
        r is Ok <==> (left.provider@ == right.provider@ && left.authority@ == right.authority@
            && left.mode@ == right.mode@ && left.activation@ == right.activation@),
        r matches Err(e) ==> e.kind == ErrorKind::Rejected && e.message@ == subject@
            + " disagree on provider, authority, mode, or activation"@,
{
    require(
        left.provider == right.provider && left.authority == right.authority && left.mode == right.mode
            && left.activation == right.activation,
        concat(subject, " disagree on provider, authority, mode, or activation"),
    )
}

/// The display name of a supported remote cache provider.
pub open spec fn spec_provider_display(provider: Seq<char>) -> Seq<char> {
    if provider == "aws-s3"@ {
        "AWS S3"@
    } else if provider == "azure-blob"@ {
        "Azure Blob Storage"@
    } else if provider == "cloudflare-r2"@ {
        "Cloudflare R2"@
    } else if provider == "s3-compatible"@ {
        "S3-compatible"@
    } else {
        "Unsupported provider"@
    }
}

/// The display name of a remote cache provider.
pub fn provider_display(provider: &str) -> (name: &'static str)
    ensures
        name@ == spec_provider_display(provider@),
{
    let p = chars_of(provider);
    if chars_are(&p, "aws-s3") {
        "AWS S3"
    } else if chars_are(&p, "azure-blob") {
        "Azure Blob Storage"
    } else if chars_are(&p, "cloudflare-r2") {
        "Cloudflare R2"
    } else if chars_are(&p, "s3-compatible") {
        "S3-compatible"
    } else {
        "Unsupported provider"
    }
}

pub const KIB: u64 = 1024;
pub const MIB: u64 = 1048576;
pub const GIB: u64 = 1073741824;
pub const TIB: u64 = 1099511627776;

/// A byte count in the largest binary unit that divides it exactly.
pub open spec fn spec_human_bytes(value: u64) -> Seq<char> {
    if value >= TIB && value % TIB == 0 {
        decimal((value / TIB) as nat) + " TiB"@
    } else if value >= GIB && value % GIB == 0 {
        decimal((value / GIB) as nat) + " GiB"@
    } else if value >= MIB && value % MIB == 0 {
        decimal((value / MIB) as nat) + " MiB"@
    } else if value >= KIB && value % KIB == 0 {
        decimal((value / KIB) as nat) + " KiB"@
    } else {
        decimal(value as nat) + " B"@
    }
}

/// An exact human-readable byte count, such as `10 GiB`.
pub fn human_bytes(value: u64) -> (text: String)
    ensures
        text@ == spec_human_bytes(value),
{
    let (quantity, unit) = if value >= TIB && value % TIB == 0 {
        (value / TIB, " TiB")
    } else if value >= GIB && value % GIB == 0 {
        (value / GIB, " GiB")
    } else if value >= MIB && value % MIB == 0 {
        (value / MIB, " MiB")
    } else if value >= KIB && value % KIB == 0 {
        (value / KIB, " KiB")
    } else {
        (value, " B")
    };
    let mut text = u64_text(quantity);
    push_str(&mut text, unit);
    text
}

/// `remote-authority-v1-sha256-` followed by 64 lowercase hexadecimal digits.
pub open spec fn spec_valid_authority(value: Seq<char>) -> bool {
    let prefix = "remote-authority-v1-sha256-"@;
    &&& starts_with(value, prefix)
    &&& value.skip(prefix.len() as int).len() == 64
    &&& all_lower_hex(value.skip(prefix.len() as int))
}

/// Whether `value` is a redacted remote cache authority.
pub fn valid_authority(value: &str) -> (r: bool)
    ensures
        r == spec_valid_authority(value@),
{
    let chars = chars_of(value);
    match strip_prefix(&chars, "remote-authority-v1-sha256-") {
        Some(digest) => digest.len() == 64 && lower_hex_only(&digest),
        None => false,
    }
}

/// The operational failure reported for anything that fails once cache setup has been applied.
pub fn after_setup(error: ActionError, operation: &str) -> (e: ActionError)
    ensures
        e.kind == ErrorKind::Operational,
        e.message@ == operation@ + " failed after cache setup: "@ + error.message@
            + "; the verified local installation remains and rerunning the action is idempotent"@,
{
    let mut message = concat3(operation, " failed after cache setup: ", error.message.as_str());
    push_str(
        &mut message,
        "; the verified local installation remains and rerunning the action is idempotent",
    );
    ActionError::operational(message)
}

/// The number of leading decimal digits of `s`.
pub open spec fn digit_prefix_len(s: Seq<char>) -> nat
    decreases s.len(),
{
    if s.len() > 0 && is_ascii_digit(s[0]) {
        1 + digit_prefix_len(s.drop_first())
    } else {
        0
    }
}

/// The multiplier of a size unit, when it is one of the five accepted units.
pub open spec fn unit_multiplier(unit: Seq<char>) -> Option<u64> {
    if unit == "B"@ {
        Some(1)
    } else if unit == "KiB"@ {
        Some(KIB)
    } else if unit == "MiB"@ {
        Some(MIB)
    } else if unit == "GiB"@ {
        Some(GIB)
    } else if unit == "TiB"@ {
        Some(TIB)
    } else {
        None
    }
}

/// What `parse_cache_size` returns for `value`: the byte count, or the message of its rejection.
pub open spec fn spec_parse_cache_size(value: Seq<char>) -> Result<u64, Seq<char>> {
    let split = digit_prefix_len(value);
    let number = value.take(split as int);
    let unit = value.skip(split as int);
    if text_len(value) > 64 || has_char(value, '\r') || has_char(value, '\n') {
        Err("max-size must be one bounded value"@)
    } else if split == value.len() {
        Err("max-size requires B, KiB, MiB, GiB, or TiB"@)
    } else if number.len() == 0 || (number[0] == '0' && number != seq!['0']) {
        Err("max-size must contain a canonical positive integer"@)
    } else if digits_value(number) > u64::MAX {
        Err("max-size integer is invalid or overflowing"@)
    } else {
        match unit_multiplier(unit) {
            None => Err("max-size unit must be B, KiB, MiB, GiB, or TiB"@),
            Some(multiplier) => {
                let bytes = digits_value(number) * multiplier;
                if bytes > 0 && bytes <= u64::MAX && bytes <= usize::MAX {
                    Ok(bytes as u64)
                } else {
                    Err("max-size must be positive and fit this platform"@)
                }
            },
        }
    }
}

proof fn lemma_digit_prefix(s: Seq<char>, i: int)
    requires
        0 <= i <= s.len(),
        forall|j: int| 0 <= j < i ==> is_ascii_digit(#[trigger] s[j]),
        i == s.len() || !is_ascii_digit(s[i]),
    ensures
        digit_prefix_len(s) == i,
    decreases i,
{
    if i > 0 {
        lemma_digit_prefix(s.drop_first(), i - 1);
    }
}

proof fn lemma_digits_value_bound(s: Seq<char>, n: int)
    requires
        0 <= n <= s.len(),
        forall|j: int| 0 <= j < s.len() ==> is_ascii_digit(#[trigger] s[j]),
    ensures
        digits_value(s.take(n)) <= digits_value(s),
    decreases s.len() - n,
{
    if n < s.len() {
        lemma_digits_value_bound(s, n + 1);
        assert(s.take(n + 1).drop_last() == s.take(n));
    } else {
        assert(s.take(n) == s);
    }
}

/// Parses a cache bound such as `10GiB` into bytes, as Cargo-Rail's `--max-size` does.
pub fn parse_cache_size(value: &str) -> (r: Result<u64, ActionError>)
    ensures
        r matches Ok(bytes) ==> spec_parse_cache_size(value@) == Ok::<u64, Seq<char>>(bytes),
        r matches Err(e) ==> e.kind == ErrorKind::Rejected
            && spec_parse_cache_size(value@) == Err::<u64, Seq<char>>(e.message@),
{
    let chars = chars_of(value);
    if value.len() > 64 || contains_char(&chars, '\r') || contains_char(&chars, '\n') {
        return Err(rejection("max-size must be one bounded value"));
    }
    let mut split: usize = 0;
    while split < chars.len() && '0' <= chars[split] && chars[split] <= '9'
        invariant
            split <= chars@.len(),
            forall|j: int| 0 <= j < split ==> is_ascii_digit(#[trigger] chars@[j]),
        decreases chars@.len() - split,
    {
        split = split + 1;
    }
    proof {
        lemma_digit_prefix(value@, split as int);
    }
    if split == chars.len() {
        return Err(rejection("max-size requires B, KiB, MiB, GiB, or TiB"));
    }
    let number = sub_chars(&chars, 0, split);
    let unit = sub_chars(&chars, split, chars.len());
    proof {
        assert(number@ == value@.take(split as int));
        assert(unit@ == value@.skip(split as int));
        reveal_strlit("0");
    }
    if split == 0 || (number[0] == '0' && split != 1) {
        proof {
            if number@.len() == 1 {
                assert(number@ == seq!['0']);
            }
        }
        return Err(rejection("max-size must contain a canonical positive integer"));
    }
    proof {
        if number@[0] == '0' {
            assert(number@ =~= seq!['0']);
        }
    }
    let mut parsed: u64 = 0;
    let mut i: usize = 0;
    while i < split
        invariant
            i <= split == number@.len(),
            forall|j: int| 0 <= j < number@.len() ==> is_ascii_digit(#[trigger] number@[j]),
            number@ == value@.take(split as int),
            split == digit_prefix_len(value@),
            split < value@.len(),
            text_len(value@) <= 64,
            !has_char(value@, '\r'),
            !has_char(value@, '\n'),
            number@.len() > 0,
            number@[0] == '0' ==> number@ == seq!['0'],
            parsed == digits_value(number@.take(i as int)),
        decreases split - i,
    {
        proof {
            assert(number@.take(i + 1).drop_last() == number@.take(i as int));
            assert(number@.take(i + 1).last() == number@[i as int]);
        }
        let d = ((number[i] as u32) - 48) as u64;
        match parsed.checked_mul(10) {
            Some(scaled) => match scaled.checked_add(d) {
                Some(next) => {
                    parsed = next;
                },
                None => {
                    proof {
                        lemma_digits_value_bound(number@, i + 1);
                    }
                    return Err(rejection("max-size integer is invalid or overflowing"));
                },
            },
            None => {
                proof {
                    lemma_digits_value_bound(number@, i + 1);
                }
                return Err(rejection("max-size integer is invalid or overflowing"));
            },
        }
        i = i + 1;
    }
    proof {
        assert(number@.take(split as int) == number@);
    }
    let multiplier: u64 = if chars_are(&unit, "B") {
        1
    } else if chars_are(&unit, "KiB") {
        KIB
    } else if chars_are(&unit, "MiB") {
        MIB
    } else if chars_are(&unit, "GiB") {
        GIB
    } else if chars_are(&unit, "TiB") {
        TIB
    } else {
        return Err(rejection("max-size unit must be B, KiB, MiB, GiB, or TiB"));
    };
    match parsed.checked_mul(multiplier) {
        Some(bytes) => {
            if bytes > 0 && (bytes as u128) <= (usize::MAX as u128) {
                Ok(bytes)
            } else {
                Err(rejection("max-size must be positive and fit this platform"))
            }
        },
        None => Err(rejection("max-size must be positive and fit this platform")),
    }
}


/// The quantity and unit (without the space between them) that `human_bytes` writes.
pub open spec fn human_parts(value: u64) -> (nat, Seq<char>) {
    if value >= TIB && value % TIB == 0 {
        ((value / TIB) as nat, "TiB"@)
    } else if value >= GIB && value % GIB == 0 {
        ((value / GIB) as nat, "GiB"@)
    } else if value >= MIB && value % MIB == 0 {
        ((value / MIB) as nat, "MiB"@)
    } else if value >= KIB && value % KIB == 0 {
        ((value / KIB) as nat, "KiB"@)
    } else {
        (value as nat, "B"@)
    }
}

/// The text `human_bytes` writes without the space between quantity and unit.
pub open spec fn human_compact(value: u64) -> Seq<char> {
    decimal(human_parts(value).0) + human_parts(value).1
}

/// Ten to the power `k`.
pub open spec fn ten_pow(k: nat) -> nat
    decreases k,
{
    if k == 0 {
        1
    } else {
        10 * ten_pow((k - 1) as nat)
    }
}

/// A number below ten to the power `k` has at most `k` decimal digits.
proof fn lemma_decimal_len(n: nat, k: nat)
    requires
        1 <= k,
        n < ten_pow(k),
    ensures
        decimal(n).len() <= k,
    decreases k,
{
    if n >= 10 {
        if k == 1 {
            assert(ten_pow(1) == 10 * ten_pow(0));
        } else {
            assert(ten_pow(k) == 10 * ten_pow((k - 1) as nat));
            assert(n / 10 < ten_pow((k - 1) as nat));
            lemma_decimal_len(n / 10, (k - 1) as nat);
        }
    }
}

/// A text of canonical digits followed by a unit parses to their product.
proof fn lemma_parse_exact(s: Seq<char>, d: Seq<char>, unit: Seq<char>, mult: u64, value: u64)
    requires
        s == d + unit,
        digit_prefix_len(s) == d.len(),
        d.len() >= 1,
        d[0] != '0',
        digits_value(d) * mult == value,
        unit_multiplier(unit) == Some(mult),
        text_len(s) <= 64,
        !has_char(s, '\r'),
        !has_char(s, '\n'),
        0 < value <= usize::MAX,
        unit.len() >= 1,
    ensures
        spec_parse_cache_size(s) == Ok::<u64, Seq<char>>(value),
{
    assert(s.take(d.len() as int) =~= d);
    assert(s.skip(d.len() as int) =~= unit);
    assert(digits_value(d) <= value);
}

/// The text `human_bytes` writes is its quantity and unit with one space between them.
proof fn lemma_human_text(value: u64)
    ensures
        spec_human_bytes(value) == decimal(human_parts(value).0) + " "@ + human_parts(value).1,
{
    reveal_strlit(" ");
    reveal_strlit("B");
    reveal_strlit("KiB");
    reveal_strlit("MiB");
    reveal_strlit("GiB");
    reveal_strlit("TiB");
    reveal_strlit(" B");
    reveal_strlit(" KiB");
    reveal_strlit(" MiB");
    reveal_strlit(" GiB");
    reveal_strlit(" TiB");
    assert(spec_human_bytes(value) =~= decimal(human_parts(value).0) + " "@ + human_parts(value).1);
}

/// The quantity and unit of a positive size, without a space, parse back to the size.
#[verifier::rlimit(60)]
proof fn lemma_human_parse(value: u64)
    requires
        0 < value <= usize::MAX,
    ensures
        spec_parse_cache_size(human_compact(value)) == Ok::<u64, Seq<char>>(value),
{
    reveal_strlit("B");
    reveal_strlit("KiB");
    reveal_strlit("MiB");
    reveal_strlit("GiB");
    reveal_strlit("TiB");
    let q = human_parts(value).0;
    let unit = human_parts(value).1;
    let d = decimal(q);
    crate::text::lemma_decimal_digits(q);
    assert(ten_pow(20) == 100000000000000000000nat) by {
        reveal_with_fuel(ten_pow, 21);
    }
    lemma_decimal_len(q, 20);
    let s = d + unit;
    assert(unit.len() >= 1 && unit.len() <= 3);
    assert(!is_ascii_digit(unit[0]));
    assert forall|j: int| 0 <= j < d.len() implies is_ascii_digit(#[trigger] s[j]) by {
        assert(s[j] == d[j]);
    }
    assert(s[d.len() as int] == unit[0]);
    lemma_digit_prefix(s, d.len() as int);
    assert forall|i: int| 0 <= i < s.len() implies '\0' <= #[trigger] s[i] <= '\u{7f}' && s[i] != '\r' && s[i] != '\n' by {
        if i < d.len() {
            assert(s[i] == d[i]);
            assert(is_ascii_digit(d[i]));
        } else {
            assert(s[i] == unit[i - d.len()]);
        }
    }
    vstd::utf8::is_ascii_chars_encode_utf8(s);
    assert(text_len(s) <= 64);
    assert(!has_char(s, '\r'));
    assert(!has_char(s, '\n'));
    let mult: u64 = if value >= TIB && value % TIB == 0 {
        TIB
    } else if value >= GIB && value % GIB == 0 {
        GIB
    } else if value >= MIB && value % MIB == 0 {
        MIB
    } else if value >= KIB && value % KIB == 0 {
        KIB
    } else {
        1
    };
    assert(unit_multiplier(unit) == Some(mult));
    assert(digits_value(d) == q);
    assert(value % mult == 0 && q == value / mult);
    assert(q * mult == value) by (nonlinear_arith)
        requires
            value % mult == 0,
            q == value / mult,
            mult > 0,
    ;
    lemma_parse_exact(s, d, unit, mult, value);
    assert(s == human_compact(value));
}

/// Law: the size that `human_bytes` writes is its quantity and unit with one space between them,
/// and that text without the space, read as a `max-size` input, gives back the same number of
/// bytes: no size the Action reports loses bytes.
pub proof fn law_human_bytes_parse_back(value: u64)
    requires
        0 < value <= usize::MAX,
    ensures
        spec_human_bytes(value) == decimal(human_parts(value).0) + " "@ + human_parts(value).1,
        spec_parse_cache_size(human_compact(value)) == Ok::<u64, Seq<char>>(value),
{
    lemma_human_text(value);
    lemma_human_parse(value);
}

} // verus!
