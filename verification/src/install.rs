use vstd::prelude::*;
use vstd::utf8::{valid_utf8, decode_utf8};

use crate::error::{ActionError, ErrorKind, rejection};
use crate::text::{
    chars_of, push_str, push_char, concat, concat3, u64_text, decimal, has_char, contains_char,
    is_ascii_digit, starts_with, ends_with, sub_chars, string_of, chars_are, split_on, split_chars,
    spec_lines, lines_of, all_lower_hex, lower_hex_only, is_lower_hex,
};
use crate::repository::{digits_value, all_digits};

verus! {

/// The largest accepted component.
pub const MAX_COMPONENT_BYTES: u64 = 268435456;
/// The largest accepted component manifest or installation receipt.
pub const MAX_MANIFEST_BYTES: u64 = 65536;

/// The Cargo-Rail components that one Action installs.
#[derive(Debug, Clone, Copy, PartialEq, Eq, Structural)]
pub enum ComponentSet {
    Core,
    Cache,
    Surface,
    Complete,
}

/// The name of a component set.
pub open spec fn spec_component_name(set: ComponentSet) -> Seq<char> {
    match set {
        ComponentSet::Core => "core"@,
        ComponentSet::Cache => "cache"@,
        ComponentSet::Surface => "surface"@,
        ComponentSet::Complete => "complete"@,
    }
}

/// The capabilities that a component set installs.
pub open spec fn spec_accepts(set: ComponentSet, capability: Seq<char>) -> bool {
    match set {
        ComponentSet::Core => capability == "core"@,
        ComponentSet::Cache => capability == "core"@ || capability == "cache"@ || capability
            == "surface"@ || capability == "surface-source"@,
        ComponentSet::Surface => capability == "core"@ || capability == "analysis"@ || capability
            == "surface"@ || capability == "surface-source"@,
        ComponentSet::Complete => capability == "core"@ || capability == "analysis"@ || capability
            == "cache"@ || capability == "distributed"@ || capability == "surface"@ || capability
            == "surface-source"@,
    }
}

/// How many components of each capability a complete component set holds, by capability name.
pub open spec fn spec_required_counts(set: ComponentSet) -> Seq<(Seq<char>, usize)> {
    match set {
        ComponentSet::Core => seq![("core"@, 1usize)],
        ComponentSet::Cache => seq![
            ("cache"@, 2usize),
            ("core"@, 1usize),
            ("surface"@, 1usize),
            ("surface-source"@, 1usize),
        ],
        ComponentSet::Surface => seq![
            ("analysis"@, 1usize),
            ("core"@, 1usize),
            ("surface"@, 1usize),
            ("surface-source"@, 1usize),
        ],
        ComponentSet::Complete => seq![
            ("analysis"@, 1usize),
            ("cache"@, 2usize),
            ("core"@, 1usize),
            ("distributed"@, 1usize),
            ("surface"@, 1usize),
            ("surface-source"@, 1usize),
        ],
    }
}

impl ComponentSet {
    /// The component set that the planner input names.
    pub fn planner(value: &str) -> (r: Result<ComponentSet, ActionError>)
        ensures
            r matches Ok(set) ==> set != ComponentSet::Cache && spec_component_name(set) == value@,
            r is Err <==> (value@ != "core"@ && value@ != "surface"@ && value@ != "complete"@),
            r matches Err(e) ==> e.kind == ErrorKind::Rejected
                && e.message@ == "components must be core, surface, or complete"@,
    {
        let v = chars_of(value);
        if chars_are(&v, "core") {
            Ok(ComponentSet::Core)
        } else if chars_are(&v, "surface") {
            Ok(ComponentSet::Surface)
        } else if chars_are(&v, "complete") {
            Ok(ComponentSet::Complete)
        } else {
            Err(rejection("components must be core, surface, or complete"))
        }
    }

    /// The name of this component set.
    pub fn as_str(self) -> (name: &'static str)
        ensures
            name@ == spec_component_name(self),
    {
        match self {
            ComponentSet::Core => "core",
            ComponentSet::Cache => "cache",
            ComponentSet::Surface => "surface",
            ComponentSet::Complete => "complete",
        }
    }

    /// Whether planning with this set prepares Cargo-Rail Surface.
    pub fn needs_surface(self) -> (r: bool)
        ensures
            r == (self == ComponentSet::Surface || self == ComponentSet::Complete),
    {
        match self {
            ComponentSet::Surface | ComponentSet::Complete => true,
            _ => false,
        }
    }

    /// Whether this set installs components with the given capability.
    pub fn accepts(self, capability: &str) -> (r: bool)
        ensures
            r == spec_accepts(self, capability@),
    {
        let c = chars_of(capability);
        match self {
            ComponentSet::Core => chars_are(&c, "core"),
            ComponentSet::Cache => chars_are(&c, "core") || chars_are(&c, "cache") || chars_are(&c, "surface")
                || chars_are(&c, "surface-source"),
            ComponentSet::Surface => chars_are(&c, "core") || chars_are(&c, "analysis") || chars_are(
                &c,
                "surface",
            ) || chars_are(&c, "surface-source"),
            ComponentSet::Complete => chars_are(&c, "core") || chars_are(&c, "analysis") || chars_are(
                &c,
                "cache",
            ) || chars_are(&c, "distributed") || chars_are(&c, "surface") || chars_are(
                &c,
                "surface-source",
            ),
        }
    }

    /// The exact number of components of each capability this set requires, in capability order.
    pub fn required_counts(self) -> (counts: Vec<(&'static str, usize)>)
        ensures
            counts@.len() == spec_required_counts(self).len(),
            forall|i: int| 0 <= i < counts@.len() ==> (#[trigger] counts@[i]).0@ == spec_required_counts(self)[i].0
                && counts@[i].1 == spec_required_counts(self)[i].1,
    {
        match self {
            ComponentSet::Core => vec![("core", 1)],
            ComponentSet::Cache => vec![("cache", 2), ("core", 1), ("surface", 1), ("surface-source", 1)],
            ComponentSet::Surface => vec![
                ("analysis", 1),
                ("core", 1),
                ("surface", 1),
                ("surface-source", 1),
            ],
            ComponentSet::Complete => vec![
                ("analysis", 1),
                ("cache", 2),
                ("core", 1),
                ("distributed", 1),
                ("surface", 1),
                ("surface-source", 1),
            ],
        }
    }
}

/// One decimal component of a version: digits without a leading zero.
pub open spec fn canonical_number(part: Seq<char>) -> bool {
    part.len() > 0 && all_digits(part) && (part.len() == 1 || part[0] != '0')
}

/// An exact stable Cargo-Rail 0.26 patch release, such as `0.26.3`.
pub open spec fn spec_valid_cargo_rail_version(value: Seq<char>) -> bool {
    let parts = split_on(value, '.');
    &&& parts.len() == 3
    &&& canonical_number(parts[0]) && canonical_number(parts[1]) && canonical_number(parts[2])
    &&& parts[0] == seq!['0']
    &&& parts[1] == seq!['2', '6']
}

fn canonical_number_exec(part: &Vec<char>) -> (r: bool)
    ensures
        r == canonical_number(part@),
{
    if part.len() == 0 {
        return false;
    }
    let mut i: usize = 0;
    while i < part.len()
        invariant
            i <= part@.len(),
            forall|j: int| 0 <= j < i ==> is_ascii_digit(#[trigger] part@[j]),
        decreases part@.len() - i,
    {
        if part[i] < '0' || part[i] > '9' {
            return false;
        }
        i = i + 1;
    }
    part.len() == 1 || part[0] != '0'
}

/// Accepts only an exact stable Cargo-Rail 0.26 patch release.
pub fn validate_cargo_rail_version(value: &str) -> (r: Result<(), ActionError>)
    ensures
        r is Ok <==> spec_valid_cargo_rail_version(value@),
        r matches Err(e) ==> e.kind == ErrorKind::Rejected
            && e.message@ == "version must be an exact stable Cargo-Rail 0.26 patch release"@,
{
    let chars = chars_of(value);
    let parts = split_chars(&chars, '.');
    let valid = parts.len() == 3 && canonical_number_exec(&parts[0]) && canonical_number_exec(&parts[1])
        && canonical_number_exec(&parts[2]) && parts[0].len() == 1 && parts[0][0] == '0' && parts[1].len() == 2
        && parts[1][0] == '2' && parts[1][1] == '6';
    proof {
        if parts@.len() == 3 {
            if parts@[0]@ == seq!['0'] {
                assert(parts@[0]@[0] == '0');
            }
            if parts@[1]@ == seq!['2', '6'] {
                assert(parts@[1]@[0] == '2' && parts@[1]@[1] == '6');
            }
            if parts@[0]@.len() == 1 && parts@[0]@[0] == '0' {
                assert(parts@[0]@ =~= seq!['0']);
            }
            if parts@[1]@.len() == 2 && parts@[1]@[0] == '2' && parts@[1]@[1] == '6' {
                assert(parts@[1]@ =~= seq!['2', '6']);
            }
        }
    }
    if !valid {
        return Err(rejection("version must be an exact stable Cargo-Rail 0.26 patch release"));
    }
    Ok(())
}

/// The release archive name for a target.
pub fn cargo_rail_archive_name(target: &str) -> (name: String)
    ensures
        name@ == "cargo-rail-"@ + target@ + ".zip"@,
{
    concat3("cargo-rail-", target, ".zip")
}

/// The Cargo-Rail executable name for a target.
pub fn cargo_rail_name(target: &str) -> (name: &'static str)
    ensures
        name@ == (if ends_with(target@, "windows-msvc"@) { "cargo-rail.exe"@ } else { "cargo-rail"@ }),
{
    let t = chars_of(target);
    let suffix = chars_of("windows-msvc");
    if crate::repository::chars_end_with(&t, &suffix) {
        "cargo-rail.exe"
    } else {
        "cargo-rail"
    }
}

/// The rejection that names a corrupt immutable installation and how to recover it.
pub fn corrupt_installation<T>(directory: &str, detail: &str) -> (r: Result<T, ActionError>)
    ensures
        r matches Err(e) && e.kind == ErrorKind::Rejected && e.message@ == "immutable Cargo-Rail installation '"@
            + directory@ + "' is corrupt ("@ + detail@ + "); remove that exact directory and rerun"@,
{
    let mut message = concat3("immutable Cargo-Rail installation '", directory, "' is corrupt (");
    push_str(&mut message, detail);
    push_str(&mut message, "); remove that exact directory and rerun");
    Err(ActionError::rejected(message))
}

/// A 64-digit lowercase hexadecimal SHA-256 digest.
pub open spec fn spec_valid_digest(value: Seq<char>) -> bool {
    value.len() == 64 && all_lower_hex(value)
}

/// Whether `value` is a lowercase SHA-256 hexadecimal digest.
pub fn valid_digest(value: &str) -> (r: bool)
    ensures
        r == spec_valid_digest(value@),
{
    let chars = chars_of(value);
    chars.len() == 64 && lower_hex_only(&chars)
}

/// The lowercase hexadecimal digit for a value below sixteen.
pub open spec fn hex_char(v: nat) -> char {
    if v < 10 { (48 + v) as char } else { (87 + v) as char }
}

/// The lowercase hexadecimal text of a byte sequence, two digits per byte.
pub open spec fn spec_hex(bytes: Seq<u8>) -> Seq<char>
    decreases bytes.len(),
{
    if bytes.len() == 0 {
        seq![]
    } else {
        spec_hex(bytes.drop_last()) + seq![hex_char(bytes.last() as nat / 16), hex_char(bytes.last() as nat % 16)]
    }
}

fn hex_char_exec(v: u8) -> (c: char)
    requires
        v < 16,
    ensures
        c == hex_char(v as nat),
{
    if v < 10 { (v + 48) as char } else { (v + 87) as char }
}

/// Lowercase hexadecimal text of `bytes`.
pub fn hex_bytes(bytes: &[u8]) -> (encoded: String)
    ensures
        encoded@ == spec_hex(bytes@),
{
    let mut out = String::new();
    let mut i: usize = 0;
    while i < bytes.len()
        invariant
            i <= bytes@.len(),
            out@ == spec_hex(bytes@.take(i as int)),
        decreases bytes@.len() - i,
    {
        proof {
            assert(bytes@.take(i + 1).drop_last() == bytes@.take(i as int));
        }
        let b = bytes[i];
        push_char(&mut out, hex_char_exec(b / 16));
        push_char(&mut out, hex_char_exec(b % 16));
        i = i + 1;
    }
    proof {
        assert(bytes@.take(bytes@.len() as int) == bytes@);
    }
    out
}

/// The component names and capabilities that a target's archive may contain, in name order.
pub open spec fn spec_expected_component_names(target: Seq<char>) -> Seq<(Seq<char>, Seq<char>)> {
    if ends_with(target, "windows-msvc"@) {
        seq![
            ("cargo-rail-compiler-observation.exe"@, "analysis"@),
            ("cargo-rail-distributed-worker.exe"@, "distributed"@),
            ("cargo-rail-fact-driver-source-v1.json"@, "surface-source"@),
            ("cargo-rail-fact-driver.exe"@, "surface"@),
            ("cargo-rail-native-rustc-wrapper.exe"@, "cache"@),
            ("cargo-rail-native-rustc-worker.exe"@, "cache"@),
            ("cargo-rail.exe"@, "core"@),
        ]
    } else {
        seq![
            ("cargo-rail"@, "core"@),
            ("cargo-rail-compiler-observation"@, "analysis"@),
            ("cargo-rail-distributed-worker"@, "distributed"@),
            ("cargo-rail-fact-driver"@, "surface"@),
            ("cargo-rail-fact-driver-source-v1.json"@, "surface-source"@),
            ("cargo-rail-native-rustc-wrapper"@, "cache"@),
            ("cargo-rail-native-rustc-worker"@, "cache"@),
        ]
    }
}

/// The component names and capabilities that a target's archive may contain.
pub fn expected_component_names(target: &str) -> (names: Vec<(&'static str, &'static str)>)
    ensures
        names@.len() == spec_expected_component_names(target@).len(),
        forall|i: int| 0 <= i < names@.len() ==> (#[trigger] names@[i]).0@
            == spec_expected_component_names(target@)[i].0 && names@[i].1@
            == spec_expected_component_names(target@)[i].1,
{
    let t = chars_of(target);
    let suffix = chars_of("windows-msvc");
    if crate::repository::chars_end_with(&t, &suffix) {
        vec![
            ("cargo-rail-compiler-observation.exe", "analysis"),
            ("cargo-rail-distributed-worker.exe", "distributed"),
            ("cargo-rail-fact-driver-source-v1.json", "surface-source"),
            ("cargo-rail-fact-driver.exe", "surface"),
            ("cargo-rail-native-rustc-wrapper.exe", "cache"),
            ("cargo-rail-native-rustc-worker.exe", "cache"),
            ("cargo-rail.exe", "core"),
        ]
    } else {
        vec![
            ("cargo-rail", "core"),
            ("cargo-rail-compiler-observation", "analysis"),
            ("cargo-rail-distributed-worker", "distributed"),
            ("cargo-rail-fact-driver", "surface"),
            ("cargo-rail-fact-driver-source-v1.json", "surface-source"),
            ("cargo-rail-native-rustc-wrapper", "cache"),
            ("cargo-rail-native-rustc-worker", "cache"),
        ]
    }
}


/// One row of a component manifest or installation receipt.
#[derive(Debug)]
pub struct ManifestEntry {
    pub name: String,
    pub digest: String,
    pub bytes: u64,
    pub capability: String,
}

/// A bare component file name: not empty, not hidden, without separators.
pub open spec fn pathless_name(name: Seq<char>) -> bool {
    name.len() > 0 && name[0] != '.' && !has_char(name, '/') && !has_char(name, '\\')
}

/// A component size: digits without a leading zero.
pub open spec fn canonical_size(size: Seq<char>) -> bool {
    size.len() > 0 && all_digits(size) && !(size.len() > 1 && size[0] == '0')
}

/// Why a manifest row is refused, or the entry it holds.
pub enum RowOutcome {
    InvalidRow,
    InvalidAuthority,
    InvalidSize,
    OversizedComponent,
    Entry { name: Seq<char>, digest: Seq<char>, bytes: u64, capability: Seq<char> },
}

/// What one tab-separated manifest row holds: `name`, `digest`, `size` and `capability`.
pub open spec fn spec_manifest_row(line: Seq<char>) -> RowOutcome {
    let fields = split_on(line, '\t');
    if fields.len() != 4 {
        RowOutcome::InvalidRow
    } else if !pathless_name(fields[0]) || !spec_valid_digest(fields[1]) || !canonical_size(fields[2])
        || fields[3].len() == 0 {
        RowOutcome::InvalidAuthority
    } else if digits_value(fields[2]) > u64::MAX {
        RowOutcome::InvalidSize
    } else if digits_value(fields[2]) > MAX_COMPONENT_BYTES {
        RowOutcome::OversizedComponent
    } else {
        RowOutcome::Entry {
            name: fields[0],
            digest: fields[1],
            bytes: digits_value(fields[2]) as u64,
            capability: fields[3],
        }
    }
}

/// The message suffix of a refused row.
pub open spec fn row_message(outcome: RowOutcome) -> Seq<char> {
    match outcome {
        RowOutcome::InvalidRow => " contains an invalid row"@,
        RowOutcome::InvalidAuthority => " contains invalid component authority"@,
        RowOutcome::InvalidSize => " component size is invalid"@,
        RowOutcome::OversizedComponent => " component size exceeds its bound"@,
        RowOutcome::Entry { .. } => Seq::empty(),
    }
}

proof fn lemma_digits_prefix_bound(s: Seq<char>, n: int)
    requires
        0 <= n <= s.len(),
        all_digits(s),
    ensures
        digits_value(s.take(n)) <= digits_value(s),
    decreases s.len() - n,
{
    if n < s.len() {
        lemma_digits_prefix_bound(s, n + 1);
        assert(s.take(n + 1).drop_last() == s.take(n));
    } else {
        assert(s.take(n) == s);
    }
}

/// The value of a digit string, or `None` when it exceeds `u64::MAX`.
fn parse_digits(digits: &Vec<char>) -> (r: Option<u64>)
    requires
        all_digits(digits@),
    ensures
        r matches Some(v) ==> v == digits_value(digits@),
        r is None ==> digits_value(digits@) > u64::MAX,
{
    let mut value: u64 = 0;
    let mut i: usize = 0;
    while i < digits.len()
        invariant
            i <= digits@.len(),
            all_digits(digits@),
            value == digits_value(digits@.take(i as int)),
        decreases digits@.len() - i,
    {
        proof {
            assert(digits@.take(i + 1).drop_last() == digits@.take(i as int));
            assert(digits@.take(i + 1).last() == digits@[i as int]);
            lemma_digits_prefix_bound(digits@, i + 1);
        }
        let d = ((digits[i] as u32) - 48) as u64;
        match value.checked_mul(10) {
            Some(scaled) => match scaled.checked_add(d) {
                Some(next) => {
                    value = next;
                },
                None => {
                    return None;
                },
            },
            None => {
                return None;
            },
        }
        i = i + 1;
    }
    proof {
        assert(digits@.take(digits@.len() as int) == digits@);
    }
    Some(value)
}

fn digits_only(s: &Vec<char>) -> (r: bool)
    ensures
        r == all_digits(s@),
{
    let mut i: usize = 0;
    while i < s.len()
        invariant
            i <= s@.len(),
            forall|j: int| 0 <= j < i ==> is_ascii_digit(#[trigger] s@[j]),
        decreases s@.len() - i,
    {
        if s[i] < '0' || s[i] > '9' {
            return false;
        }
        i = i + 1;
    }
    true
}

fn pathless_name_exec(name: &Vec<char>) -> (r: bool)
    ensures
        r == pathless_name(name@),
{
    name.len() > 0 && name[0] != '.' && !contains_char(name, '/') && !contains_char(name, '\\')
}

/// Parses one `name`, `digest`, `size`, `capability` row of a component manifest or receipt.
pub fn parse_manifest_entry(line: &str, subject: &str) -> (r: Result<ManifestEntry, ActionError>)
    ensures
        r matches Ok(entry) ==> spec_manifest_row(line@) == (RowOutcome::Entry {
            name: entry.name@,
            digest: entry.digest@,
            bytes: entry.bytes,
            capability: entry.capability@,
        }),
        r matches Err(e) ==> e.kind == ErrorKind::Rejected && !(spec_manifest_row(line@) is Entry)
            && e.message@ == subject@ + row_message(spec_manifest_row(line@)),
{
    let chars = chars_of(line);
    let fields = split_chars(&chars, '\t');
    if fields.len() != 4 {
        return Err(ActionError::rejected(concat(subject, " contains an invalid row")));
    }
    let name = &fields[0];
    let digest = &fields[1];
    let size = &fields[2];
    let capability = &fields[3];
    let digest_ok = digest.len() == 64 && lower_hex_only(digest);
    let size_ok = size.len() > 0 && digits_only(size) && !(size.len() > 1 && size[0] == '0');
    if !pathless_name_exec(name) || !digest_ok || !size_ok || capability.len() == 0 {
        return Err(ActionError::rejected(concat(subject, " contains invalid component authority")));
    }
    let bytes = match parse_digits(size) {
        Some(value) => value,
        None => {
            return Err(ActionError::rejected(concat(subject, " component size is invalid")));
        },
    };
    if bytes > MAX_COMPONENT_BYTES {
        return Err(ActionError::rejected(concat(subject, " component size exceeds its bound")));
    }
    Ok(ManifestEntry {
        name: string_of(name.as_slice()),
        digest: string_of(digest.as_slice()),
        bytes,
        capability: string_of(capability.as_slice()),
    })
}

/// The capability that the archive may hold under `name`, if any.
pub open spec fn expected_capability(target: Seq<char>, name: Seq<char>) -> Option<Seq<char>> {
    let table = spec_expected_component_names(target);
    if exists|i: int| 0 <= i < table.len() && (#[trigger] table[i]).0 == name {
        Some(table[choose|i: int| 0 <= i < table.len() && (#[trigger] table[i]).0 == name].1)
    } else {
        None
    }
}

/// How many entries have the given capability.
pub open spec fn count_capability(entries: Seq<ManifestEntry>, capability: Seq<char>) -> nat
    decreases entries.len(),
{
    if entries.len() == 0 {
        0
    } else {
        count_capability(entries.drop_last(), capability) + if entries.last().capability@ == capability {
            1nat
        } else {
            0nat
        }
    }
}

/// Whether the entry at `i` names an expected component with its expected capability.
pub open spec fn entry_expected(entries: Seq<ManifestEntry>, target: Seq<char>, i: int) -> bool {
    expected_capability(target, entries[i].name@) == Some(entries[i].capability@)
}

/// Every required capability occurs exactly as often as the component set requires.
pub open spec fn counts_complete(entries: Seq<ManifestEntry>, set: ComponentSet) -> bool {
    forall|k: int| 0 <= k < spec_required_counts(set).len() ==> count_capability(
        entries,
        (#[trigger] spec_required_counts(set)[k]).0,
    ) == spec_required_counts(set)[k].1
}

fn capability_of(target: &str, name: &str) -> (r: Option<&'static str>)
    ensures
        r matches Some(c) ==> expected_capability(target@, name@) == Some(c@),
        r is None ==> expected_capability(target@, name@) is None,
{
    let table = expected_component_names(target);
    let ghost spec_table = spec_expected_component_names(target@);
    let mut i: usize = 0;
    while i < table.len()
        invariant
            i <= table@.len() == spec_table.len(),
            spec_table == spec_expected_component_names(target@),
            forall|j: int| 0 <= j < table@.len() ==> (#[trigger] table@[j]).0@ == spec_table[j].0 && table@[j].1@
                == spec_table[j].1,
            forall|j: int| 0 <= j < i ==> (#[trigger] spec_table[j]).0 != name@,
        decreases table@.len() - i,
    {
        if str_eq_static(table[i].0, name) {
            proof {
                let w = choose|j: int| 0 <= j < spec_table.len() && (#[trigger] spec_table[j]).0 == name@;
                lemma_names_unique(target@, w, i as int);
            }
            return Some(table[i].1);
        }
        i = i + 1;
    }
    None
}

fn str_eq_static(a: &str, b: &str) -> (r: bool)
    ensures
        r == (a@ == b@),
{
    crate::text::str_eq(a, b)
}

proof fn lemma_names_unique(target: Seq<char>, i: int, j: int)
    requires
        0 <= i < spec_expected_component_names(target).len(),
        0 <= j < spec_expected_component_names(target).len(),
        spec_expected_component_names(target)[i].0 == spec_expected_component_names(target)[j].0,
    ensures
        i == j,
{
    reveal_strlit("cargo-rail");
    reveal_strlit("cargo-rail-compiler-observation");
    reveal_strlit("cargo-rail-distributed-worker");
    reveal_strlit("cargo-rail-fact-driver");
    reveal_strlit("cargo-rail-fact-driver-source-v1.json");
    reveal_strlit("cargo-rail-native-rustc-wrapper");
    reveal_strlit("cargo-rail-native-rustc-worker");
    reveal_strlit("cargo-rail.exe");
    reveal_strlit("cargo-rail-compiler-observation.exe");
    reveal_strlit("cargo-rail-distributed-worker.exe");
    reveal_strlit("cargo-rail-fact-driver.exe");
    reveal_strlit("cargo-rail-native-rustc-wrapper.exe");
    reveal_strlit("cargo-rail-native-rustc-worker.exe");
    let t = spec_expected_component_names(target);
    if i != j {
        assert(t[i].0.len() != t[j].0.len() || exists|k: int| 0 <= k < t[i].0.len() && t[i].0[k] != t[j].0[k]) by {
            if t[i].0.len() == t[j].0.len() {
                assert(t[i].0[t[i].0.len() - 3] != t[j].0[t[i].0.len() - 3] || t[i].0[t[i].0.len() - 8]
                    != t[j].0[t[i].0.len() - 8] || t[i].0[11] != t[j].0[11] || t[i].0[t[i].0.len() - 1]
                    != t[j].0[t[i].0.len() - 1] || t[i].0[t[i].0.len() - 5] != t[j].0[t[i].0.len() - 5]);
            }
        }
    }
}


/// Counts the entries with the given capability.
fn count_entries(entries: &[ManifestEntry], capability: &str) -> (n: usize)
    ensures
        n == count_capability(entries@, capability@),
{
    let mut n: usize = 0;
    let mut i: usize = 0;
    while i < entries.len()
        invariant
            i <= entries@.len(),
            n == count_capability(entries@.take(i as int), capability@),
            n <= i,
        decreases entries@.len() - i,
    {
        proof {
            assert(entries@.take(i + 1).drop_last() == entries@.take(i as int));
        }
        if str_eq_static(entries[i].capability.as_str(), capability) {
            n = n + 1;
        }
        i = i + 1;
    }
    proof {
        assert(entries@.take(entries@.len() as int) == entries@);
    }
    n
}

/// Every component is one the target's archive may hold, with its expected capability, and the
/// requested set is complete.
pub fn validate_manifest_inventory(entries: &[ManifestEntry], target: &str, requested: ComponentSet) -> (r: Result<(), ActionError>)
    ensures
        r is Ok <==> (forall|i: int| 0 <= i < entries@.len() ==> entry_expected(entries@, target@, i))
            && counts_complete(entries@, requested),
        r matches Err(e) ==> e.kind == ErrorKind::Rejected && (
            (exists|i: int| 0 <= i < entries@.len() && !entry_expected(entries@, target@, i)
                && (forall|j: int| 0 <= j < i ==> entry_expected(entries@, target@, j))
                && e.message@ == "Cargo-Rail component "@ + entries@[i].name@ + " has an unexpected name or capability"@)
            || ((forall|i: int| 0 <= i < entries@.len() ==> entry_expected(entries@, target@, i))
                && e.message@ == "Cargo-Rail archive does not provide the complete "@ + spec_component_name(requested)
                    + " component set"@)),
{
    let mut i: usize = 0;
    while i < entries.len()
        invariant
            i <= entries@.len(),
            forall|j: int| 0 <= j < i ==> entry_expected(entries@, target@, j),
        decreases entries@.len() - i,
    {
        let expected = capability_of(target, entries[i].name.as_str());
        let matches = match expected {
            Some(capability) => str_eq_static(capability, entries[i].capability.as_str()),
            None => false,
        };
        if !matches {
            proof {
                assert(!entry_expected(entries@, target@, i as int));
            }
            let message = concat3(
                "Cargo-Rail component ",
                entries[i].name.as_str(),
                " has an unexpected name or capability",
            );
            return Err(ActionError::rejected(message));
        }
        i = i + 1;
    }
    let counts = requested.required_counts();
    let mut k: usize = 0;
    while k < counts.len()
        invariant
            k <= counts@.len() == spec_required_counts(requested).len(),
            forall|j: int| 0 <= j < counts@.len() ==> (#[trigger] counts@[j]).0@ == spec_required_counts(requested)[j].0
                && counts@[j].1 == spec_required_counts(requested)[j].1,
            forall|j: int| 0 <= j < k ==> count_capability(
                entries@,
                (#[trigger] spec_required_counts(requested)[j]).0,
            ) == spec_required_counts(requested)[j].1,
            forall|j: int| 0 <= j < entries@.len() ==> entry_expected(entries@, target@, j),
        decreases counts@.len() - k,
    {
        let (capability, count) = counts[k];
        if count_entries(entries, capability) != count {
            let message = concat3(
                "Cargo-Rail archive does not provide the complete ",
                requested.as_str(),
                " component set",
            );
            return Err(ActionError::rejected(message));
        }
        k = k + 1;
    }
    Ok(())
}

/// No two entries share a name.
pub open spec fn names_distinct(entries: Seq<ManifestEntry>) -> bool {
    forall|i: int, j: int| 0 <= i < j < entries.len() ==> entries[i].name@ != entries[j].name@
}

/// Whether some entry before position `n` has the given name.
pub(crate) fn name_before(entries: &[ManifestEntry], n: usize, name: &str) -> (r: bool)
    requires
        n <= entries@.len(),
    ensures
        r == exists|j: int| 0 <= j < n && entries@[j].name@ == name@,
{
    let mut j: usize = 0;
    while j < n
        invariant
            j <= n <= entries@.len(),
            forall|k: int| 0 <= k < j ==> entries@[k].name@ != name@,
        decreases n - j,
    {
        if str_eq_static(entries[j].name.as_str(), name) {
            return true;
        }
        j = j + 1;
    }
    false
}

/// Whether no two entries share a name.
fn distinct_names(entries: &[ManifestEntry]) -> (r: bool)
    ensures
        r == names_distinct(entries@),
{
    let mut i: usize = 0;
    while i < entries.len()
        invariant
            i <= entries@.len(),
            forall|a: int, b: int| 0 <= a < b < i ==> entries@[a].name@ != entries@[b].name@,
        decreases entries@.len() - i,
    {
        if name_before(entries, i, entries[i].name.as_str()) {
            return false;
        }
        i = i + 1;
    }
    true
}

/// An installation receipt holds a complete, duplicate-free inventory of requested capabilities.
pub fn validate_selected_entries(entries: &[ManifestEntry], target: &str, requested: ComponentSet) -> (r: Result<(), ActionError>)
    ensures
        r is Ok <==> (forall|i: int| 0 <= i < entries@.len() ==> entry_expected(entries@, target@, i))
            && counts_complete(entries@, requested) && names_distinct(entries@)
            && (forall|i: int| 0 <= i < entries@.len() ==> spec_accepts(requested, #[trigger] entries@[i].capability@)),
        r matches Err(e) ==> e.kind == ErrorKind::Rejected,
{
    validate_manifest_inventory(entries, target, requested)?;
    if !distinct_names(entries) {
        return Err(rejection("installation receipt contains duplicate component names"));
    }
    let mut i: usize = 0;
    while i < entries.len()
        invariant
            i <= entries@.len(),
            forall|j: int| 0 <= j < i ==> spec_accepts(requested, #[trigger] entries@[j].capability@),
        decreases entries@.len() - i,
    {
        if !requested.accepts(entries[i].capability.as_str()) {
            return Err(rejection("installation receipt contains an unrequested capability"));
        }
        i = i + 1;
    }
    Ok(())
}

} // verus!
