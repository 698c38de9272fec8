//! The runtime manifest of an Action release: which assets a release carries and the manifest
//! that binds each qualified target to its executable.

use vstd::prelude::*;
use vstd::utf8::encode_utf8;

use crate::digest::{hex_digest, sha256_of};
use crate::error::{rejection, ActionError, ErrorKind};
use crate::install::spec_hex;
use crate::plan::bytes_of;
use crate::text::{chars_of, decimal, is_ascii_graphic, push_str, str_eq, u64_text};
use crate::validation::text_lt;

verus! {

/// The largest runtime manifest or license asset, in bytes.
pub const MAX_MANIFEST_ASSET_BYTES: u64 = 65536;

/// The largest executable asset read, in bytes.
pub const MAX_RUNTIME_BYTES: u64 = 33554432;

/// The largest executable a runtime manifest may bind, in bytes.
pub const MAX_RELEASE_RUNTIME_BYTES: u64 = 16777216;

/// An asset of a release: its name, its size and its SHA-256 digest in lowercase hexadecimal.
#[derive(Debug)]
pub struct AssetRecord {
    pub name: String,
    pub bytes: u64,
    pub sha256: String,
}

/// The value of an asset record.
pub open spec fn asset_view(a: AssetRecord) -> (Seq<char>, u64, Seq<char>) {
    (a.name@, a.bytes, a.sha256@)
}

/// The values of a sequence of asset records.
pub open spec fn assets_view(v: Seq<AssetRecord>) -> Seq<(Seq<char>, u64, Seq<char>)> {
    v.map_values(|a: AssetRecord| asset_view(a))
}

/// A pathless asset name: not empty, not hidden, printable ASCII without path separators.
pub open spec fn asset_name_ok(v: Seq<char>) -> bool {
    &&& v.len() > 0
    &&& v[0] != '.'
    &&& forall|i: int| 0 <= i < v.len() ==> is_ascii_graphic(#[trigger] v[i]) && v[i] != '/' && v[i] != '\\'
}

/// Whether `value` is a pathless asset name.
pub fn valid_asset_name(value: &str) -> (r: bool)
    ensures
        r == asset_name_ok(value@),
{
    let chars = chars_of(value);
    if chars.len() == 0 || chars[0] == '.' {
        return false;
    }
    let mut i: usize = 0;
    while i < chars.len()
        invariant
            i <= chars@.len(),
            chars@ == value@,
            forall|k: int| 0 <= k < i ==> is_ascii_graphic(#[trigger] chars@[k]) && chars@[k] != '/' && chars@[k]
                != '\\',
        decreases chars@.len() - i,
    {
        let c = chars[i];
        if !('!' <= c && c <= '~') || c == '/' || c == '\\' {
            return false;
        }
        i = i + 1;
    }
    true
}

/// The executable asset name of a qualified target, or the empty text for any other target.
pub open spec fn spec_runtime_name(target: Seq<char>) -> Seq<char> {
    if target == "aarch64-apple-darwin"@ {
        "cargo-rail-action-aarch64-apple-darwin"@
    } else if target == "aarch64-unknown-linux-gnu"@ {
        "cargo-rail-action-aarch64-unknown-linux-gnu"@
    } else if target == "x86_64-pc-windows-msvc"@ {
        "cargo-rail-action-x86_64-pc-windows-msvc.exe"@
    } else if target == "x86_64-unknown-linux-gnu"@ {
        "cargo-rail-action-x86_64-unknown-linux-gnu"@
    } else {
        ""@
    }
}

/// The executable asset name of a target.
pub fn runtime_name(target: &str) -> (r: &'static str)
    ensures
        r@ == spec_runtime_name(target@),
{
    if str_eq(target, "aarch64-apple-darwin") {
        "cargo-rail-action-aarch64-apple-darwin"
    } else if str_eq(target, "aarch64-unknown-linux-gnu") {
        "cargo-rail-action-aarch64-unknown-linux-gnu"
    } else if str_eq(target, "x86_64-pc-windows-msvc") {
        "cargo-rail-action-x86_64-pc-windows-msvc.exe"
    } else if str_eq(target, "x86_64-unknown-linux-gnu") {
        "cargo-rail-action-x86_64-unknown-linux-gnu"
    } else {
        ""
    }
}

/// The largest an asset of this name may be when it is read: the runtime manifest and the license
/// are small text files, every other asset an executable.
pub open spec fn spec_asset_maximum(name: Seq<char>) -> u64 {
    if name == "cargo-rail-action-runtime-v1.tsv"@ || name == "LICENSE"@ {
        MAX_MANIFEST_ASSET_BYTES
    } else {
        MAX_RUNTIME_BYTES
    }
}

/// The largest an asset of this name may be when it is read.
pub fn asset_maximum(name: &str) -> (r: u64)
    ensures
        r == spec_asset_maximum(name@),
{
    if str_eq(name, "cargo-rail-action-runtime-v1.tsv") || str_eq(name, "LICENSE") {
        MAX_MANIFEST_ASSET_BYTES
    } else {
        MAX_RUNTIME_BYTES
    }
}

/// What recording an asset gives: a failure message, or its name, size and digest.
pub open spec fn asset_outcome(name: Seq<char>, contents: Seq<u8>, license: Seq<u8>) -> Result<
    (Seq<char>, u64, Seq<char>),
    Seq<char>,
> {
    if !asset_name_ok(name) {
        Err("release asset must have one pathless UTF-8 name"@)
    } else if name == "LICENSE"@ && contents != license {
        Err("release LICENSE does not match the runtime source license"@)
    } else {
        Ok((name, contents.len() as u64, spec_hex(sha256_of(contents))))
    }
}

fn same_bytes(a: &[u8], b: &[u8]) -> (r: bool)
    ensures
        r == (a@ == b@),
{
    if a.len() != b.len() {
        return false;
    }
    let mut i: usize = 0;
    while i < a.len()
        invariant
            i <= a@.len() == b@.len(),
            a@.take(i as int) == b@.take(i as int),
        decreases a@.len() - i,
    {
        if a[i] != b[i] {
            proof {
                assert(a@[i as int] != b@[i as int]);
            }
            return false;
        }
        proof {
            assert(a@.take(i + 1) =~= a@.take(i as int).push(a@[i as int]));
            assert(b@.take(i + 1) =~= b@.take(i as int).push(b@[i as int]));
        }
        i = i + 1;
    }
    proof {
        assert(a@ =~= a@.take(i as int));
        assert(b@ =~= b@.take(i as int));
    }
    true
}

/// Records an asset read under `name`; a license asset must be the runtime source license.
pub fn asset_record(name: &str, contents: &[u8], license: &[u8]) -> (r: Result<AssetRecord, ActionError>)
    requires
        contents@.len() <= u64::MAX,
    ensures
        match asset_outcome(name@, contents@, license@) {
            Ok(v) => r matches Ok(a) && asset_view(a) == v,
            Err(m) => r matches Err(e) && e.kind == ErrorKind::Rejected && e.message@ == m,
        },
{
    if !valid_asset_name(name) {
        return Err(rejection("release asset must have one pathless UTF-8 name"));
    }
    if str_eq(name, "LICENSE") && !same_bytes(contents, license) {
        return Err(rejection("release LICENSE does not match the runtime source license"));
    }
    let n = contents.len();
    Ok(AssetRecord { name: crate::text::owned(name), bytes: n as u64, sha256: hex_digest(contents) })
}

/// The names of a sequence of asset values.
pub open spec fn names_of(v: Seq<(Seq<char>, u64, Seq<char>)>) -> Seq<Seq<char>> {
    v.map_values(|a: (Seq<char>, u64, Seq<char>)| a.0)
}

/// No two assets share a name.
pub open spec fn names_unique(v: Seq<(Seq<char>, u64, Seq<char>)>) -> bool {
    forall|i: int, j: int| 0 <= i < j < v.len() ==> v[i].0 != v[j].0
}

/// The assets are in strictly ascending order of name.
pub open spec fn names_ascending(v: Seq<(Seq<char>, u64, Seq<char>)>) -> bool {
    forall|i: int, j: int| 0 <= i < j < v.len() ==> text_lt(v[i].0, v[j].0)
}

fn insert_position(sorted: &Vec<AssetRecord>, name: &str) -> (r: Option<usize>)
    requires
        names_ascending(assets_view(sorted@)),
    ensures
        match r {
            Some(p) => p <= sorted@.len() && (forall|i: int| 0 <= i < p ==> text_lt(
                #[trigger] sorted@[i].name@,
                name@,
            )) && (forall|i: int| p <= i < sorted@.len() ==> text_lt(name@, #[trigger] sorted@[i].name@)),
            None => exists|i: int| 0 <= i < sorted@.len() && #[trigger] sorted@[i].name@ == name@,
        },
{
    let mut p: usize = 0;
    while p < sorted.len()
        invariant
            p <= sorted@.len(),
            names_ascending(assets_view(sorted@)),
            forall|i: int| 0 <= i < p ==> text_lt(#[trigger] sorted@[i].name@, name@),
        decreases sorted@.len() - p,
    {
        if crate::text::str_eq(sorted[p].name.as_str(), name) {
            return None;
        }
        if !crate::validation::text_less(sorted[p].name.as_str(), name) {
            proof {
                crate::validation::lemma_text_lt_total(sorted@[p as int].name@, name@);
                assert forall|i: int| p <= i < sorted@.len() implies text_lt(name@, #[trigger] sorted@[i].name@) by {
                    if i > p {
                        assert(assets_view(sorted@)[p as int].0 == sorted@[p as int].name@);
                        assert(assets_view(sorted@)[i].0 == sorted@[i].name@);
                        crate::workflow_text::lemma_text_lt_trans(name@, sorted@[p as int].name@, sorted@[i].name@);
                    }
                }
            }
            return Some(p);
        }
        p = p + 1;
    }
    Some(p)
}

/// Orders the asset records by name and refuses two assets of one name.
pub fn sort_assets(records: Vec<AssetRecord>) -> (r: Result<Vec<AssetRecord>, ActionError>)
    ensures
        r is Ok <==> names_unique(assets_view(records@)),
        r matches Err(e) ==> e.kind == ErrorKind::Rejected && e.message@ == "release asset names must be unique"@,
        r matches Ok(sorted) ==> names_ascending(assets_view(sorted@)) && sorted@.len() == records@.len() && (
        forall|x: (Seq<char>, u64, Seq<char>)| assets_view(sorted@).contains(x) <==> assets_view(records@).contains(x)),
{
    let ghost input = assets_view(records@);
    let mut sorted: Vec<AssetRecord> = Vec::new();
    let mut taken: usize = 0;
    while taken < records.len()
        invariant
            taken <= records@.len(),
            input == assets_view(records@),
            names_ascending(assets_view(sorted@)),
            sorted@.len() == taken,
            names_unique(input.take(taken as int)),
            forall|x: (Seq<char>, u64, Seq<char>)| assets_view(sorted@).contains(x) <==> input.take(
                taken as int,
            ).contains(x),
        decreases records@.len() - taken,
    {
        let ghost before_sorted = assets_view(sorted@);
        let a = AssetRecord {
            name: crate::text::owned(records[taken].name.as_str()),
            bytes: records[taken].bytes,
            sha256: crate::text::owned(records[taken].sha256.as_str()),
        };
        proof {
            assert(asset_view(a) == input[taken as int]);
            assert(input.take(taken + 1) =~= input.take(taken as int).push(asset_view(a)));
        }
        match insert_position(&sorted, a.name.as_str()) {
            None => {
                proof {
                    let i = choose|i: int| 0 <= i < sorted@.len() && #[trigger] sorted@[i].name@ == a.name@;
                    assert(assets_view(sorted@)[i].0 == a.name@);
                    assert(assets_view(sorted@).contains(assets_view(sorted@)[i]));
                    assert(input.take(taken as int).contains(assets_view(sorted@)[i]));
                    let k = choose|k: int| 0 <= k < taken && #[trigger] input.take(taken as int)[k] == assets_view(sorted@)[i];
                    assert(input[k] == input.take(taken as int)[k]);
                    assert(input[k].0 == input[taken as int].0);
                    assert(!names_unique(input));
                }
                return Err(rejection("release asset names must be unique"));
            },
            Some(p) => {
                sorted.insert(p, a);
                proof {
                    let v = assets_view(sorted@);
                    assert(v =~= before_sorted.insert(p as int, input[taken as int]));
                    assert forall|i: int, j: int| 0 <= i < j < v.len() implies text_lt(v[i].0, v[j].0) by {
                        if j < p {
                            assert(v[i] == before_sorted[i] && v[j] == before_sorted[j]);
                        } else if j == p {
                            assert(v[i] == before_sorted[i]);
                            assert(v[i].0 == sorted@[i].name@);
                        } else if i == p {
                            assert(v[j] == before_sorted[j - 1]);
                                } else if i < p {
                            assert(v[i] == before_sorted[i] && v[j] == before_sorted[j - 1]);
                        } else {
                            assert(v[i] == before_sorted[i - 1] && v[j] == before_sorted[j - 1]);
                        }
                    }
                    assert forall|k: int| 0 <= k < taken implies input[k].0 != input[taken as int].0 by {
                        assert(input.take(taken as int)[k] == input[k]);
                        assert(input.take(taken as int).contains(input[k]));
                        assert(before_sorted.contains(input[k]));
                        let i = choose|i: int| 0 <= i < before_sorted.len() && #[trigger] before_sorted[i] == input[k];
                        assert(before_sorted[i].0 == sorted@[if i < p { i } else { i + 1 }].name@);
                        crate::validation::lemma_text_lt_irreflexive(input[k].0);
                    }
                    assert forall|x: (Seq<char>, u64, Seq<char>)| v.contains(x) <==> input.take(taken + 1).contains(
                        x,
                    ) by {
                        if v.contains(x) {
                            let i = choose|i: int| 0 <= i < v.len() && #[trigger] v[i] == x;
                            if i < p {
                                assert(before_sorted[i] == x);
                                assert(before_sorted.contains(x));
                            } else if i > p {
                                assert(before_sorted[i - 1] == x);
                                assert(before_sorted.contains(x));
                            }
                            if x != input[taken as int] {
                                assert(input.take(taken as int).contains(x));
                                let k = choose|k: int| 0 <= k < taken && #[trigger] input.take(taken as int)[k] == x;
                                assert(input.take(taken + 1)[k] == x);
                            } else {
                                assert(input.take(taken + 1)[taken as int] == x);
                            }
                        }
                        if input.take(taken + 1).contains(x) {
                            let k = choose|k: int| 0 <= k < taken + 1 && #[trigger] input.take(taken + 1)[k] == x;
                            if k < taken {
                                assert(input.take(taken as int)[k] == x);
                                assert(input.take(taken as int).contains(x));
                                assert(before_sorted.contains(x));
                                let i = choose|i: int| 0 <= i < before_sorted.len() && #[trigger] before_sorted[i] == x;
                                if i < p {
                                    assert(v[i] == x);
                                } else {
                                    assert(v[i + 1] == x);
                                }
                            } else {
                                assert(v[p as int] == x);
                            }
                        }
                    }
                }
                taken = taken + 1;
            },
        }
    }
    proof {
        assert(input.take(taken as int) =~= input);
    }
    Ok(sorted)
}

/// The targets a runtime manifest binds, in manifest order.
pub open spec fn qualified_targets() -> Seq<Seq<char>> {
    seq!["aarch64-apple-darwin"@, "aarch64-unknown-linux-gnu"@, "x86_64-pc-windows-msvc"@, "x86_64-unknown-linux-gnu"@]
}

/// The names a runtime manifest release carries: the license and the executable of each target.
pub open spec fn required_asset_name(name: Seq<char>) -> bool {
    name == "LICENSE"@ || name == "cargo-rail-action-aarch64-apple-darwin"@ || name
        == "cargo-rail-action-aarch64-unknown-linux-gnu"@ || name == "cargo-rail-action-x86_64-pc-windows-msvc.exe"@
        || name == "cargo-rail-action-x86_64-unknown-linux-gnu"@
}

/// The executables of the qualified targets are the named ones.
pub proof fn lemma_qualified_runtime_names()
    ensures
        spec_runtime_name(qualified_targets()[0]) == "cargo-rail-action-aarch64-apple-darwin"@,
        spec_runtime_name(qualified_targets()[1]) == "cargo-rail-action-aarch64-unknown-linux-gnu"@,
        spec_runtime_name(qualified_targets()[2]) == "cargo-rail-action-x86_64-pc-windows-msvc.exe"@,
        spec_runtime_name(qualified_targets()[3]) == "cargo-rail-action-x86_64-unknown-linux-gnu"@,
{
    reveal_strlit("aarch64-apple-darwin");
    reveal_strlit("x86_64-pc-windows-msvc");
    reveal_strlit("x86_64-unknown-linux-gnu");
    reveal_strlit("aarch64-unknown-linux-gnu");
    assert(qualified_targets()[0] == "aarch64-apple-darwin"@);
    assert(qualified_targets()[1] == "aarch64-unknown-linux-gnu"@);
    assert(qualified_targets()[2] == "x86_64-pc-windows-msvc"@);
    assert(qualified_targets()[3] == "x86_64-unknown-linux-gnu"@);
    assert("aarch64-unknown-linux-gnu"@[0] == 'a');
    assert("aarch64-apple-darwin"@.len() == 20);
    assert("aarch64-unknown-linux-gnu"@.len() == 25);
    assert("aarch64-unknown-linux-gnu"@ != "aarch64-apple-darwin"@);
    assert("x86_64-pc-windows-msvc"@[0] == 'x');
    assert("x86_64-unknown-linux-gnu"@[0] == 'x');
    assert("x86_64-pc-windows-msvc"@.len() == 22);
    assert("x86_64-unknown-linux-gnu"@.len() == 24);
    assert("x86_64-pc-windows-msvc"@ != "aarch64-apple-darwin"@);
    assert("x86_64-pc-windows-msvc"@ != "aarch64-unknown-linux-gnu"@);
    assert("x86_64-unknown-linux-gnu"@ != "aarch64-apple-darwin"@);
    assert("x86_64-unknown-linux-gnu"@ != "aarch64-unknown-linux-gnu"@);
    assert("x86_64-unknown-linux-gnu"@ != "x86_64-pc-windows-msvc"@);
}

/// Whether some asset has the name.
pub open spec fn has_asset(v: Seq<(Seq<char>, u64, Seq<char>)>, name: Seq<char>) -> bool {
    exists|i: int| 0 <= i < v.len() && (#[trigger] v[i]).0 == name
}

/// The last asset with the name, which a map keyed by name keeps.
pub open spec fn last_asset(v: Seq<(Seq<char>, u64, Seq<char>)>, name: Seq<char>) -> (Seq<char>, u64, Seq<char>)
    decreases v.len(),
{
    if v.len() == 0 {
        (name, 0, ""@)
    } else if v.last().0 == name {
        v.last()
    } else {
        last_asset(v.drop_last(), name)
    }
}

/// Whether the assets are exactly the license and the qualified executables, the license is the
/// source license, and every asset is a non-empty bounded file.
pub open spec fn manifest_assets_ok(v: Seq<(Seq<char>, u64, Seq<char>)>, license: Seq<u8>) -> bool {
    &&& forall|i: int| 0 <= i < v.len() ==> required_asset_name((#[trigger] v[i]).0)
    &&& has_asset(v, "LICENSE"@)
    &&& last_asset(v, "LICENSE"@).1 == license.len() && last_asset(v, "LICENSE"@).2 == spec_hex(sha256_of(license))
    &&& forall|t: int| 0 <= t < 4 ==> has_asset(v, spec_runtime_name(#[trigger] qualified_targets()[t]))
    &&& forall|i: int| 0 <= i < v.len() ==> 0 < (#[trigger] v[i]).1 <= MAX_RELEASE_RUNTIME_BYTES
}

/// The manifest row of a target.
pub open spec fn manifest_row(v: Seq<(Seq<char>, u64, Seq<char>)>, target: Seq<char>) -> Seq<char> {
    row_of(target, last_asset(v, spec_runtime_name(target)))
}

/// The text of the runtime manifest of a release of `version`.
pub open spec fn manifest_text(v: Seq<(Seq<char>, u64, Seq<char>)>, version: Seq<char>) -> Seq<char> {
    "cargo-rail-action-runtime-v1\t"@ + version + "\n"@ + manifest_row(v, qualified_targets()[0]) + manifest_row(
        v,
        qualified_targets()[1],
    ) + manifest_row(v, qualified_targets()[2]) + manifest_row(v, qualified_targets()[3])
}

fn find_last<'a>(assets: &'a [AssetRecord], name: &str) -> (r: Option<&'a AssetRecord>)
    ensures
        match r {
            Some(a) => has_asset(assets_view(assets@), name@) && asset_view(*a) == last_asset(
                assets_view(assets@),
                name@,
            ),
            None => !has_asset(assets_view(assets@), name@),
        },
{
    let mut i: usize = assets.len();
    while i > 0
        invariant
            i <= assets@.len(),
            forall|k: int| i <= k < assets@.len() ==> (#[trigger] assets@[k]).name@ != name@,
        decreases i,
    {
        i = i - 1;
        if str_eq(assets[i].name.as_str(), name) {
            proof {
                lemma_last_asset_at(assets_view(assets@), name@, i as int);
                assert(assets_view(assets@)[i as int].0 == name@);
            }
            return Some(&assets[i]);
        }
    }
    proof {
        if has_asset(assets_view(assets@), name@) {
            let k = choose|k: int| 0 <= k < assets@.len() && (#[trigger] assets_view(assets@)[k]).0 == name@;
            assert(assets@[k].name@ == assets_view(assets@)[k].0);
        }
    }
    None
}

proof fn lemma_last_asset_at(v: Seq<(Seq<char>, u64, Seq<char>)>, name: Seq<char>, i: int)
    requires
        0 <= i < v.len(),
        v[i].0 == name,
        forall|k: int| i < k < v.len() ==> (#[trigger] v[k]).0 != name,
    ensures
        last_asset(v, name) == v[i],
    decreases v.len(),
{
    if i < v.len() - 1 {
        lemma_last_asset_at(v.drop_last(), name, i);
    }
}

fn all_named_and_bounded(assets: &[AssetRecord]) -> (ok: bool)
    ensures
        ok <==> forall|k: int| 0 <= k < assets@.len() ==> required_asset_name((#[trigger] assets_view(assets@)[k]).0)
            && 0 < assets_view(assets@)[k].1 <= MAX_RELEASE_RUNTIME_BYTES,
{
    let ghost v = assets_view(assets@);
    let mut ok = true;
    let mut i: usize = 0;
    while i < assets.len()
        invariant
            i <= assets@.len(),
            v == assets_view(assets@),
            ok <==> forall|k: int| 0 <= k < i ==> required_asset_name((#[trigger] v[k]).0) && 0 < v[k].1
                <= MAX_RELEASE_RUNTIME_BYTES,
        decreases assets@.len() - i,
    {
        let name = assets[i].name.as_str();
        let named = str_eq(name, "LICENSE") || str_eq(name, "cargo-rail-action-aarch64-apple-darwin") || str_eq(
            name,
            "cargo-rail-action-aarch64-unknown-linux-gnu",
        ) || str_eq(name, "cargo-rail-action-x86_64-pc-windows-msvc.exe") || str_eq(
            name,
            "cargo-rail-action-x86_64-unknown-linux-gnu",
        );
        proof {
            assert(v[i as int].0 == name@);
        }
        if !named || assets[i].bytes == 0 || assets[i].bytes > MAX_RELEASE_RUNTIME_BYTES {
            ok = false;
        }
        i = i + 1;
    }
    ok
}

fn push_row(manifest: &mut String, target: &str, asset: &AssetRecord)
    ensures
        final(manifest)@ == old(manifest)@ + row_of(target@, asset_view(*asset)),
{
    let ghost start = manifest@;
    push_str(manifest, target);
    push_str(manifest, "\t");
    push_str(manifest, asset.name.as_str());
    push_str(manifest, "\t");
    let n = u64_text(asset.bytes);
    push_str(manifest, n.as_str());
    push_str(manifest, "\t");
    push_str(manifest, asset.sha256.as_str());
    push_str(manifest, "\n");
    proof {
        assert(manifest@ =~= start + row_of(target@, asset_view(*asset)));
    }
}

/// The manifest row of a target and its executable.
pub open spec fn row_of(target: Seq<char>, a: (Seq<char>, u64, Seq<char>)) -> Seq<char> {
    target + "\t"@ + a.0 + "\t"@ + decimal(a.1 as nat) + "\t"@ + a.2 + "\n"@
}

fn manifest_string(d: &AssetRecord, a: &AssetRecord, w: &AssetRecord, l: &AssetRecord, version: &str) -> (r: String)
    ensures
        r@ == "cargo-rail-action-runtime-v1\t"@ + version@ + "\n"@ + row_of("aarch64-apple-darwin"@, asset_view(*d))
            + row_of("aarch64-unknown-linux-gnu"@, asset_view(*a)) + row_of("x86_64-pc-windows-msvc"@, asset_view(*w))
            + row_of("x86_64-unknown-linux-gnu"@, asset_view(*l)),
{
    let mut manifest = crate::text::owned("cargo-rail-action-runtime-v1\t");
    push_str(&mut manifest, version);
    push_str(&mut manifest, "\n");
    push_row(&mut manifest, "aarch64-apple-darwin", d);
    push_row(&mut manifest, "aarch64-unknown-linux-gnu", a);
    push_row(&mut manifest, "x86_64-pc-windows-msvc", w);
    push_row(&mut manifest, "x86_64-unknown-linux-gnu", l);
    manifest
}

/// The runtime manifest of a release of `version` whose assets are exactly the source license
/// and a bounded executable of each qualified target: a header line, then one line per target
/// with its executable's name, size and digest.
pub fn generate_runtime_manifest(assets: &[AssetRecord], license: &[u8], version: &str) -> (r: Result<
    Vec<u8>,
    ActionError,
>)
    ensures
        r is Ok <==> manifest_assets_ok(assets_view(assets@), license@),
        r matches Err(e) ==> e.kind == ErrorKind::Rejected && e.message@
            == "runtime manifest generation requires the exact qualified bounded executables and source LICENSE"@,
        r matches Ok(bytes) ==> bytes@ == encode_utf8(manifest_text(assets_view(assets@), version@)),
{
    let ghost v = assets_view(assets@);
    let ok = all_named_and_bounded(assets);
    let license_asset = find_last(assets, "LICENSE");
    let license_ok = match license_asset {
        Some(a) => {
            let n = license.len();
            let digest = hex_digest(license);
            a.bytes == n as u64 && str_eq(a.sha256.as_str(), digest.as_str())
        },
        None => false,
    };
    let darwin = find_last(assets, "cargo-rail-action-aarch64-apple-darwin");
    let arm = find_last(assets, "cargo-rail-action-aarch64-unknown-linux-gnu");
    let windows = find_last(assets, "cargo-rail-action-x86_64-pc-windows-msvc.exe");
    let linux = find_last(assets, "cargo-rail-action-x86_64-unknown-linux-gnu");
    proof {
        lemma_qualified_runtime_names();
    }
    match (darwin, arm, windows, linux) {
        (Some(d), Some(a), Some(w), Some(l)) => {
            if !ok || !license_ok {
                return Err(rejection(
                    "runtime manifest generation requires the exact qualified bounded executables and source LICENSE",
                ));
            }
            let manifest = manifest_string(d, a, w, l, version);
            proof {
                assert(qualified_targets()[0] == "aarch64-apple-darwin"@);
                assert(qualified_targets()[1] == "aarch64-unknown-linux-gnu"@);
                assert(qualified_targets()[2] == "x86_64-pc-windows-msvc"@);
                assert(qualified_targets()[3] == "x86_64-unknown-linux-gnu"@);
            }
            Ok(bytes_of(manifest.as_str()))
        },
        _ => {
            proof {
                assert(!has_asset(v, spec_runtime_name(qualified_targets()[0])) || !has_asset(
                    v,
                    spec_runtime_name(qualified_targets()[1]),
                ) || !has_asset(v, spec_runtime_name(qualified_targets()[2])) || !has_asset(
                    v,
                    spec_runtime_name(qualified_targets()[3]),
                ));
            }
            Err(rejection(
                "runtime manifest generation requires the exact qualified bounded executables and source LICENSE",
            ))
        },
    }
}

} // verus!
