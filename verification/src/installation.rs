//! Immutable Cargo-Rail installations: the receipt an installation carries, the checks that an
//! installation on disk is the one its receipt describes, and the names under which installations
//! and the Action's own runtime are found.

use vstd::prelude::*;
use vstd::utf8::{decode_utf8, valid_utf8};

use crate::archive::{entry_of, rows_match, utf8_text};
use crate::error::{rejection, ActionError, ErrorKind};
use crate::install::{
    corrupt_installation, parse_manifest_entry, row_message, spec_accepts, spec_component_name, spec_manifest_row,
    spec_valid_digest, valid_digest, ComponentSet, ManifestEntry, RowOutcome,
};
use crate::text::{chars_of, concat, concat3, decimal, has_char, push_str, spec_lines, starts_with, str_eq, string_of};

verus! {

/// The file name of an installation receipt.
pub open spec fn receipt_file_name() -> Seq<char> {
    "cargo-rail-action-install-v1.tsv"@
}

/// The first line of the receipt of an installation.
pub open spec fn receipt_header(
    version: Seq<char>,
    target: Seq<char>,
    set: ComponentSet,
    manifest_digest: Seq<char>,
) -> Seq<char> {
    "cargo-rail-action-installed-v1\t"@ + version + "\t"@ + target + "\t"@ + spec_component_name(set) + "\t"@
        + manifest_digest
}

/// The receipt row of a component.
pub open spec fn receipt_row(e: ManifestEntry) -> Seq<char> {
    e.name@ + "\t"@ + e.digest@ + "\t"@ + decimal(e.bytes as nat) + "\t"@ + e.capability@ + "\n"@
}

/// The rows of the first `n` entries whose capability the set installs.
pub open spec fn receipt_rows(entries: Seq<ManifestEntry>, set: ComponentSet, n: nat) -> Seq<char>
    decreases n,
{
    if n == 0 || n > entries.len() {
        Seq::empty()
    } else {
        receipt_rows(entries, set, (n - 1) as nat) + if spec_accepts(set, entries[n - 1].capability@) {
            receipt_row(entries[n - 1])
        } else {
            Seq::empty()
        }
    }
}

/// The receipt of an installation: its header line, then a row for each installed component.
pub open spec fn spec_receipt_text(
    version: Seq<char>,
    target: Seq<char>,
    set: ComponentSet,
    manifest_digest: Seq<char>,
    entries: Seq<ManifestEntry>,
) -> Seq<char> {
    receipt_header(version, target, set, manifest_digest) + "\n"@ + receipt_rows(entries, set, entries.len())
}

/// The receipt of an installation of the components of `entries` that `set` installs.
pub fn receipt_text(
    version: &str,
    target: &str,
    set: ComponentSet,
    manifest_digest: &str,
    entries: &[ManifestEntry],
) -> (r: String)
    ensures
        r@ == spec_receipt_text(version@, target@, set, manifest_digest@, entries@),
{
    let mut receipt = concat("cargo-rail-action-installed-v1\t", version);
    push_str(&mut receipt, "\t");
    push_str(&mut receipt, target);
    push_str(&mut receipt, "\t");
    push_str(&mut receipt, set.as_str());
    push_str(&mut receipt, "\t");
    push_str(&mut receipt, manifest_digest);
    push_str(&mut receipt, "\n");
    let ghost head = receipt@;
    let mut i: usize = 0;
    while i < entries.len()
        invariant
            i <= entries@.len(),
            receipt@ == head + receipt_rows(entries@, set, i as nat),
        decreases entries@.len() - i,
    {
        if set.accepts(entries[i].capability.as_str()) {
            let ghost before = receipt@;
            push_str(&mut receipt, entries[i].name.as_str());
            push_str(&mut receipt, "\t");
            push_str(&mut receipt, entries[i].digest.as_str());
            push_str(&mut receipt, "\t");
            let size = crate::text::u64_text(entries[i].bytes);
            push_str(&mut receipt, size.as_str());
            push_str(&mut receipt, "\t");
            push_str(&mut receipt, entries[i].capability.as_str());
            push_str(&mut receipt, "\n");
            proof {
                assert(receipt@ =~= before + receipt_row(entries@[i as int]));
            }
        }
        proof {
            assert(receipt@ =~= head + receipt_rows(entries@, set, (i + 1) as nat));
        }
        i = i + 1;
    }
    receipt
}

/// The first row among the first `n` that is not a component entry, as its refusal reads.
pub open spec fn receipt_rows_failure(rows: Seq<Seq<char>>, n: nat) -> Option<Seq<char>>
    decreases n,
{
    if n == 0 || n > rows.len() {
        None
    } else {
        match receipt_rows_failure(rows, (n - 1) as nat) {
            Some(m) => Some(m),
            None => match spec_manifest_row(rows[n - 1]) {
                RowOutcome::Entry { .. } => None,
                o => Some("installation receipt"@ + row_message(o)),
            },
        }
    }
}

proof fn lemma_receipt_failure_stays(rows: Seq<Seq<char>>, k: nat, m: nat)
    requires
        k <= m <= rows.len(),
        receipt_rows_failure(rows, k) is Some,
    ensures
        receipt_rows_failure(rows, m) == receipt_rows_failure(rows, k),
    decreases m,
{
    if m > k {
        lemma_receipt_failure_stays(rows, k, (m - 1) as nat);
    }
}

/// The message of a corrupt installation.
pub open spec fn corrupt_message(directory: Seq<char>, detail: Seq<char>) -> Seq<char> {
    "immutable Cargo-Rail installation '"@ + directory + "' is corrupt ("@ + detail
        + "); remove that exact directory and rerun"@
}

/// Why a receipt is refused before its components are weighed against the requested set, if it is.
pub open spec fn receipt_failure(
    receipt: Seq<u8>,
    directory: Seq<char>,
    version: Seq<char>,
    target: Seq<char>,
    set: ComponentSet,
    manifest_digest: Seq<char>,
) -> Option<Seq<char>> {
    let text = decode_utf8(receipt);
    let lines = spec_lines(text);
    let rows = lines.skip(1);
    if !valid_utf8(receipt) {
        Some("installation receipt is not UTF-8"@)
    } else if has_char(text, '\r') || !(text.len() > 0 && text.last() == '\n') {
        Some(corrupt_message(directory, "receipt is not canonical LF-only text"@))
    } else if lines.len() == 0 || lines[0] != receipt_header(version, target, set, manifest_digest) {
        Some(corrupt_message(directory, "receipt authority is incompatible"@))
    } else if receipt_rows_failure(rows, rows.len()) is Some {
        receipt_rows_failure(rows, rows.len())
    } else if rows.len() == 0 {
        Some(corrupt_message(directory, "receipt has no components"@))
    } else {
        None
    }
}

/// Whether receipt entries are a complete, duplicate-free inventory of components the set
/// installs, each with its expected capability for the target.
pub open spec fn selected_ok(entries: Seq<ManifestEntry>, target: Seq<char>, set: ComponentSet) -> bool {
    &&& forall|i: int| 0 <= i < entries.len() ==> crate::install::entry_expected(entries, target, i)
    &&& crate::install::counts_complete(entries, set)
    &&& crate::install::names_distinct(entries)
    &&& forall|i: int| 0 <= i < entries.len() ==> spec_accepts(set, #[trigger] entries[i].capability@)
}

/// The components an installation's receipt lists: the receipt must be LF-only UTF-8 text whose
/// header names this version, target, set and manifest digest, followed by at least one valid
/// row, and the rows must be the complete requested components.
pub fn check_receipt(
    receipt: &[u8],
    directory: &str,
    version: &str,
    target: &str,
    set: ComponentSet,
    manifest_digest: &str,
) -> (r: Result<Vec<ManifestEntry>, ActionError>)
    ensures
        r matches Err(e) ==> e.kind == ErrorKind::Rejected,
        match receipt_failure(receipt@, directory@, version@, target@, set, manifest_digest@) {
            Some(m) => r matches Err(e) && e.message@ == m,
            None => {
                &&& (r matches Ok(entries) ==> rows_match(entries@, receipt@) && selected_ok(entries@, target@, set))
                &&& (forall|es: Seq<ManifestEntry>| rows_match(es, receipt@) ==> #[trigger] selected_ok(
                    es,
                    target@,
                    set,
                )) ==> r is Ok
            },
        },
{
    let text = match utf8_text(receipt) {
        Some(t) => t,
        None => {
            return Err(rejection("installation receipt is not UTF-8"));
        },
    };
    let chars = chars_of(text.as_str());
    let n = chars.len();
    if crate::text::contains_char(&chars, '\r') || !(n > 0 && chars[n - 1] == '\n') {
        return corrupt_installation(directory, "receipt is not canonical LF-only text");
    }
    let lines = crate::text::lines_of(&chars);
    let ghost all = spec_lines(chars@);
    let ghost rows = all.skip(1);
    let mut header = concat("cargo-rail-action-installed-v1\t", version);
    push_str(&mut header, "\t");
    push_str(&mut header, target);
    push_str(&mut header, "\t");
    push_str(&mut header, set.as_str());
    push_str(&mut header, "\t");
    push_str(&mut header, manifest_digest);
    if lines.len() == 0 || !crate::text::chars_are(&lines[0], header.as_str()) {
        return corrupt_installation(directory, "receipt authority is incompatible");
    }
    let mut entries: Vec<ManifestEntry> = Vec::new();
    let mut i: usize = 1;
    while i < lines.len()
        invariant
            1 <= i <= lines@.len() == all.len(),
            rows == all.skip(1),
            valid_utf8(receipt@),
            chars@ == decode_utf8(receipt@),
            !(has_char(chars@, '\r') || !(chars@.len() > 0 && chars@.last() == '\n')),
            all == spec_lines(chars@),
            all.len() > 0 && all[0] == receipt_header(version@, target@, set, manifest_digest@),
            forall|j: int| 0 <= j < lines@.len() ==> #[trigger] lines@[j]@ == all[j],
            entries@.len() == i - 1,
            receipt_rows_failure(rows, (i - 1) as nat) is None,
            forall|j: int| 0 <= j < entries@.len() ==> spec_manifest_row(rows[j]) == entry_of(#[trigger] entries@[j]),
        decreases lines@.len() - i,
    {
        let line = string_of(&lines[i]);
        proof {
            assert(rows[i - 1] == all[i as int]);
        }
        let entry = match parse_manifest_entry(line.as_str(), "installation receipt") {
            Ok(e) => e,
            Err(e) => {
                proof {
                    lemma_receipt_failure_stays(rows, i as nat, rows.len());
                }
                return Err(e);
            },
        };
        entries.push(entry);
        i = i + 1;
    }
    if entries.len() == 0 {
        return corrupt_installation(directory, "receipt has no components");
    }
    proof {
        assert(rows_match(entries@, receipt@));
    }
    match crate::install::validate_selected_entries(entries.as_slice(), target, set) {
        Ok(()) => Ok(entries),
        Err(e) => {
            proof {
                assert(!selected_ok(entries@, target@, set));
            }
            Err(e)
        },
    }
}


/// The names of entries.
pub open spec fn entry_names(entries: Seq<ManifestEntry>) -> Seq<Seq<char>> {
    entries.map_values(|e: ManifestEntry| e.name@)
}

/// Whether the names in an installation directory, besides its receipt, are exactly the names of
/// the receipt's components.
pub open spec fn inventory_matches(actual: Seq<Seq<char>>, entries: Seq<ManifestEntry>) -> bool {
    forall|x: Seq<char>| (#[trigger] actual.contains(x) && x != receipt_file_name()) <==> entry_names(entries).contains(x)
}

fn name_listed(entries: &[ManifestEntry], name: &str) -> (r: bool)
    ensures
        r == entry_names(entries@).contains(name@),
{
    let mut i: usize = 0;
    while i < entries.len()
        invariant
            i <= entries@.len(),
            forall|j: int| 0 <= j < i ==> entries@[j].name@ != name@,
        decreases entries@.len() - i,
    {
        if str_eq(entries[i].name.as_str(), name) {
            proof {
                assert(entry_names(entries@)[i as int] == name@);
            }
            return true;
        }
        i = i + 1;
    }
    proof {
        if entry_names(entries@).contains(name@) {
            let j = choose|j: int| 0 <= j < entries@.len() && entry_names(entries@)[j] == name@;
            assert(entries@[j].name@ == name@);
        }
    }
    false
}

fn name_present(names: &Vec<String>, name: &str) -> (r: bool)
    ensures
        r == crate::validation::strs_view(names@).contains(name@),
{
    let mut i: usize = 0;
    while i < names.len()
        invariant
            i <= names@.len(),
            forall|j: int| 0 <= j < i ==> names@[j]@ != name@,
        decreases names@.len() - i,
    {
        if str_eq(names[i].as_str(), name) {
            proof {
                assert(crate::validation::strs_view(names@)[i as int] == name@);
            }
            return true;
        }
        i = i + 1;
    }
    proof {
        if crate::validation::strs_view(names@).contains(name@) {
            let j = choose|j: int| 0 <= j < names@.len() && crate::validation::strs_view(names@)[j] == name@;
            assert(names@[j]@ == name@);
        }
    }
    false
}

/// Refuses an installation directory whose names, besides its receipt, are not exactly the
/// receipt's components.
pub fn check_installed_inventory(directory: &str, entries: &[ManifestEntry], actual: &Vec<String>) -> (r: Result<
    (),
    ActionError,
>)
    ensures
        r is Ok <==> inventory_matches(crate::validation::strs_view(actual@), entries@),
        r matches Err(e) ==> e.kind == ErrorKind::Rejected && e.message@ == corrupt_message(
            directory@,
            "directory inventory disagrees with its receipt"@,
        ),
{
    let ghost av = crate::validation::strs_view(actual@);
    let mut i: usize = 0;
    while i < actual.len()
        invariant
            i <= actual@.len(),
            av == crate::validation::strs_view(actual@),
            forall|j: int| 0 <= j < i ==> (#[trigger] av[j] != receipt_file_name() ==> entry_names(entries@).contains(
                av[j],
            )),
        decreases actual@.len() - i,
    {
        proof {
            assert(av[i as int] == actual@[i as int]@);
        }
        if !str_eq(actual[i].as_str(), "cargo-rail-action-install-v1.tsv") && !name_listed(entries, actual[i].as_str()) {
            proof {
                assert(av.contains(av[i as int]));
            }
            return corrupt_installation(directory, "directory inventory disagrees with its receipt");
        }
        i = i + 1;
    }
    let mut k: usize = 0;
    while k < entries.len()
        invariant
            k <= entries@.len(),
            av == crate::validation::strs_view(actual@),
            forall|j: int| 0 <= j < actual@.len() ==> (#[trigger] av[j] != receipt_file_name() ==> entry_names(
                entries@,
            ).contains(av[j])),
            forall|j: int| 0 <= j < k ==> #[trigger] entry_names(entries@)[j] != receipt_file_name() && av.contains(
                entry_names(entries@)[j],
            ),
        decreases entries@.len() - k,
    {
        proof {
            assert(entry_names(entries@)[k as int] == entries@[k as int].name@);
        }
        if str_eq(entries[k].name.as_str(), "cargo-rail-action-install-v1.tsv") || !name_present(
            actual,
            entries[k].name.as_str(),
        ) {
            proof {
                assert(entry_names(entries@).contains(entries@[k as int].name@));
                let x = entries@[k as int].name@;
                assert(av.contains(x) || !av.contains(x));
                if av.contains(x) {
                    assert(x == receipt_file_name());
                }
                assert(!inventory_matches(av, entries@));
            }
            return corrupt_installation(directory, "directory inventory disagrees with its receipt");
        }
        k = k + 1;
    }
    proof {
        assert forall|x: Seq<char>| (#[trigger] av.contains(x) && x != receipt_file_name()) <==> entry_names(
            entries@,
        ).contains(x) by {
            if av.contains(x) && x != receipt_file_name() {
                let j = choose|j: int| 0 <= j < av.len() && av[j] == x;
                assert(av[j] != receipt_file_name());
            }
            if entry_names(entries@).contains(x) {
                let j = choose|j: int| 0 <= j < entry_names(entries@).len() && entry_names(entries@)[j] == x;
                assert(entry_names(entries@)[j] != receipt_file_name());
            }
        }
    }
    Ok(())
}

/// Refuses an installed component that is missing, not a regular unlinked file of its recorded
/// size (`observed` is whether it is such a file and its length; nothing when it is missing).
pub fn check_component(directory: &str, entry: &ManifestEntry, observed: Option<(bool, u64)>) -> (r: Result<
    (),
    ActionError,
>)
    ensures
        r is Ok <==> (observed matches Some((regular, len)) && regular && len == entry.bytes),
        observed is None ==> (r matches Err(e) && e.kind == ErrorKind::Rejected && e.message@
            == "installed component "@ + entry.name@ + " is missing"@),
        observed is Some ==> (r matches Err(e) ==> e.kind == ErrorKind::Rejected && e.message@ == corrupt_message(
            directory@,
            "component "@ + entry.name@ + " is missing or changed"@,
        )),
{
    match observed {
        None => Err(ActionError::rejected(concat3("installed component ", entry.name.as_str(), " is missing"))),
        Some((regular, len)) => {
            if !regular || len != entry.bytes {
                let detail = concat3("component ", entry.name.as_str(), " is missing or changed");
                return corrupt_installation(directory, detail.as_str());
            }
            Ok(())
        },
    }
}

/// Refuses an installed component whose digest is not the recorded one.
pub fn check_component_digest(directory: &str, entry: &ManifestEntry, digest: &str) -> (r: Result<(), ActionError>)
    ensures
        r is Ok <==> digest@ == entry.digest@,
        r matches Err(e) ==> e.kind == ErrorKind::Rejected && e.message@ == corrupt_message(
            directory@,
            "component "@ + entry.name@ + " digest changed"@,
        ),
{
    if !str_eq(digest, entry.digest.as_str()) {
        let detail = concat3("component ", entry.name.as_str(), " digest changed");
        return corrupt_installation(directory, detail.as_str());
    }
    Ok(())
}

/// Refuses an installed Cargo-Rail whose `--version` output is not `cargo-rail <version>`.
pub fn check_binary_version(output: &[u8], version: &str) -> (r: Result<(), ActionError>)
    ensures
        r is Ok <==> valid_utf8(output@) && crate::text::trim(decode_utf8(output@)) == "cargo-rail "@ + version@,
        r matches Err(e) ==> e.kind == ErrorKind::Rejected && e.message@ == if valid_utf8(output@) {
            "installed Cargo-Rail version disagrees with requested "@ + version@
        } else {
            "installed Cargo-Rail version output is not UTF-8"@
        },
{
    let text = match utf8_text(output) {
        Some(t) => t,
        None => {
            return Err(rejection("installed Cargo-Rail version output is not UTF-8"));
        },
    };
    let trimmed = crate::workflow_text::trim_chars(&chars_of(text.as_str()));
    let expected = concat("cargo-rail ", version);
    if !crate::text::chars_are(&trimmed, expected.as_str()) {
        return Err(ActionError::rejected(concat("installed Cargo-Rail version disagrees with requested ", version)));
    }
    Ok(())
}

/// The prefix of the installation directories of a component set.
pub open spec fn installation_prefix(set: ComponentSet) -> Seq<char> {
    spec_component_name(set) + "-"@
}

/// The names among the first `n` that start with the prefix, with whether each is exact UTF-8.
pub open spec fn candidates(names: Seq<(Seq<char>, bool)>, prefix: Seq<char>, n: nat) -> Seq<(Seq<char>, bool)>
    decreases n,
{
    if n == 0 || n > names.len() {
        Seq::empty()
    } else if starts_with(names[n - 1].0, prefix) {
        candidates(names, prefix, (n - 1) as nat).push(names[n - 1])
    } else {
        candidates(names, prefix, (n - 1) as nat)
    }
}

proof fn lemma_candidates_prefixed(names: Seq<(Seq<char>, bool)>, prefix: Seq<char>, n: nat)
    ensures
        forall|j: int| 0 <= j < candidates(names, prefix, n).len() ==> starts_with(
            (#[trigger] candidates(names, prefix, n)[j]).0,
            prefix,
        ),
    decreases n,
{
    if n > 0 && n <= names.len() {
        lemma_candidates_prefixed(names, prefix, (n - 1) as nat);
        let prev = candidates(names, prefix, (n - 1) as nat);
        if starts_with(names[n - 1].0, prefix) {
            assert forall|j: int| 0 <= j < candidates(names, prefix, n).len() implies starts_with(
                (#[trigger] candidates(names, prefix, n)[j]).0,
                prefix,
            ) by {
                if j < prev.len() {
                    assert(candidates(names, prefix, n)[j] == prev[j]);
                }
            }
        }
    }
}

/// What looking for a reusable installation among the names of a target's installation root
/// gives: a failure message, nothing, or the one installation's name and manifest digest.
pub open spec fn selection_outcome(names: Seq<(Seq<char>, bool)>, set: ComponentSet, root: Seq<char>) -> Result<
    Option<(Seq<char>, Seq<char>)>,
    Seq<char>,
> {
    let prefix = installation_prefix(set);
    let c = candidates(names, prefix, names.len());
    if c.len() > 1 {
        Err("multiple immutable "@ + spec_component_name(set) + " installations exist under '"@ + root
            + "'; remove the stale directories explicitly"@)
    } else if c.len() == 0 {
        Ok(None)
    } else if !c[0].1 {
        Err("immutable installation directory name is not UTF-8"@)
    } else if !spec_valid_digest(c[0].0.skip(prefix.len() as int)) {
        Err("immutable installation directory has an invalid manifest identity"@)
    } else {
        Ok(Some((c[0].0, c[0].0.skip(prefix.len() as int))))
    }
}

/// The one installation of a set that a target's installation root may hold, by the names in that
/// root (each with whether it is exact UTF-8), and its manifest digest.
pub fn select_installation(names: &Vec<(String, bool)>, set: ComponentSet, root: &str) -> (r: Result<
    Option<(String, String)>,
    ActionError,
>)
    ensures
        match selection_outcome(names@.map_values(|n: (String, bool)| (n.0@, n.1)), set, root@) {
            Ok(None) => r matches Ok(None),
            Ok(Some((n, d))) => r matches Ok(Some((a, b))) && a@ == n && b@ == d,
            Err(m) => r matches Err(e) && e.kind == ErrorKind::Rejected && e.message@ == m,
        },
{
    let ghost nv = names@.map_values(|n: (String, bool)| (n.0@, n.1));
    let prefix = concat(set.as_str(), "-");
    let prefix_chars = chars_of(prefix.as_str());
    let mut found: Vec<(String, bool)> = Vec::new();
    let mut i: usize = 0;
    while i < names.len()
        invariant
            i <= names@.len(),
            nv == names@.map_values(|n: (String, bool)| (n.0@, n.1)),
            prefix_chars@ == installation_prefix(set),
            found@.map_values(|n: (String, bool)| (n.0@, n.1)) == candidates(nv, installation_prefix(set), i as nat),
        decreases names@.len() - i,
    {
        let chars = chars_of(names[i].0.as_str());
        proof {
            assert(nv[i as int] == (names@[i as int].0@, names@[i as int].1));
        }
        if crate::text::has_prefix(&chars, &prefix_chars) {
            let ghost before = found@;
            found.push((crate::text::owned(names[i].0.as_str()), names[i].1));
            proof {
                assert(found@.map_values(|n: (String, bool)| (n.0@, n.1)) =~= before.map_values(
                    |n: (String, bool)| (n.0@, n.1),
                ).push(nv[i as int]));
            }
        }
        i = i + 1;
    }
    let ghost fv = found@.map_values(|n: (String, bool)| (n.0@, n.1));
    if found.len() > 1 {
        let mut m = concat3("multiple immutable ", set.as_str(), " installations exist under '");
        push_str(&mut m, root);
        push_str(&mut m, "'; remove the stale directories explicitly");
        return Err(ActionError::rejected(m));
    }
    if found.len() == 0 {
        return Ok(None);
    }
    proof {
        assert(fv[0] == (found@[0].0@, found@[0].1));
    }
    if !found[0].1 {
        return Err(rejection("immutable installation directory name is not UTF-8"));
    }
    let chars = chars_of(found[0].0.as_str());
    let n = chars.len();
    proof {
        lemma_candidates_prefixed(nv, installation_prefix(set), names@.len() as nat);
        assert(starts_with(fv[0].0, installation_prefix(set)));
    }
    let p = prefix_chars.len();
    let digest = string_of(&crate::text::sub_chars(&chars, p, n));
    proof {
        assert(chars@.subrange(p as int, n as int) =~= chars@.skip(p as int));
    }
    if !valid_digest(digest.as_str()) {
        return Err(rejection("immutable installation directory has an invalid manifest identity"));
    }
    Ok(Some((crate::text::owned(found[0].0.as_str()), digest)))
}

/// The name of an installation directory: the set and its manifest digest.
pub fn installation_name(set: ComponentSet, manifest_digest: &str) -> (r: String)
    ensures
        r@ == spec_component_name(set) + "-"@ + manifest_digest@,
{
    concat3(set.as_str(), "-", manifest_digest)
}

/// The lock that one installer holds while it publishes an installation.
pub fn publication_lock_name(set: ComponentSet, manifest_digest: &str) -> (r: String)
    ensures
        r@ == "."@ + spec_component_name(set) + "-"@ + manifest_digest@ + ".publication-lock"@,
{
    let mut name = concat3(".", set.as_str(), "-");
    push_str(&mut name, manifest_digest);
    push_str(&mut name, ".publication-lock");
    name
}

/// How many times an installer looks for another installer's publication before giving up.
pub const PUBLICATION_POLLS: u32 = 100;

/// What an installer that found another installer's publication lock does on its `attempt`th
/// look: verify the destination once it exists (`true`); wait and look again while the lock stands
/// (`false`); fail when the lock vanished without a destination, or after the last look.
pub fn publication_wait(attempt: u32, destination_exists: bool, lock_exists: bool, lock: &str) -> (r: Result<
    bool,
    ActionError,
>)
    ensures
        attempt < PUBLICATION_POLLS && destination_exists ==> r == Ok::<bool, ActionError>(true),
        attempt < PUBLICATION_POLLS && !destination_exists && lock_exists ==> r == Ok::<bool, ActionError>(false),
        attempt < PUBLICATION_POLLS && !destination_exists && !lock_exists ==> (r matches Err(e) && e.kind
            == ErrorKind::Operational && e.message@
            == "concurrent Cargo-Rail installation ended without publishing its immutable destination"@),
        attempt >= PUBLICATION_POLLS ==> (r matches Err(e) && e.kind == ErrorKind::Operational && e.message@
            == "concurrent Cargo-Rail installation did not finish; remove stale lock '"@ + lock@
            + "' only after proving no installer is active"@),
{
    if attempt >= PUBLICATION_POLLS {
        let mut m = concat("concurrent Cargo-Rail installation did not finish; remove stale lock '", lock);
        push_str(&mut m, "' only after proving no installer is active");
        return Err(ActionError::operational(m));
    }
    if destination_exists {
        return Ok(true);
    }
    if !lock_exists {
        return Err(crate::error::operational_failure(
            "concurrent Cargo-Rail installation ended without publishing its immutable destination",
        ));
    }
    Ok(false)
}

/// The prefix of the staging directory of an installation.
pub fn stage_prefix(set: ComponentSet) -> (r: String)
    ensures
        r@ == "."@ + spec_component_name(set) + "-stage"@,
{
    concat3(".", set.as_str(), "-stage")
}

/// The targets the Action supports.
pub open spec fn qualified_target(target: Seq<char>) -> bool {
    target == "aarch64-apple-darwin"@ || target == "x86_64-pc-windows-msvc"@ || target == "x86_64-unknown-linux-gnu"@
}

/// Refuses a target the Action does not support.
pub fn check_qualified_target(target: &str) -> (r: Result<(), ActionError>)
    ensures
        r is Ok <==> qualified_target(target@),
        r matches Err(e) ==> e.kind == ErrorKind::Rejected && e.message@
            == "this operating system, architecture, or libc is not advertised by Cargo-Rail Action v9"@,
{
    if !(str_eq(target, "aarch64-apple-darwin") || str_eq(target, "x86_64-pc-windows-msvc") || str_eq(
        target,
        "x86_64-unknown-linux-gnu",
    )) {
        return Err(rejection("this operating system, architecture, or libc is not advertised by Cargo-Rail Action v9"));
    }
    Ok(())
}

/// The download URL of a file of a Cargo-Rail release.
pub fn release_asset_url(version: &str, file: &str) -> (r: String)
    ensures
        r@ == "https://github.com/loadingalias/cargo-rail/releases/download/v"@ + version@ + "/"@ + file@,
{
    let mut url = concat("https://github.com/loadingalias/cargo-rail/releases/download/v", version);
    push_str(&mut url, "/");
    push_str(&mut url, file);
    url
}

/// Refuses a downloaded archive whose digest is not the one the checksum manifest gives.
pub fn check_archive_digest(actual: &str, expected: &str, archive: &str) -> (r: Result<(), ActionError>)
    ensures
        r is Ok <==> actual@ == expected@,
        r matches Err(e) ==> e.kind == ErrorKind::Rejected && e.message@ == "checksum mismatch for "@ + archive@,
{
    if !str_eq(actual, expected) {
        return Err(ActionError::rejected(concat("checksum mismatch for ", archive)));
    }
    Ok(())
}

/// The prefix of the components' archive paths.
pub fn component_prefix(directory: &str) -> (r: String)
    ensures
        r@ == if directory@.len() == 0 {
            ""@
        } else {
            directory@ + "/"@
        },
{
    if directory.is_empty() {
        crate::text::owned("")
    } else {
        concat(directory, "/")
    }
}

/// The component that an archive file holds: the last entry the set installs whose name is the
/// file's path past the prefix.
pub open spec fn component_at(entries: Seq<ManifestEntry>, set: ComponentSet, prefix: Seq<char>, path: Seq<char>) -> Option<int>
    decreases entries.len(),
{
    if entries.len() == 0 || !starts_with(path, prefix) {
        None
    } else if spec_accepts(set, entries.last().capability@) && entries.last().name@ == path.skip(prefix.len() as int) {
        Some(entries.len() - 1)
    } else {
        component_at(entries.drop_last(), set, prefix, path)
    }
}

/// The index of the component that an archive file holds, if the set installs it.
pub fn selected_component(entries: &[ManifestEntry], set: ComponentSet, prefix: &str, path: &str) -> (r: Option<usize>)
    ensures
        match component_at(entries@, set, prefix@, path@) {
            Some(i) => r == Some(i as usize),
            None => r is None,
        },
{
    let p = chars_of(prefix);
    let c = chars_of(path);
    if !crate::text::has_prefix(&c, &p) {
        proof {
            if entries@.len() > 0 {
                assert(!starts_with(path@, prefix@));
            }
        }
        return None;
    }
    let n = c.len();
    let rest = string_of(&crate::text::sub_chars(&c, p.len(), n));
    proof {
        assert(c@.subrange(p@.len() as int, n as int) =~= c@.skip(p@.len() as int));
    }
    let mut i: usize = entries.len();
    proof {
        assert(entries@.take(i as int) =~= entries@);
    }
    while i > 0
        invariant
            i <= entries@.len(),
            starts_with(path@, prefix@),
            rest@ == path@.skip(prefix@.len() as int),
            component_at(entries@, set, prefix@, path@) == component_at(entries@.take(i as int), set, prefix@, path@),
        decreases i,
    {
        proof {
            assert(entries@.take(i as int).drop_last() =~= entries@.take(i - 1));
            assert(entries@.take(i as int).last() == entries@[i - 1]);
        }
        if set.accepts(entries[i - 1].capability.as_str()) && str_eq(entries[i - 1].name.as_str(), rest.as_str()) {
            return Some(i - 1);
        }
        i = i - 1;
    }
    None
}

/// Refuses an extracted component whose copied size is not its recorded size.
pub fn check_extracted_size(entry: &ManifestEntry, copied: u64) -> (r: Result<(), ActionError>)
    ensures
        r is Ok <==> copied == entry.bytes,
        r matches Err(e) ==> e.kind == ErrorKind::Rejected && e.message@ == "component "@ + entry.name@
            + " size changed during extraction"@,
{
    if copied != entry.bytes {
        return Err(ActionError::rejected(concat3("component ", entry.name.as_str(), " size changed during extraction")));
    }
    Ok(())
}

/// Refuses an extracted component whose digest is not its recorded digest.
pub fn check_extracted_digest(entry: &ManifestEntry, digest: &str) -> (r: Result<(), ActionError>)
    ensures
        r is Ok <==> digest@ == entry.digest@,
        r matches Err(e) ==> e.kind == ErrorKind::Rejected && e.message@ == "component "@ + entry.name@
            + " digest changed during extraction"@,
{
    if !str_eq(digest, entry.digest.as_str()) {
        return Err(ActionError::rejected(concat3("component ", entry.name.as_str(), " digest changed during extraction")));
    }
    Ok(())
}

/// The manifest digest an Action runtime directory is named by: the executable must be
/// `cargo-rail-action-<target>` (`.exe` on Windows), and the directory `<target>-<digest>`.
pub open spec fn runtime_identity(
    executable: Option<Seq<char>>,
    directory: Option<Seq<char>>,
    target: Seq<char>,
    windows: bool,
) -> Result<Seq<char>, Seq<char>> {
    let expected = "cargo-rail-action-"@ + target + if windows {
        ".exe"@
    } else {
        ""@
    };
    let prefix = target + "-"@;
    if executable != Some(expected) {
        Err("action runtime executable name is invalid"@)
    } else {
        match directory {
            Some(d) => if starts_with(d, prefix) && spec_valid_digest(d.skip(prefix.len() as int)) {
                Ok(d.skip(prefix.len() as int))
            } else {
                Err("action runtime directory identity is invalid"@)
            },
            None => Err("action runtime directory identity is invalid"@),
        }
    }
}

/// The digest that names the Action's runtime directory, from the executable's and the
/// directory's UTF-8 names.
pub fn runtime_digest(executable: Option<&str>, directory: Option<&str>, target: &str, windows: bool) -> (r: Result<
    String,
    ActionError,
>)
    ensures
        match runtime_identity(
            match executable {
                Some(e) => Some(e@),
                None => None,
            },
            match directory {
                Some(d) => Some(d@),
                None => None,
            },
            target@,
            windows,
        ) {
            Ok(d) => r matches Ok(s) && s@ == d,
            Err(m) => r matches Err(e) && e.kind == ErrorKind::Rejected && e.message@ == m,
        },
{
    let expected = concat3("cargo-rail-action-", target, if windows {
        ".exe"
    } else {
        ""
    });
    let named = match executable {
        Some(e) => str_eq(e, expected.as_str()),
        None => false,
    };
    if !named {
        return Err(rejection("action runtime executable name is invalid"));
    }
    let prefix = concat(target, "-");
    let p = chars_of(prefix.as_str());
    match directory {
        Some(d) => {
            let c = chars_of(d);
            if crate::text::has_prefix(&c, &p) {
                let n = c.len();
                let digest = string_of(&crate::text::sub_chars(&c, p.len(), n));
                proof {
                    assert(c@.subrange(p@.len() as int, n as int) =~= c@.skip(p@.len() as int));
                }
                if valid_digest(digest.as_str()) {
                    return Ok(digest);
                }
            }
            Err(rejection("action runtime directory identity is invalid"))
        },
        None => Err(rejection("action runtime directory identity is invalid")),
    }
}

/// Refuses a runtime whose version or build target is not the expected one.
pub fn self_check(expect_version: &str, expect_target: &str, version: &str, target: &str) -> (r: Result<
    (),
    ActionError,
>)
    ensures
        r is Ok <==> expect_version@ == version@ && expect_target@ == target@,
        r matches Err(e) ==> e.kind == ErrorKind::Rejected && e.message@ == if expect_version@ != version@ {
            "runtime version is "@ + version@ + ", expected "@ + expect_version@
        } else {
            "runtime target is "@ + target@ + ", expected "@ + expect_target@
        },
{
    if !str_eq(expect_version, version) {
        let mut m = concat3("runtime version is ", version, ", expected ");
        push_str(&mut m, expect_version);
        return Err(ActionError::rejected(m));
    }
    if !str_eq(expect_target, target) {
        let mut m = concat3("runtime target is ", target, ", expected ");
        push_str(&mut m, expect_target);
        return Err(ActionError::rejected(m));
    }
    Ok(())
}

/// Text with no tab, line feed or carriage return.
pub open spec fn field_text(s: Seq<char>) -> bool {
    !has_char(s, '\t') && !has_char(s, '\n') && !has_char(s, '\r')
}

/// Text with no line feed or carriage return.
pub open spec fn line_text(s: Seq<char>) -> bool {
    !has_char(s, '\n') && !has_char(s, '\r')
}

/// A component that its receipt row records faithfully: a pathless name, a digest, a bounded
/// size and a capability, the texts free of tabs and line breaks.
pub open spec fn writable_entry(e: ManifestEntry) -> bool {
    &&& crate::install::pathless_name(e.name@) && field_text(e.name@)
    &&& spec_valid_digest(e.digest@)
    &&& e.bytes <= crate::install::MAX_COMPONENT_BYTES
    &&& e.capability@.len() > 0 && field_text(e.capability@)
}

/// A receipt row without its line feed.
pub open spec fn row_line(e: ManifestEntry) -> Seq<char> {
    e.name@ + "\t"@ + e.digest@ + "\t"@ + decimal(e.bytes as nat) + "\t"@ + e.capability@
}

/// The first `n` entries whose capability the set installs, in order.
pub open spec fn accepted_entries(entries: Seq<ManifestEntry>, set: ComponentSet, n: nat) -> Seq<ManifestEntry>
    decreases n,
{
    if n == 0 || n > entries.len() {
        Seq::empty()
    } else if spec_accepts(set, entries[n - 1].capability@) {
        accepted_entries(entries, set, (n - 1) as nat).push(entries[n - 1])
    } else {
        accepted_entries(entries, set, (n - 1) as nat)
    }
}

proof fn lemma_accepted_writable(entries: Seq<ManifestEntry>, set: ComponentSet, n: nat)
    requires
        forall|i: int| 0 <= i < entries.len() && spec_accepts(set, #[trigger] entries[i].capability@) ==> writable_entry(
            entries[i],
        ),
    ensures
        forall|k: int| 0 <= k < accepted_entries(entries, set, n).len() ==> writable_entry(
            #[trigger] accepted_entries(entries, set, n)[k],
        ),
    decreases n,
{
    if n > 0 && n <= entries.len() {
        lemma_accepted_writable(entries, set, (n - 1) as nat);
        let prev = accepted_entries(entries, set, (n - 1) as nat);
        let now = accepted_entries(entries, set, n);
        assert forall|k: int| 0 <= k < now.len() implies writable_entry(#[trigger] now[k]) by {
            if k < prev.len() {
                assert(now[k] == prev[k]);
            } else {
                assert(now[k] == entries[n - 1]);
            }
        }
    }
}

proof fn lemma_joined_concat(a: Seq<Seq<char>>, b: Seq<Seq<char>>)
    ensures
        crate::text::joined_lines(a + b) == crate::text::joined_lines(a) + crate::text::joined_lines(b),
    decreases b.len(),
{
    if b.len() == 0 {
        assert(a + b =~= a);
        assert(crate::text::joined_lines(b) =~= Seq::<char>::empty());
        assert(crate::text::joined_lines(a) + crate::text::joined_lines(b) =~= crate::text::joined_lines(a));
    } else {
        lemma_joined_concat(a, b.drop_last());
        assert((a + b).drop_last() =~= a + b.drop_last());
        assert((a + b).last() == b.last());
        assert(crate::text::joined_lines(a + b) =~= crate::text::joined_lines(a) + crate::text::joined_lines(b));
    }
}

proof fn lemma_rows_joined(entries: Seq<ManifestEntry>, set: ComponentSet, n: nat)
    ensures
        receipt_rows(entries, set, n) == crate::text::joined_lines(
            accepted_entries(entries, set, n).map_values(|e: ManifestEntry| row_line(e)),
        ),
    decreases n,
{
    if n > 0 && n <= entries.len() {
        lemma_rows_joined(entries, set, (n - 1) as nat);
        let prev = accepted_entries(entries, set, (n - 1) as nat).map_values(|e: ManifestEntry| row_line(e));
        if spec_accepts(set, entries[n - 1].capability@) {
            let now = accepted_entries(entries, set, n).map_values(|e: ManifestEntry| row_line(e));
            assert(now =~= prev.push(row_line(entries[n - 1])));
            assert(now.drop_last() =~= prev);
            assert(receipt_rows(entries, set, n) =~= crate::text::joined_lines(now));
        } else {
            assert(receipt_rows(entries, set, n) =~= receipt_rows(entries, set, (n - 1) as nat));
        }
    } else {
        assert(receipt_rows(entries, set, n) =~= Seq::<char>::empty());
        assert(accepted_entries(entries, set, n).map_values(|e: ManifestEntry| row_line(e)) =~= Seq::<Seq<char>>::empty());
    }
}

proof fn lemma_literal_clean()
    ensures
        field_text("\t"@.skip(1)),
        !has_char("\t"@, '\n') && !has_char("\t"@, '\r'),
        "\t"@ == seq!['\t'],
        line_text("cargo-rail-action-installed-v1\t"@),
        field_text("core"@) && field_text("cache"@) && field_text("surface"@) && field_text("complete"@),
{
    reveal_strlit("\t");
    reveal_strlit("cargo-rail-action-installed-v1\t");
    reveal_strlit("core");
    reveal_strlit("cache");
    reveal_strlit("surface");
    reveal_strlit("complete");
    assert("\t"@ =~= seq!['\t']);
}

proof fn lemma_line_concat(a: Seq<char>, b: Seq<char>)
    requires
        line_text(a),
        line_text(b),
    ensures
        line_text(a + b),
{
    crate::text::lemma_has_char_concat(a, b, '\n');
    crate::text::lemma_has_char_concat(a, b, '\r');
}

proof fn lemma_decimal_field(n: nat)
    ensures
        field_text(decimal(n)),
{
    crate::text::lemma_decimal_digits(n);
    let d = decimal(n);
    assert forall|c: char| c == '\t' || c == '\n' || c == '\r' implies !has_char(d, c) by {
        if has_char(d, c) {
            let i = choose|i: int| 0 <= i < d.len() && d[i] == c;
            assert(crate::text::is_ascii_digit(d[i]));
        }
    }
}

proof fn lemma_digest_field(d: Seq<char>)
    requires
        spec_valid_digest(d),
    ensures
        field_text(d),
{
    assert forall|c: char| c == '\t' || c == '\n' || c == '\r' implies !has_char(d, c) by {
        if has_char(d, c) {
            let i = choose|i: int| 0 <= i < d.len() && d[i] == c;
            assert(crate::text::is_lower_hex(d[i]));
        }
    }
}

proof fn lemma_row_reads_back(e: ManifestEntry)
    requires
        writable_entry(e),
    ensures
        spec_manifest_row(row_line(e)) == entry_of(e),
        line_text(row_line(e)),
{
    lemma_literal_clean();
    lemma_decimal_field(e.bytes as nat);
    lemma_digest_field(e.digest@);
    crate::text::lemma_decimal_digits(e.bytes as nat);
    let name = e.name@;
    let digest = e.digest@;
    let dec = decimal(e.bytes as nat);
    let cap = e.capability@;
    let t = seq!['\t'];
    assert(row_line(e) =~= name + t + digest + t + dec + t + cap);
    crate::text::lemma_split_on_append(name + t + digest + t + dec, '\t', cap);
    crate::text::lemma_split_on_append(name + t + digest, '\t', dec);
    crate::text::lemma_split_on_append(name, '\t', digest);
    crate::text::lemma_split_on_single(name, '\t');
    crate::text::lemma_split_on_single(digest, '\t');
    crate::text::lemma_split_on_single(dec, '\t');
    crate::text::lemma_split_on_single(cap, '\t');
    let fields = crate::text::split_on(row_line(e), '\t');
    assert(fields =~= seq![name, digest, dec, cap]);
    assert(crate::install::canonical_size(dec));
    assert(crate::repository::digits_value(dec) == e.bytes);
    assert(line_text(t)) by {
        assert(!has_char(t, '\n')) by {
            if has_char(t, '\n') {
                let i = choose|i: int| 0 <= i < t.len() && t[i] == '\n';
            }
        }
        assert(!has_char(t, '\r')) by {
            if has_char(t, '\r') {
                let i = choose|i: int| 0 <= i < t.len() && t[i] == '\r';
            }
        }
    }
    lemma_line_concat(name, t);
    lemma_line_concat(name + t, digest);
    lemma_line_concat(name + t + digest, t);
    lemma_line_concat(name + t + digest + t, dec);
    lemma_line_concat(name + t + digest + t + dec, t);
    lemma_line_concat(name + t + digest + t + dec + t, cap);
}

proof fn lemma_rows_all_entries(rows: Seq<Seq<char>>, n: nat)
    requires
        n <= rows.len(),
        forall|k: int| 0 <= k < rows.len() ==> spec_manifest_row(#[trigger] rows[k]) is Entry,
    ensures
        receipt_rows_failure(rows, n) is None,
    decreases n,
{
    if n > 0 {
        lemma_rows_all_entries(rows, (n - 1) as nat);
        assert(spec_manifest_row(rows[n - 1]) is Entry);
    }
}

/// What a receipt records is what reading it gives back: when the header values hold no line
/// break, each installed component is writable, and the set installs at least one, the receipt
/// text is accepted up to the completeness check, and its rows are exactly the installed
/// components in order.
pub proof fn law_receipt_reads_back(
    version: Seq<char>,
    target: Seq<char>,
    set: ComponentSet,
    manifest_digest: Seq<char>,
    entries: Seq<ManifestEntry>,
    directory: Seq<char>,
)
    requires
        line_text(version),
        line_text(target),
        line_text(manifest_digest),
        forall|i: int| 0 <= i < entries.len() && spec_accepts(set, #[trigger] entries[i].capability@) ==> writable_entry(
            entries[i],
        ),
        accepted_entries(entries, set, entries.len()).len() > 0,
    ensures
        ({
            let bytes = vstd::utf8::encode_utf8(spec_receipt_text(version, target, set, manifest_digest, entries));
            &&& receipt_failure(bytes, directory, version, target, set, manifest_digest) is None
            &&& rows_match(accepted_entries(entries, set, entries.len()), bytes)
        }),
{
    let acc = accepted_entries(entries, set, entries.len());
    let header = receipt_header(version, target, set, manifest_digest);
    let rows = acc.map_values(|e: ManifestEntry| row_line(e));
    let lines = seq![header] + rows;
    let text = spec_receipt_text(version, target, set, manifest_digest, entries);
    lemma_literal_clean();
    lemma_accepted_writable(entries, set, entries.len());
    // The header is one line.
    let t = "\t"@;
    assert(line_text(t)) by {
        assert(!has_char("\t"@, '\n') && !has_char("\t"@, '\r'));
    }
    assert(line_text(spec_component_name(set))) by {
        match set {
            ComponentSet::Core => {},
            ComponentSet::Cache => {},
            ComponentSet::Surface => {},
            ComponentSet::Complete => {},
        }
    }
    lemma_line_concat("cargo-rail-action-installed-v1\t"@, version);
    lemma_line_concat("cargo-rail-action-installed-v1\t"@ + version, t);
    lemma_line_concat("cargo-rail-action-installed-v1\t"@ + version + t, target);
    lemma_line_concat("cargo-rail-action-installed-v1\t"@ + version + t + target, t);
    lemma_line_concat("cargo-rail-action-installed-v1\t"@ + version + t + target + t, spec_component_name(set));
    lemma_line_concat(
        "cargo-rail-action-installed-v1\t"@ + version + t + target + t + spec_component_name(set),
        t,
    );
    lemma_line_concat(
        "cargo-rail-action-installed-v1\t"@ + version + t + target + t + spec_component_name(set) + t,
        manifest_digest,
    );
    assert(line_text(header));
    // Every row is one line that reads back as its component.
    assert forall|k: int| 0 <= k < acc.len() implies spec_manifest_row(#[trigger] rows[k]) == entry_of(acc[k])
        && line_text(rows[k]) by {
        lemma_row_reads_back(acc[k]);
    }
    assert forall|i: int| 0 <= i < lines.len() implies !has_char(#[trigger] lines[i], '\n') && !has_char(
        lines[i],
        '\r',
    ) by {
        if i > 0 {
            assert(lines[i] == rows[i - 1]);
        }
    }
    // The text is those lines.
    lemma_rows_joined(entries, set, entries.len());
    lemma_joined_concat(seq![header], rows);
    reveal_strlit("\n");
    assert(crate::text::joined_lines(seq![header]) =~= header + "\n"@) by {
        assert(seq![header].drop_last() =~= Seq::<Seq<char>>::empty());
        assert(crate::text::joined_lines(Seq::<Seq<char>>::empty()) =~= Seq::<char>::empty());
    }
    assert(text =~= crate::text::joined_lines(lines));
    crate::text::lemma_lines_of_joined(lines);
    crate::text::lemma_joined_ends(lines);
    crate::text::lemma_joined_no_cr(lines);
    vstd::utf8::encode_utf8_valid_utf8(text);
    vstd::utf8::encode_utf8_decode_utf8(text);
    let bytes = vstd::utf8::encode_utf8(text);
    assert(decode_utf8(bytes) == text);
    assert(spec_lines(text).skip(1) =~= rows);
    lemma_rows_all_entries(rows, rows.len());
}
} // verus!
