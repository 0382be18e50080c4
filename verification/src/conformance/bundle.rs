//! The files that a fixture is bound to.
//!
//! Paths are relative to the bundle and separate their parts by `/`. Two spellings
//! with the same parts are one path.

use crate::conformance::{
    defect, ConformanceError, ConformanceFixture, Defect, DefectKind, DefectView, ProjectBundle,
    PathLabel, ProjectFileHash,
};
use crate::map::{lemma_map_of, TextMap};
use crate::path::{
    base_name, is_relative, path_key, scan_path, validate_relative_path,
};
use crate::text::{
    before, chars_of, comes_before, joined, lemma_before_total, lemma_before_transitive, lower, lowered,
    quoted, quoted_text, same,
};
use sha2::{Digest, Sha256};
use vstd::prelude::*;

verus! {

/// What a directory entry is.
#[derive(Debug, Clone, Copy, PartialEq, Eq, Structural)]
pub enum FileKind {
    /// A regular file.
    File,
    /// A directory.
    Directory,
    /// A symbolic link.
    Symlink,
    /// Something else.
    Other,
}

/// What is wrong with a part of a bundle path: the last part is a regular file, every
/// other one a directory, and none a link.
pub open spec fn part_defect(kind: FileKind, last: bool) -> Option<DefectKind> {
    match (kind, last) {
        (FileKind::Symlink, _) => Some(DefectKind::Symlink),
        (FileKind::File, true) => None,
        (FileKind::Directory, false) => None,
        (_, true) => Some(DefectKind::NotFile),
        (_, false) => Some(DefectKind::NotDirectory),
    }
}

/// Holds a part of a bundle path to what it must be.
pub fn resolve_bundle_part(kind: FileKind, last: bool) -> (r: Option<DefectKind>)
    ensures
        r == part_defect(kind, last),
{
    match (kind, last) {
        (FileKind::Symlink, _) => Some(DefectKind::Symlink),
        (FileKind::File, true) => None,
        (FileKind::Directory, false) => None,
        (_, true) => Some(DefectKind::NotFile),
        (_, false) => Some(DefectKind::NotDirectory),
    }
}

/// What is wrong with a directory that scripts are taken from.
pub open spec fn script_root_defect(kind: FileKind) -> Option<DefectKind> {
    match kind {
        FileKind::Symlink => Some(DefectKind::ScriptSymlink),
        FileKind::Directory => None,
        _ => Some(DefectKind::NoScriptRoot),
    }
}

/// Holds a directory that scripts are taken from to what it must be.
pub fn resolve_script_root(kind: FileKind) -> (r: Option<DefectKind>)
    ensures
        r == script_root_defect(kind),
{
    match kind {
        FileKind::Symlink => Some(DefectKind::ScriptSymlink),
        FileKind::Directory => None,
        _ => Some(DefectKind::NoScriptRoot),
    }
}

/// Whether a file name is that of a script.
pub open spec fn is_script_name(name: Seq<char>) -> bool {
    name.len() > 6 && name.skip(name.len() - 6) == ".m1scr"@
}

/// Whether a file name is that of a script.
pub fn has_script_name(name: &str) -> (r: bool)
    ensures
        r == is_script_name(name@),
{
    proof {
        reveal_strlit(".m1scr");
    }
    let v = chars_of(name);
    let n: usize = v.len();
    if n <= 6 {
        return false;
    }
    let r = v[n - 6] == '.' && v[n - 5] == 'm' && v[n - 4] == '1' && v[n - 3] == 's' && v[n - 2] == 'c'
        && v[n - 1] == 'r';
    proof {
        let t = name@.skip(n - 6);
        assert(t[0] == name@[n - 6] && t[1] == name@[n - 5] && t[2] == name@[n - 4]);
        assert(t[3] == name@[n - 3] && t[4] == name@[n - 2] && t[5] == name@[n - 1]);
        if r {
            assert(t =~= ".m1scr"@);
        }
    }
    r
}

/// What becomes of an entry below the script directory.
#[derive(Debug, Clone, Copy, PartialEq, Eq, Structural)]
pub enum ScriptEntry {
    /// The bundle is refused.
    Refuse,
    /// Its own entries are looked at.
    Descend,
    /// It is a script.
    Take,
    /// It is passed over.
    Skip,
}

/// What becomes of an entry below the script directory.
pub open spec fn entry_of(kind: FileKind, name: Seq<char>) -> ScriptEntry {
    match kind {
        FileKind::Symlink => ScriptEntry::Refuse,
        FileKind::Directory => ScriptEntry::Descend,
        FileKind::File => if is_script_name(name) {
            ScriptEntry::Take
        } else {
            ScriptEntry::Skip
        },
        FileKind::Other => ScriptEntry::Skip,
    }
}

/// What becomes of an entry below the script directory.
pub fn script_entry(kind: FileKind, name: &str) -> (r: ScriptEntry)
    ensures
        r == entry_of(kind, name@),
{
    match kind {
        FileKind::Symlink => ScriptEntry::Refuse,
        FileKind::Directory => ScriptEntry::Descend,
        FileKind::File => {
            if has_script_name(name) {
                ScriptEntry::Take
            } else {
                ScriptEntry::Skip
            }
        },
        FileKind::Other => ScriptEntry::Skip,
    }
}

/// Whether a text is a lower-case hexadecimal digit.
pub open spec fn is_hex(c: char) -> bool {
    '0' <= c <= '9' || 'a' <= c <= 'f'
}

/// Whether a text is a digest: 64 lower-case hexadecimal digits.
pub open spec fn is_digest(s: Seq<char>) -> bool {
    s.len() == 64 && forall|i: int| 0 <= i < s.len() ==> is_hex(#[trigger] s[i])
}

/// Whether a text is a digest.
pub fn has_digest_form(s: &str) -> (r: bool)
    ensures
        r == is_digest(s@),
{
    let v = chars_of(s);
    if v.len() != 64 {
        return false;
    }
    let mut i: usize = 0;
    while i < v.len()
        invariant
            i <= v.len(),
            v@ == s@,
            forall|j: int| 0 <= j < i ==> is_hex(#[trigger] s@[j]),
        decreases v.len() - i,
    {
        let c: char = v[i];
        if !(('0' <= c && c <= '9') || ('a' <= c && c <= 'f')) {
            assert(!is_hex(s@[i as int]));
            return false;
        }
        i = i + 1;
    }
    true
}

/// The SHA-256 digest of bytes, in hexadecimal.
pub uninterp spec fn sha256_hex(bytes: Seq<u8>) -> Seq<char>;

/// Calls `sha2::Sha256::digest` and writes the digest out with `{:x}`. The digest is
/// named; it is claimed to be 64 lower-case hexadecimal digits, two for each of the
/// 32 bytes.
#[verifier::external_body]
fn sha256(bytes: &[u8]) -> (r: String)
    ensures
        r@ == sha256_hex(bytes@),
        is_digest(r@),
{
    format!("{:x}", Sha256::digest(bytes))
}

/// A lower-case digest is its own lower case.
proof fn lemma_digest_lowered(s: Seq<char>)
    requires
        is_digest(s),
    ensures
        lowered(s) == s,
{
    assert forall|i: int| 0 <= i < s.len() implies #[trigger] lowered(s)[i] == s[i] by {
        assert(is_hex(s[i]));
    }
    assert(lowered(s) =~= s);
}

/// Whether declared and actual digest agree, without regard to case.
pub open spec fn digest_matches(declared: Seq<char>, bytes: Seq<u8>) -> bool {
    lowered(sha256_hex(bytes)) == lowered(declared)
}

/// Holds the bytes of a file to its declared digest.
pub fn check_digest(entry: &ProjectFileHash, path: &str, bytes: &[u8]) -> (r: Result<
    (),
    ConformanceError,
>)
    ensures
        r is Ok == digest_matches(entry.sha256@, bytes@),
        is_digest(entry.sha256@) ==> (r is Ok) == (sha256_hex(bytes@) == entry.sha256@),
        r matches Err(e) ==> (e matches ConformanceError::HashMismatch { path: p, expected, actual }
            && p@ == path@ && expected@ == entry.sha256@ && actual@ == sha256_hex(bytes@)),
{
    let actual = sha256(bytes);
    let a = lower(actual.as_str());
    let d = lower(entry.sha256.as_str());
    proof {
        lemma_digest_lowered(actual@);
        if is_digest(entry.sha256@) {
            lemma_digest_lowered(entry.sha256@);
        }
    }
    if same(a.as_str(), d.as_str()) {
        Ok(())
    } else {
        Err(
            ConformanceError::HashMismatch {
                path: path.to_owned(),
                expected: entry.sha256.clone(),
                actual,
            },
        )
    }
}

/// The paths that a bundle must list: the project, the calibration and the scripts.
pub open spec fn bundle_paths(b: ProjectBundle, scripts: Seq<String>) -> Seq<Seq<char>> {
    seq![b.project@] + (match b.config {
        Some(c) => seq![c@],
        None => Seq::empty(),
    }) + Seq::new(scripts.len(), |i: int| scripts[i]@)
}

/// Whether a path is among some.
pub open spec fn is_path(paths: Seq<Seq<char>>, key: Seq<char>) -> bool {
    exists|i: int| 0 <= i < paths.len() && path_key(#[trigger] paths[i]) == key
}

/// Whether two paths are different scripts with one file name.
pub open spec fn clash(a: Seq<char>, b: Seq<char>) -> bool {
    path_key(a) != path_key(b) && base_name(a) == base_name(b) && is_script_name(base_name(a))
}

/// Whether two paths are scripts with one file name, in the order of paths.
pub open spec fn clash_in_order(a: Seq<char>, b: Seq<char>) -> bool {
    clash(a, b) && before(path_key(a), path_key(b))
}

/// Whether a text names the first clash in the order of paths: the file name, and the two
/// scripts that have it.
pub open spec fn names_clash(paths: Seq<Seq<char>>, text: Seq<char>) -> bool {
    exists|i: int, j: int|
        0 <= i < paths.len() && 0 <= j < paths.len() && #[trigger] clash_in_order(paths[i], paths[j])
            && is_first_clash(paths, paths[j]) && text == quoted_text(base_name(paths[j])) + ": "@
            + paths[i] + " and "@ + paths[j]
}

/// Whether no script before one clashes with a script before it.
pub open spec fn is_first_clash(paths: Seq<Seq<char>>, path: Seq<char>) -> bool {
    forall|m: int, n: int|
        0 <= m < paths.len() && 0 <= n < paths.len() && #[trigger] clash_in_order(paths[m], paths[n])
            ==> !before(path_key(paths[n]), path_key(path))
}

/// Whether no two different scripts have one file name.
pub open spec fn names_differ(paths: Seq<Seq<char>>) -> bool {
    forall|i: int, j: int|
        0 <= i < paths.len() && 0 <= j < paths.len() ==> !clash(#[trigger] paths[i], #[trigger] paths[j])
}

/// Whether one of the first `n` entries has a path.
pub open spec fn listed(files: Seq<ProjectFileHash>, n: int, key: Seq<char>) -> bool {
    exists|i: int| 0 <= i < n && path_key((#[trigger] files[i]).path@) == key
}

/// What is wrong with the entry at a position.
pub open spec fn entry_defect(files: Seq<ProjectFileHash>, i: int) -> Option<DefectView> {
    let path = files[i].path@;
    if !is_relative(path) {
        Some((DefectKind::BadPath(PathLabel::Manifest), None, path))
    } else if !is_digest(files[i].sha256@) {
        Some((DefectKind::BadDigest, None, path))
    } else if listed(files, i, path_key(path)) {
        Some((DefectKind::DuplicateFile, None, path))
    } else {
        None
    }
}

/// The first defect among the first `n` entries.
pub open spec fn manifest_defect(files: Seq<ProjectFileHash>, n: nat) -> Option<DefectView>
    decreases n,
{
    if n == 0 {
        None
    } else {
        match manifest_defect(files, (n - 1) as nat) {
            Some(d) => Some(d),
            None => entry_defect(files, n - 1),
        }
    }
}

/// A defect among the first entries stays the first.
proof fn lemma_manifest_defect(files: Seq<ProjectFileHash>, n: nat, m: nat)
    requires
        n <= m,
        manifest_defect(files, n) is Some,
    ensures
        manifest_defect(files, m) == manifest_defect(files, n),
    decreases m - n,
{
    if n < m {
        lemma_manifest_defect(files, n, (m - 1) as nat);
    }
}

/// Whether the manifest lists exactly the given paths.
pub open spec fn lists_exactly(files: Seq<ProjectFileHash>, paths: Seq<Seq<char>>) -> bool {
    forall|k: Seq<char>| #[trigger] is_path(paths, k) == listed(files, files.len() as int, k)
}

/// Whether the manifest of a bundle is in order.
pub open spec fn manifest_holds(b: ProjectBundle, scripts: Seq<String>) -> bool {
    let paths = bundle_paths(b, scripts);
    names_differ(paths) && manifest_defect(b.files@, b.files@.len()) is None && lists_exactly(
        b.files@,
        paths,
    )
}

/// The paths of the entries.
pub open spec fn file_paths(files: Seq<ProjectFileHash>) -> Seq<Seq<char>> {
    Seq::new(files.len(), |i: int| files[i].path@)
}

/// Whether a list holds, in the order of paths and once each, the paths that only the first
/// of two lists has.
pub open spec fn is_only_list(list: Seq<Seq<char>>, paths: Seq<Seq<char>>, others: Seq<Seq<char>>) -> bool {
    &&& forall|i: int|
        0 <= i < list.len() ==> paths.contains(#[trigger] list[i]) && !is_path(
            others,
            path_key(list[i]),
        )
    &&& forall|k: Seq<char>|
        #[trigger] is_path(paths, k) && !is_path(others, k) ==> is_path(list, k)
    &&& forall|i: int, j: int|
        0 <= i < j < list.len() ==> before(
            path_key(#[trigger] list[i]),
            path_key(#[trigger] list[j]),
        )
}

/// Texts with a comma and a blank between.
pub open spec fn spaced(list: Seq<Seq<char>>) -> Seq<char>
    decreases list.len(),
{
    if list.len() == 0 {
        Seq::empty()
    } else if list.len() == 1 {
        list[0]
    } else {
        spaced(list.drop_last()) + ", "@ + list.last()
    }
}

/// Whether a text is the paths that only the first of two lists has.
pub open spec fn shows_only(text: Seq<char>, paths: Seq<Seq<char>>, others: Seq<Seq<char>>) -> bool {
    exists|list: Seq<Seq<char>>| #[trigger] is_only_list(list, paths, others) && text == spaced(list)
}

/// Whether a text names the paths that the manifest lacks, and those that it has beyond the bundle.
pub open spec fn names_difference(
    text: Seq<char>,
    paths: Seq<Seq<char>>,
    files: Seq<ProjectFileHash>,
) -> bool {
    exists|missing: Seq<char>, extra: Seq<char>|
        #![trigger shows_only(missing, paths, file_paths(files)), shows_only(
            extra,
            file_paths(files),
            paths,
        )]
        shows_only(missing, paths, file_paths(files)) && shows_only(extra, file_paths(files), paths)
            && text == "missing ["@ + missing + "], extra ["@ + extra + "]"@
}

/// Whether a defect is the one that a bundle is refused for.
pub open spec fn is_manifest_defect(b: ProjectBundle, scripts: Seq<String>, d: DefectView) -> bool {
    let paths = bundle_paths(b, scripts);
    if !names_differ(paths) {
        d.0 == DefectKind::DuplicateScript && d.1 is None && names_clash(paths, d.2)
    } else if manifest_defect(b.files@, b.files@.len()) is Some {
        manifest_defect(b.files@, b.files@.len()) == Some(d)
    } else {
        d.0 == DefectKind::ManifestDiffers && d.1 is None && names_difference(d.2, paths, b.files@)
    }
}

/// Whether positions list every entry once, ordered by path.
pub open spec fn in_path_order(files: Seq<ProjectFileHash>, order: Seq<usize>) -> bool {
    &&& forall|i: int| 0 <= i < order.len() ==> (#[trigger] order[i]) < files.len()
    &&& forall|i: int, j: int|
        0 <= i < j < order.len() ==> before(
            path_key(files[#[trigger] order[i] as int].path@),
            path_key(files[#[trigger] order[j] as int].path@),
        )
    &&& forall|k: int|
        0 <= k < files.len() ==> #[trigger] holds_position(order, k)
}

/// Whether a position is among some.
pub open spec fn holds_position(order: Seq<usize>, k: int) -> bool {
    exists|i: int| 0 <= i < order.len() && #[trigger] order[i] == k
}

/// The texts of the paths that a bundle must list.
fn expected_paths(b: &ProjectBundle, scripts: &Vec<String>) -> (r: Vec<String>)
    ensures
        r@.len() == bundle_paths(*b, scripts@).len(),
        forall|i: int| 0 <= i < r@.len() ==> (#[trigger] r@[i])@ == bundle_paths(*b, scripts@)[i],
{
    let mut r: Vec<String> = Vec::new();
    r.push(b.project.clone());
    if let Some(c) = &b.config {
        r.push(c.clone());
    }
    let ghost base = r@.len();
    let mut i: usize = 0;
    while i < scripts.len()
        invariant
            i <= scripts.len(),
            base == (if b.config is Some {
                2nat
            } else {
                1nat
            }),
            r@.len() == base + i,
            forall|j: int|
                0 <= j < r@.len() ==> (#[trigger] r@[j])@ == bundle_paths(*b, scripts@)[j],
        decreases scripts.len() - i,
    {
        r.push(scripts[i].clone());
        i = i + 1;
    }
    r
}

/// Whether two paths are scripts with one file name, in the order of paths.
fn clashes(a: &str, b: &str) -> (r: bool)
    ensures
        r == clash_in_order(a@, b@),
{
    let p = scan_path(a);
    let q = scan_path(b);
    !same(p.key.as_str(), q.key.as_str()) && same(p.name.as_str(), q.name.as_str())
        && has_script_name(p.name.as_str()) && comes_before(p.key.as_str(), q.key.as_str())
}

/// Whether a path comes before another.
fn path_before(a: &str, b: &str) -> (r: bool)
    ensures
        r == before(path_key(a@), path_key(b@)),
{
    let p = scan_path(a);
    let q = scan_path(b);
    comes_before(p.key.as_str(), q.key.as_str())
}

/// The first clash in the order of paths, in words.
fn find_clash(texts: &Vec<String>, Ghost(paths): Ghost<Seq<Seq<char>>>) -> (r: Option<String>)
    requires
        texts@.len() == paths.len(),
        forall|i: int| 0 <= i < texts@.len() ==> (#[trigger] texts@[i])@ == paths[i],
    ensures
        match r {
            Some(text) => !names_differ(paths) && names_clash(paths, text@),
            None => names_differ(paths),
        },
{
    let n: usize = texts.len();
    let mut best: Option<(usize, usize)> = None;
    let mut j: usize = 0;
    while j < n
        invariant
            j <= n == texts@.len() == paths.len(),
            forall|i: int| 0 <= i < texts@.len() ==> (#[trigger] texts@[i])@ == paths[i],
            match best {
                Some((a, b)) => a < n && b < n && clash_in_order(paths[a as int], paths[b as int])
                    && forall|m: int, k: int|
                    0 <= m < n && 0 <= k < j && #[trigger] clash_in_order(paths[m], paths[k])
                        ==> !before(path_key(paths[k]), path_key(paths[b as int])),
                None => forall|m: int, k: int|
                    0 <= m < n && 0 <= k < j ==> !(#[trigger] clash_in_order(paths[m], paths[k])),
            },
        decreases n - j,
    {
        let mut found: Option<usize> = None;
        let mut i: usize = 0;
        while i < n
            invariant
                i <= n == texts@.len() == paths.len(),
                j < n,
                forall|i: int| 0 <= i < texts@.len() ==> (#[trigger] texts@[i])@ == paths[i],
                match found {
                    Some(a) => a < n && clash_in_order(paths[a as int], paths[j as int]),
                    None => forall|m: int|
                        0 <= m < i ==> !clash_in_order(#[trigger] paths[m], paths[j as int]),
                },
            decreases n - i,
        {
            if clashes(texts[i].as_str(), texts[j].as_str()) {
                found = Some(i);
            }
            i = i + 1;
        }
        if let Some(a) = found {
            let better = match best {
                Some((_, b)) => path_before(texts[j].as_str(), texts[b].as_str()),
                None => true,
            };
            proof {
                if better {
                    assert forall|m: int, k: int|
                        0 <= m < n && 0 <= k < j + 1 && #[trigger] clash_in_order(
                            paths[m],
                            paths[k],
                        ) implies !before(path_key(paths[k]), path_key(paths[j as int])) by {
                        lemma_before_total(path_key(paths[j as int]), path_key(paths[j as int]));
                        if k < j && best is Some {
                            let b = best->Some_0.1 as int;
                            if before(path_key(paths[k]), path_key(paths[j as int])) {
                                lemma_before_transitive(
                                    path_key(paths[k]),
                                    path_key(paths[j as int]),
                                    path_key(paths[b]),
                                );
                            }
                        }
                    }
                }
            }
            if better {
                best = Some((a, j));
            }
        }
        j = j + 1;
    }
    match best {
        None => {
            proof {
                assert forall|a: int, b: int|
                    0 <= a < paths.len() && 0 <= b < paths.len() implies !clash(
                    #[trigger] paths[a],
                    #[trigger] paths[b],
                ) by {
                    lemma_before_total(path_key(paths[a]), path_key(paths[b]));
                    assert(!clash_in_order(paths[a], paths[b]));
                    assert(!clash_in_order(paths[b], paths[a]));
                }
            }
            None
        },
        Some((a, b)) => {
            let p = scan_path(texts[b].as_str());
            let name = quoted(p.name.as_str());
            let text = name.concat(": ").concat(texts[a].as_str()).concat(" and ").concat(
                texts[b].as_str(),
            );
            assert(clash(paths[a as int], paths[b as int]));
            assert(clash_in_order(paths[a as int], paths[b as int]));
            Some(text)
        },
    }
}

/// Whether some text has the parts of a key.
fn has_path(texts: &Vec<String>, key: &str, Ghost(paths): Ghost<Seq<Seq<char>>>) -> (r: bool)
    requires
        texts@.len() == paths.len(),
        forall|i: int| 0 <= i < texts@.len() ==> (#[trigger] texts@[i])@ == paths[i],
    ensures
        r == is_path(paths, key@),
{
    let mut i: usize = 0;
    while i < texts.len()
        invariant
            i <= texts.len(),
            texts@.len() == paths.len(),
            forall|i: int| 0 <= i < texts@.len() ==> (#[trigger] texts@[i])@ == paths[i],
            forall|a: int| 0 <= a < i ==> path_key(#[trigger] paths[a]) != key@,
        decreases texts.len() - i,
    {
        let p = scan_path(texts[i].as_str());
        if same(p.key.as_str(), key) {
            assert(path_key(paths[i as int]) == key@);
            return true;
        }
        i = i + 1;
    }
    false
}

/// The entries by path, or what is wrong with one.
fn read_manifest(files: &Vec<ProjectFileHash>) -> (r: Result<TextMap<usize>, Defect>)
    ensures
        match r {
            Err(d) => manifest_defect(files@, files@.len()) == Some(d@),
            Ok(m) => manifest_defect(files@, files@.len()) is None && (forall|k: Seq<char>| #[trigger]
                m@.contains_key(k) == listed(files@, files@.len() as int, k)) && (forall|i: int|
                0 <= i < files@.len() ==> m@[path_key((#[trigger] files@[i]).path@)] == i),
        },
{
    let mut m: TextMap<usize> = TextMap::new();
    let mut i: usize = 0;
    while i < files.len()
        invariant
            i <= files.len(),
            manifest_defect(files@, i as nat) is None,
            forall|k: Seq<char>| #[trigger] m@.contains_key(k) == listed(files@, i as int, k),
            forall|j: int| 0 <= j < i ==> m@[path_key((#[trigger] files@[j]).path@)] == j,
        decreases files.len() - i,
    {
        let path: &str = files[i].path.as_str();
        if !validate_relative_path(path) {
            proof {
                lemma_manifest_defect(files@, (i + 1) as nat, files@.len());
            }
            return Err(defect(DefectKind::BadPath(PathLabel::Manifest), None, path));
        }
        if !has_digest_form(files[i].sha256.as_str()) {
            proof {
                lemma_manifest_defect(files@, (i + 1) as nat, files@.len());
            }
            return Err(defect(DefectKind::BadDigest, None, path));
        }
        let p = scan_path(path);
        if m.contains(p.key.as_str()) {
            proof {
                lemma_manifest_defect(files@, (i + 1) as nat, files@.len());
            }
            return Err(defect(DefectKind::DuplicateFile, None, path));
        }
        let ghost known = m@;
        let ghost key = p.key@;
        m.insert(p.key, i);
        proof {
            assert(!listed(files@, i as int, key));
            assert forall|k: Seq<char>| #[trigger] m@.contains_key(k) == listed(files@, i + 1, k) by {
                assert(known.contains_key(k) == listed(files@, i as int, k));
                assert(path_key(files@[i as int].path@) == key);
                if listed(files@, i as int, k) {
                    let j = choose|j: int| 0 <= j < i && path_key((#[trigger] files@[j]).path@) == k;
                    assert(path_key(files@[j].path@) == k);
                }
                if listed(files@, i + 1, k) && k != key {
                    let j = choose|j: int|
                        0 <= j < i + 1 && path_key((#[trigger] files@[j]).path@) == k;
                    assert(path_key(files@[j].path@) == k);
                    assert(listed(files@, i as int, k));
                }
            }
            assert forall|j: int| 0 <= j < i + 1 implies m@[path_key((#[trigger] files@[j]).path@)]
                == j by {
                if j < i {
                    assert(listed(files@, i as int, path_key(files@[j].path@)));
                }
            }
        }
        i = i + 1;
    }
    Ok(m)
}

/// The paths that only the first of two lists has.
fn only_in(
    texts: &Vec<String>,
    others: &Vec<String>,
    Ghost(paths): Ghost<Seq<Seq<char>>>,
    Ghost(rest): Ghost<Seq<Seq<char>>>,
) -> (r: TextMap<String>)
    requires
        texts@.len() == paths.len(),
        forall|i: int| 0 <= i < texts@.len() ==> (#[trigger] texts@[i])@ == paths[i],
        others@.len() == rest.len(),
        forall|i: int| 0 <= i < others@.len() ==> (#[trigger] others@[i])@ == rest[i],
    ensures
        forall|k: Seq<char>| #[trigger]
            r@.contains_key(k) == (is_path(paths, k) && !is_path(rest, k)),
        forall|k: Seq<char>| #[trigger]
            r@.contains_key(k) ==> path_key(r@[k]@) == k && paths.contains(r@[k]@),
{
    let mut r: TextMap<String> = TextMap::new();
    let mut i: usize = 0;
    while i < texts.len()
        invariant
            i <= texts.len(),
            texts@.len() == paths.len(),
            forall|i: int| 0 <= i < texts@.len() ==> (#[trigger] texts@[i])@ == paths[i],
            others@.len() == rest.len(),
            forall|i: int| 0 <= i < others@.len() ==> (#[trigger] others@[i])@ == rest[i],
            forall|k: Seq<char>| #[trigger]
                r@.contains_key(k) == (is_path(paths.take(i as int), k) && !is_path(rest, k)),
            forall|k: Seq<char>| #[trigger]
                r@.contains_key(k) ==> path_key(r@[k]@) == k && paths.contains(r@[k]@),
        decreases texts.len() - i,
    {
        let p = scan_path(texts[i].as_str());
        let ghost key = p.key@;
        let ghost known = r@;
        let absent = !has_path(others, p.key.as_str(), Ghost(rest));
        if absent && !r.contains(p.key.as_str()) {
            assert(paths[i as int] == texts@[i as int]@);
            r.insert(p.key, texts[i].clone());
        }
        proof {
            let (a, b) = (paths.take(i as int), paths.take(i + 1));
            assert(b[i as int] == paths[i as int]);
            assert forall|k: Seq<char>| #[trigger]
                r@.contains_key(k) == (is_path(b, k) && !is_path(rest, k)) by {
                assert(known.contains_key(k) == (is_path(a, k) && !is_path(rest, k)));
                if is_path(a, k) {
                    let m = choose|m: int| 0 <= m < a.len() && path_key(#[trigger] a[m]) == k;
                    assert(path_key(b[m]) == k);
                }
                if is_path(b, k) && k != key {
                    let m = choose|m: int| 0 <= m < b.len() && path_key(#[trigger] b[m]) == k;
                    assert(path_key(a[m]) == k);
                }
                if k == key {
                    assert(path_key(b[i as int]) == k);
                }
            }
            assert forall|k: Seq<char>| #[trigger] r@.contains_key(k) implies path_key(r@[k]@) == k
                && paths.contains(r@[k]@) by {
                assert(known.contains_key(k) || k == key);
            }
        }
        i = i + 1;
    }
    assert(paths.take(i as int) =~= paths);
    r
}

/// The entries of a map in words, in order.
fn list_text(
    map: &TextMap<String>,
    Ghost(paths): Ghost<Seq<Seq<char>>>,
    Ghost(rest): Ghost<Seq<Seq<char>>>,
) -> (r: String)
    requires
        forall|k: Seq<char>| #[trigger]
            map@.contains_key(k) == (is_path(paths, k) && !is_path(rest, k)),
        forall|k: Seq<char>| #[trigger]
            map@.contains_key(k) ==> path_key(map@[k]@) == k && paths.contains(map@[k]@),
    ensures
        shows_only(r@, paths, rest),
{
    let n: usize = map.len();
    let ghost all = map.items();
    let ghost list = Seq::new(all.len(), |i: int| all[i].1@);
    let mut r: String = String::new();
    let mut i: usize = 0;
    assert(r@ =~= spaced(list.take(0)));
    while i < n
        invariant
            i <= n == all.len(),
            all == map.items(),
            list == Seq::new(all.len(), |i: int| all[i].1@),
            r@ == spaced(list.take(i as int)),
        decreases n - i,
    {
        proof {
            let t = list.take(i + 1);
            assert(t.drop_last() =~= list.take(i as int));
            assert(t.last() == all[i as int].1@);
            if i == 0 {
                assert(t[0] == all[0].1@);
                assert(list.take(0).len() == 0);
            }
        }
        if i > 0 {
            r.append(", ");
        }
        r.append(map.at(i).1.as_str());
        assert(r@ =~= spaced(list.take(i + 1)));
        i = i + 1;
    }
    proof {
        assert(list.take(n as int) =~= list);
        assert forall|i: int| 0 <= i < list.len() implies paths.contains(#[trigger] list[i])
            && !is_path(rest, path_key(list[i])) && path_key(list[i]) == all[i].0@ by {
            lemma_map_of(all, i);
            assert(map@.contains_key(all[i].0@));
        }
        assert forall|k: Seq<char>|
            #[trigger] is_path(paths, k) && !is_path(rest, k) implies is_path(list, k) by {
            assert(map@.contains_key(k));
            let m = choose|m: int| 0 <= m < all.len() && #[trigger] all[m].0@ == k;
            assert(path_key(list[m]) == k);
        }
        assert forall|i: int, j: int| 0 <= i < j < list.len() implies before(
            path_key(#[trigger] list[i]),
            path_key(#[trigger] list[j]),
        ) by {
            assert(before(all[i].0@, all[j].0@));
        }
        assert(is_only_list(list, paths, rest));
    }
    r
}

/// What only one of the bundle and its manifest has.
fn find_difference(
    texts: &Vec<String>,
    files: &Vec<ProjectFileHash>,
    Ghost(paths): Ghost<Seq<Seq<char>>>,
) -> (r: Option<Defect>)
    requires
        texts@.len() == paths.len(),
        forall|i: int| 0 <= i < texts@.len() ==> (#[trigger] texts@[i])@ == paths[i],
    ensures
        match r {
            Some(d) => !lists_exactly(files@, paths) && d@.0 == DefectKind::ManifestDiffers && d@.1 is None
                && names_difference(d@.2, paths, files@),
            None => lists_exactly(files@, paths),
        },
{
    let ghost entries = file_paths(files@);
    let mut listed_texts: Vec<String> = Vec::new();
    let mut i: usize = 0;
    while i < files.len()
        invariant
            i <= files.len(),
            entries == file_paths(files@),
            listed_texts@.len() == i,
            forall|j: int| 0 <= j < i ==> (#[trigger] listed_texts@[j])@ == entries[j],
        decreases files.len() - i,
    {
        listed_texts.push(files[i].path.clone());
        i = i + 1;
    }
    let missing = only_in(texts, &listed_texts, Ghost(paths), Ghost(entries));
    let extra = only_in(&listed_texts, texts, Ghost(entries), Ghost(paths));
    proof {
        assert forall|k: Seq<char>| #[trigger]
            listed(files@, files@.len() as int, k) == is_path(entries, k) by {
            if listed(files@, files@.len() as int, k) {
                let a = choose|a: int|
                    0 <= a < files@.len() && path_key((#[trigger] files@[a]).path@) == k;
                assert(path_key(entries[a]) == k);
            }
            if is_path(entries, k) {
                let a = choose|a: int| 0 <= a < entries.len() && path_key(#[trigger] entries[a]) == k;
                assert(path_key(files@[a].path@) == k);
            }
        }
    }
    let (m, e): (usize, usize) = (missing.len(), extra.len());
    let ghost (one, two) = (missing.items(), extra.items());
    if m == 0 && e == 0 {
        assert forall|k: Seq<char>| #[trigger]
            is_path(paths, k) == listed(files@, files@.len() as int, k) by {
            assert(!missing@.contains_key(k));
            assert(!extra@.contains_key(k));
        }
        return None;
    }
    proof {
        if m > 0 {
            lemma_map_of(one, 0);
            assert(missing@.contains_key(one[0].0@));
        } else {
            lemma_map_of(two, 0);
            assert(extra@.contains_key(two[0].0@));
        }
    }
    let a = list_text(&missing, Ghost(paths), Ghost(entries));
    let b = list_text(&extra, Ghost(entries), Ghost(paths));
    let text = joined("missing [", a.as_str()).concat("], extra [").concat(b.as_str()).concat("]");
    assert(shows_only(a@, paths, entries) && shows_only(b@, entries, paths));
    Some(defect(DefectKind::ManifestDiffers, None, text.as_str()))
}

/// The positions of the entries, ordered by path.
fn path_order(files: &Vec<ProjectFileHash>, manifest: &TextMap<usize>) -> (r: Vec<usize>)
    requires
        forall|k: Seq<char>| #[trigger]
            manifest@.contains_key(k) == listed(files@, files@.len() as int, k),
        forall|i: int|
            0 <= i < files@.len() ==> manifest@[path_key((#[trigger] files@[i]).path@)] == i,
    ensures
        in_path_order(files@, r@),
{
    let n: usize = manifest.len();
    let ghost all = manifest.items();
    let mut r: Vec<usize> = Vec::new();
    proof {
        assert forall|j: int| 0 <= j < all.len() implies (#[trigger] all[j]).1 < files@.len()
            && path_key(files@[all[j].1 as int].path@) == all[j].0@ by {
            lemma_map_of(all, j);
            assert(manifest@.contains_key(all[j].0@));
            let i = choose|i: int|
                0 <= i < files@.len() && path_key((#[trigger] files@[i]).path@) == all[j].0@;
            assert(manifest@[path_key(files@[i].path@)] == i);
        }
    }
    let mut i: usize = 0;
    while i < n
        invariant
            i <= n == all.len(),
            all == manifest.items(),
            r@.len() == i,
            forall|j: int| 0 <= j < i ==> #[trigger] r@[j] == all[j].1,
        decreases n - i,
    {
        r.push(manifest.at(i).1);
        i = i + 1;
    }
    proof {
        assert forall|a: int, b: int| 0 <= a < b < r@.len() implies before(
            path_key(files@[#[trigger] r@[a] as int].path@),
            path_key(files@[#[trigger] r@[b] as int].path@),
        ) by {
            assert(before(all[a].0@, all[b].0@));
        }
        assert forall|k: int| 0 <= k < files@.len() implies #[trigger] holds_position(r@, k) by {
            let key = path_key(files@[k].path@);
            assert(listed(files@, files@.len() as int, key));
            assert(manifest@.contains_key(key));
            let j = choose|j: int| 0 <= j < all.len() && #[trigger] all[j].0@ == key;
            lemma_map_of(all, j);
            assert(r@[j] == k);
        }
    }
    r
}

impl ConformanceFixture {
    /// Holds the manifest to the scripts that the bundle has, and gives the order in
    /// which its entries are read: by path.
    pub fn check_manifest(&self, scripts: &Vec<String>) -> (r: Result<Vec<usize>, ConformanceError>)
        ensures
            match r {
                Ok(order) => manifest_holds(self.project, scripts@) && in_path_order(
                    self.project.files@,
                    order@,
                ),
                Err(e) => !manifest_holds(self.project, scripts@) && (
                e matches ConformanceError::InvalidFixture { fixture, defect } && fixture@
                    == self.label() && is_manifest_defect(self.project, scripts@, defect@)),
            },
    {
        let ghost paths = bundle_paths(self.project, scripts@);
        let texts = expected_paths(&self.project, scripts);
        if let Some(text) = find_clash(&texts, Ghost(paths)) {
            return Err(self.invalid(defect(DefectKind::DuplicateScript, None, text.as_str())));
        }
        match read_manifest(&self.project.files) {
            Err(d) => Err(self.invalid(d)),
            Ok(manifest) => {
                match find_difference(&texts, &self.project.files, Ghost(paths)) {
                    Some(d) => Err(self.invalid(d)),
                    None => Ok(path_order(&self.project.files, &manifest)),
                }
            },
        }
    }
}

/// What was read of a file: where it is, and its bytes or why there are none.
pub type ReadFile = (String, Result<Vec<u8>, ConformanceError>);

/// Whether the file at a position was read and has its digest.
pub open spec fn file_holds(
    files: Seq<ProjectFileHash>,
    order: Seq<usize>,
    read: Seq<ReadFile>,
    i: int,
) -> bool {
    read[i].1 matches Ok(bytes) && digest_matches(files[order[i] as int].sha256@, bytes@)
}

/// Whether the files at the first `n` positions hold.
pub open spec fn files_hold(
    files: Seq<ProjectFileHash>,
    order: Seq<usize>,
    read: Seq<ReadFile>,
    n: int,
) -> bool {
    forall|i: int| 0 <= i < n ==> #[trigger] file_holds(files, order, read, i)
}

/// Whether an error says why the file at a position does not hold.
pub open spec fn is_file_error(
    e: ConformanceError,
    files: Seq<ProjectFileHash>,
    order: Seq<usize>,
    read: Seq<ReadFile>,
    i: int,
) -> bool {
    match read[i].1 {
        Err(source) => e == source,
        Ok(bytes) => e matches ConformanceError::HashMismatch { path, expected, actual } && path@
            == read[i].0@ && expected@ == files[order[i] as int].sha256@ && actual@ == sha256_hex(
            bytes@,
        ),
    }
}

/// Where all positions are listed, every file that the manifest names has its digest.
proof fn lemma_every_file_holds(files: Seq<ProjectFileHash>, order: Seq<usize>, read: Seq<ReadFile>)
    requires
        in_path_order(files, order),
        order.len() == read.len(),
        files_hold(files, order, read, read.len() as int),
    ensures
        forall|k: int| 0 <= k < files.len() ==> #[trigger] is_bound(files[k], read),
{
    assert forall|k: int| 0 <= k < files.len() implies #[trigger] is_bound(files[k], read) by {
        assert(holds_position(order, k));
        let i = choose|i: int| 0 <= i < order.len() && #[trigger] order[i] == k;
        assert(file_holds(files, order, read, i));
        assert(binds(files[k], read[i]));
    }
}

/// Whether a file that was read has the digest of an entry.
pub open spec fn binds(entry: ProjectFileHash, read: ReadFile) -> bool {
    read.1 matches Ok(bytes) && digest_matches(entry.sha256@, bytes@)
}

/// Whether some file that was read has the digest of an entry.
pub open spec fn is_bound(entry: ProjectFileHash, read: Seq<ReadFile>) -> bool {
    exists|i: int| 0 <= i < read.len() && #[trigger] binds(entry, read[i])
}

impl ConformanceFixture {
    /// Holds the files to the manifest, in the order in which they were read. The first one
    /// that could not be read, or that does not have its digest, is reported.
    pub fn check_files(&self, order: &Vec<usize>, read: Vec<ReadFile>) -> (r: Result<
        (),
        ConformanceError,
    >)
        requires
            order@.len() == read@.len(),
            forall|i: int|
                0 <= i < order@.len() ==> (#[trigger] order@[i]) < self.project.files@.len(),
        ensures
            match r {
                Ok(_) => files_hold(self.project.files@, order@, read@, read@.len() as int) && (
                in_path_order(self.project.files@, order@) ==> forall|k: int|
                    0 <= k < self.project.files@.len() ==> #[trigger] is_bound(
                        self.project.files@[k],
                        read@,
                    )),
                Err(e) => exists|i: int|
                    0 <= i < read@.len() && files_hold(self.project.files@, order@, read@, i)
                        && !(#[trigger] file_holds(self.project.files@, order@, read@, i))
                        && is_file_error(e, self.project.files@, order@, read@, i),
            },
    {
        let ghost all = read@;
        let ghost files = self.project.files@;
        let total: usize = read.len();
        let mut rest = read;
        let mut i: usize = 0;
        while i < total
            invariant
                i <= total == all.len() == order@.len(),
                all == read@,
                files == self.project.files@,
                rest@ == all.skip(i as int),
                files_hold(files, order@, all, i as int),
                forall|i: int|
                    0 <= i < order@.len() ==> (#[trigger] order@[i]) < self.project.files@.len(),
            decreases total - i,
        {
            assert(rest@[0] == all[i as int]);
            let first = rest.remove(0);
            assert(rest@ =~= all.skip(i + 1));
            let bytes = match first.1 {
                Ok(bytes) => bytes,
                Err(e) => {
                    assert(!file_holds(files, order@, all, i as int));
                    return Err(e);
                },
            };
            let entry = &self.project.files[order[i]];
            if let Err(e) = check_digest(entry, first.0.as_str(), bytes.as_slice()) {
                assert(!file_holds(files, order@, all, i as int));
                return Err(e);
            }
            assert(file_holds(files, order@, all, i as int));
            i = i + 1;
        }
        proof {
            if in_path_order(files, order@) {
                lemma_every_file_holds(files, order@, all);
            }
        }
        Ok(())
    }
}

} // verus!
