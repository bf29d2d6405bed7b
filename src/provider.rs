use vstd::prelude::*;

use crate::source::{contents_named, has_named, SourceFile, SourceTree};
use crate::text::{find_within, occurs_at, first_within, lemma_first_within_unique, occurs_within};

verus! {

/// The runtimes this library recognises.
#[derive(Clone, Copy, Debug, PartialEq, Eq, Structural)]
pub enum ProviderKind {
    Node,
    Python,
    Go,
    Rust,
}

/// The package manager a Node project installs with.
#[derive(Clone, Copy, Debug, PartialEq, Eq, Structural)]
pub enum PackageManager {
    Npm,
    Yarn,
    Pnpm,
}

/// What the matched provider learned about the project.
#[derive(Clone, Copy, Debug, PartialEq, Eq, Structural)]
pub struct ProviderMetadata {
    pub kind: ProviderKind,
    pub manager: PackageManager,
    pub build_script: bool,
    pub start_script: bool,
    /// The manifest opens a scripts object that is never closed; its scripts
    /// were not read.
    pub scripts_unclosed: bool,
}

/// The detectors in the order they are tried: the first one that matches wins.
pub open spec fn registry_order() -> Seq<ProviderKind> {
    seq![ProviderKind::Node, ProviderKind::Python, ProviderKind::Go, ProviderKind::Rust]
}

/// Position of a provider in the registry; lower is tried first.
pub open spec fn priority(k: ProviderKind) -> nat {
    match k {
        ProviderKind::Node => 0,
        ProviderKind::Python => 1,
        ProviderKind::Go => 2,
        ProviderKind::Rust => 3,
    }
}

/// The manifest file whose presence marks a project of kind `k`.
pub open spec fn signature(k: ProviderKind) -> Seq<char> {
    match k {
        ProviderKind::Node => "package.json"@,
        ProviderKind::Python => "requirements.txt"@,
        ProviderKind::Go => "go.mod"@,
        ProviderKind::Rust => "Cargo.toml"@,
    }
}

/// Detector of kind `k`: its manifest file is present.
pub open spec fn detects(k: ProviderKind, files: Seq<SourceFile>) -> bool {
    has_named(files, signature(k))
}

/// The first provider of `reg` whose detector matches.
pub open spec fn first_detected(reg: Seq<ProviderKind>, files: Seq<SourceFile>) -> Option<
    ProviderKind,
>
    decreases reg.len(),
{
    if reg.len() == 0 {
        None
    } else if detects(reg[0], files) {
        Some(reg[0])
    } else {
        first_detected(reg.drop_first(), files)
    }
}

/// The provider chosen for a tree.
pub open spec fn selected(files: Seq<SourceFile>) -> Option<ProviderKind> {
    first_detected(registry_order(), files)
}

/// The lockfile that pins the dependencies of a project, if the provider has one.
pub open spec fn lockfile(k: ProviderKind, m: PackageManager) -> Option<Seq<char>> {
    match k {
        ProviderKind::Node => match m {
            PackageManager::Npm => Some("package-lock.json"@),
            PackageManager::Yarn => Some("yarn.lock"@),
            PackageManager::Pnpm => Some("pnpm-lock.yaml"@),
        },
        ProviderKind::Python => None,
        ProviderKind::Go => Some("go.sum"@),
        ProviderKind::Rust => Some("Cargo.lock"@),
    }
}

/// Yarn when `yarn.lock` is present, else pnpm when `pnpm-lock.yaml` is, else npm.
pub open spec fn manager_of(files: Seq<SourceFile>) -> PackageManager {
    if has_named(files, "yarn.lock"@) {
        PackageManager::Yarn
    } else if has_named(files, "pnpm-lock.yaml"@) {
        PackageManager::Pnpm
    } else {
        PackageManager::Npm
    }
}

/// The bytes `"scripts"`, quotes included: the key of the manifest's scripts object.
pub open spec fn scripts_key() -> Seq<u8> {
    seq![34u8, 115u8, 99u8, 114u8, 105u8, 112u8, 116u8, 115u8, 34u8]
}

/// The bytes `"build":`, the key of a build script.
pub open spec fn build_key() -> Seq<u8> {
    seq![34u8, 98u8, 117u8, 105u8, 108u8, 100u8, 34u8, 58u8]
}

/// The bytes `"start":`, the key of a start script.
pub open spec fn start_key() -> Seq<u8> {
    seq![34u8, 115u8, 116u8, 97u8, 114u8, 116u8, 34u8, 58u8]
}

/// The span of the manifest's scripts object: from just after the first
/// `"scripts"` to the first `}` that follows it. None when either is missing.
pub open spec fn scripts_span(c: Seq<u8>) -> Option<(int, int)> {
    if exists|i: int| first_within(c, scripts_key(), 0, c.len() as int, i) {
        let i = choose|i: int| first_within(c, scripts_key(), 0, c.len() as int, i);
        let a = i + scripts_key().len();
        if exists|j: int| first_within(c, seq![125u8], a, c.len() as int, j) {
            Some((a, choose|j: int| first_within(c, seq![125u8], a, c.len() as int, j)))
        } else {
            None
        }
    } else {
        None
    }
}

/// The manifest's scripts object holds the key `key`. Mentions of the same word
/// elsewhere (a name, a dependency) do not count.
pub open spec fn declares_script(c: Seq<u8>, key: Seq<u8>) -> bool {
    match scripts_span(c) {
        Some((a, b)) => occurs_within(c, key, a, b),
        None => false,
    }
}

/// The manifest `c` opens a scripts object but no `}` follows it.
pub open spec fn unclosed(c: Seq<u8>) -> bool {
    &&& exists|i: int| first_within(c, scripts_key(), 0, c.len() as int, i)
    &&& scripts_span(c) is None
}

/// Whether manifest `c` opens a scripts object that is never closed.
pub fn scripts_unclosed(c: &[u8]) -> (r: bool)
    ensures
        r == unclosed(c@),
{
    let sk: Vec<u8> = vec![34u8, 115u8, 99u8, 114u8, 105u8, 112u8, 116u8, 115u8, 34u8];
    assert(sk@ =~= scripts_key());
    let close: Vec<u8> = vec![125u8];
    assert(close@ =~= seq![125u8]);
    let n = c.len();
    match find_within(c, sk.as_slice(), 0, n) {
        None => {
            assert(!exists|x: int| first_within(c@, scripts_key(), 0, n as int, x)) by {
                if exists|x: int| first_within(c@, scripts_key(), 0, n as int, x) {
                    let x = choose|x: int| first_within(c@, scripts_key(), 0, n as int, x);
                    assert(occurs_at(c@, sk@, x));
                }
            }
            false
        },
        Some(i) => {
            proof {
                assert(scripts_key().len() == 9);
                assert forall|x: int| first_within(c@, scripts_key(), 0, n as int, x) implies x
                    == i by {
                    lemma_first_within_unique(c@, scripts_key(), 0, n as int, x, i as int);
                }
                assert(first_within(c@, scripts_key(), 0, n as int, i as int));
                let ci = choose|x: int| first_within(c@, scripts_key(), 0, n as int, x);
                assert(ci == i);
            }
            let a = i + 9;
            match find_within(c, close.as_slice(), a, n) {
                None => {
                    assert(!exists|x: int| first_within(c@, seq![125u8], a as int, n as int, x)) by {
                        if exists|x: int| first_within(c@, seq![125u8], a as int, n as int, x) {
                            let x = choose|x: int| first_within(c@, seq![125u8], a as int, n as int, x);
                            assert(occurs_at(c@, close@, x));
                        }
                    }
                    true
                },
                Some(b) => {
                    assert(first_within(c@, seq![125u8], a as int, n as int, b as int));
                    false
                },
            }
        },
    }
}

/// The manifest of `files` declares the script `key`; a missing manifest declares nothing.
pub open spec fn manifest_declares(files: Seq<SourceFile>, name: Seq<char>, key: Seq<u8>) -> bool {
    match contents_named(files, name) {
        Some(c) => declares_script(c, key),
        None => false,
    }
}

/// Whether the scripts object of manifest `c` holds the key `key`.
pub fn script_declared(c: &[u8], key: &[u8]) -> (r: bool)
    ensures
        r == declares_script(c@, key@),
{
    let sk: Vec<u8> = vec![34u8, 115u8, 99u8, 114u8, 105u8, 112u8, 116u8, 115u8, 34u8];
    assert(sk@ =~= scripts_key());
    let close: Vec<u8> = vec![125u8];
    assert(close@ =~= seq![125u8]);
    let n = c.len();
    match find_within(c, sk.as_slice(), 0, n) {
        None => {
            assert(!exists|x: int| first_within(c@, scripts_key(), 0, n as int, x)) by {
                if exists|x: int| first_within(c@, scripts_key(), 0, n as int, x) {
                    let x = choose|x: int| first_within(c@, scripts_key(), 0, n as int, x);
                    assert(occurs_at(c@, sk@, x));
                }
            }
            false
        },
        Some(i) => {
            proof {
                assert(scripts_key().len() == 9);
                assert forall|x: int| first_within(c@, scripts_key(), 0, n as int, x) implies x
                    == i by {
                    lemma_first_within_unique(c@, scripts_key(), 0, n as int, x, i as int);
                }
            }
            let a = i + 9;
            match find_within(c, close.as_slice(), a, n) {
                None => {
                    assert(!exists|x: int| first_within(c@, seq![125u8], a as int, n as int, x)) by {
                        if exists|x: int| first_within(c@, seq![125u8], a as int, n as int, x) {
                            let x = choose|x: int| first_within(c@, seq![125u8], a as int, n as int, x);
                            assert(occurs_at(c@, close@, x));
                        }
                    }
                    false
                },
                Some(b) => {
                    proof {
                        assert forall|x: int| first_within(c@, seq![125u8], a as int, n as int, x)
                            implies x == b by {
                            lemma_first_within_unique(c@, seq![125u8], a as int, n as int, x, b as int);
                        }
                    }
                    proof {
                        assert(first_within(c@, scripts_key(), 0, n as int, i as int));
                        let ci = choose|x: int| first_within(c@, scripts_key(), 0, n as int, x);
                        assert(ci == i);
                        assert(first_within(c@, seq![125u8], a as int, n as int, b as int));
                        let cb = choose|x: int| first_within(c@, seq![125u8], a as int, n as int, x);
                        assert(cb == b);
                    }
                    assert(scripts_span(c@) == Some((a as int, b as int)));
                    match find_within(c, key, a, b) {
                        Some(x) => {
                            assert(occurs_at(c@, key@, x as int));
                            true
                        },
                        None => false,
                    }
                },
            }
        },
    }
}

/// The metadata extracted for a tree matched by `k`.
pub open spec fn metadata_of(k: ProviderKind, files: Seq<SourceFile>) -> ProviderMetadata {
    match k {
        ProviderKind::Node => ProviderMetadata {
            kind: k,
            manager: manager_of(files),
            build_script: manifest_declares(files, "package.json"@, build_key()),
            start_script: manifest_declares(files, "package.json"@, start_key()),
            scripts_unclosed: match contents_named(files, "package.json"@) {
                Some(c) => unclosed(c),
                None => false,
            },
        },
        ProviderKind::Python => ProviderMetadata {
            kind: k,
            manager: PackageManager::Npm,
            build_script: false,
            start_script: false,
            scripts_unclosed: false,
        },
        _ => ProviderMetadata {
            kind: k,
            manager: PackageManager::Npm,
            build_script: true,
            start_script: false,
            scripts_unclosed: false,
        },
    }
}

/// The registry, in priority order.
pub fn registry() -> (r: Vec<ProviderKind>)
    ensures
        r@ == registry_order(),
{
    let r = vec![ProviderKind::Node, ProviderKind::Python, ProviderKind::Go, ProviderKind::Rust];
    assert(r@ =~= registry_order());
    r
}

/// The manifest file name of a provider.
pub fn signature_file(k: ProviderKind) -> (r: &'static str)
    ensures
        r@ == signature(k),
{
    match k {
        ProviderKind::Node => "package.json",
        ProviderKind::Python => "requirements.txt",
        ProviderKind::Go => "go.mod",
        ProviderKind::Rust => "Cargo.toml",
    }
}

/// The lockfile name of a provider with a given package manager.
pub fn lockfile_name(k: ProviderKind, m: PackageManager) -> (r: Option<&'static str>)
    ensures
        match r {
            Some(s) => lockfile(k, m) == Some(s@),
            None => lockfile(k, m) is None,
        },
{
    match k {
        ProviderKind::Node => match m {
            PackageManager::Npm => Some("package-lock.json"),
            PackageManager::Yarn => Some("yarn.lock"),
            PackageManager::Pnpm => Some("pnpm-lock.yaml"),
        },
        ProviderKind::Python => None,
        ProviderKind::Go => Some("go.sum"),
        ProviderKind::Rust => Some("Cargo.lock"),
    }
}

/// Runs the detector of `k` on `tree`.
pub fn detect(k: ProviderKind, tree: &SourceTree) -> (r: bool)
    ensures
        r == detects(k, tree.files@),
{
    tree.has_file(signature_file(k))
}

/// Tries the detectors of `reg` in order and returns the first that matches.
pub fn select_provider(reg: &Vec<ProviderKind>, tree: &SourceTree) -> (r: Option<ProviderKind>)
    ensures
        r == first_detected(reg@, tree.files@),
{
    let mut i: usize = 0;
    assert(reg@.subrange(0, reg@.len() as int) =~= reg@);
    while i < reg.len()
        invariant
            i <= reg@.len(),
            first_detected(reg@, tree.files@) == first_detected(
                reg@.subrange(i as int, reg@.len() as int),
                tree.files@,
            ),
        decreases reg@.len() - i,
    {
        let k = reg[i];
        assert(reg@.subrange(i as int, reg@.len() as int).drop_first() =~= reg@.subrange(
            i + 1,
            reg@.len() as int,
        ));
        if detect(k, tree) {
            return Some(k);
        }
        i = i + 1;
    }
    assert(reg@.subrange(i as int, reg@.len() as int).len() == 0);
    None
}

/// Extracts the metadata of a tree matched by `k`; never fails, falling back to defaults.
pub fn extract_metadata(k: ProviderKind, tree: &SourceTree) -> (r: ProviderMetadata)
    ensures
        r == metadata_of(k, tree.files@),
{
    match k {
        ProviderKind::Node => {
            let manager = if tree.has_file("yarn.lock") {
                PackageManager::Yarn
            } else if tree.has_file("pnpm-lock.yaml") {
                PackageManager::Pnpm
            } else {
                PackageManager::Npm
            };
            let build_needle: Vec<u8> = vec![34u8, 98u8, 117u8, 105u8, 108u8, 100u8, 34u8, 58u8];
            let start_needle: Vec<u8> = vec![34u8, 115u8, 116u8, 97u8, 114u8, 116u8, 34u8, 58u8];
            assert(build_needle@ =~= build_key());
            assert(start_needle@ =~= start_key());
            let (build_script, start_script, scripts_unclosed) = match tree.file_contents(
                "package.json",
            ) {
                Some(c) => (
                    script_declared(c.as_slice(), build_needle.as_slice()),
                    script_declared(c.as_slice(), start_needle.as_slice()),
                    scripts_unclosed(c.as_slice()),
                ),
                None => (false, false, false),
            };
            ProviderMetadata { kind: k, manager, build_script, start_script, scripts_unclosed }
        },
        ProviderKind::Python => ProviderMetadata {
            kind: k,
            manager: PackageManager::Npm,
            build_script: false,
            start_script: false,
            scripts_unclosed: false,
        },
        _ => ProviderMetadata {
            kind: k,
            manager: PackageManager::Npm,
            build_script: true,
            start_script: false,
            scripts_unclosed: false,
        },
    }
}

/// Detection over the registry returns a provider whose detector matches, and no
/// provider ahead of it in the registry matches; when nothing matches it returns none.
pub proof fn lemma_selected_is_first_match(files: Seq<SourceFile>)
    ensures
        match selected(files) {
            Some(k) => detects(k, files) && forall|k2: ProviderKind|
                priority(k2) < priority(k) ==> !detects(k2, files),
            None => forall|k2: ProviderKind| !detects(k2, files),
        },
{
    reveal_with_fuel(first_detected, 5);
    assert(registry_order().drop_first() =~= seq![ProviderKind::Python, ProviderKind::Go, ProviderKind::Rust]);
    assert(registry_order().drop_first().drop_first() =~= seq![ProviderKind::Go, ProviderKind::Rust]);
    assert(registry_order().drop_first().drop_first().drop_first() =~= seq![ProviderKind::Rust]);
    assert(registry_order().drop_first().drop_first().drop_first().drop_first() =~= Seq::<ProviderKind>::empty());
}

/// When the signatures of two providers are both present, the one ahead in the
/// registry is never passed over for the other: detection picks `a` or a provider
/// still further ahead, never `b`.
pub proof fn lemma_priority_resolves(files: Seq<SourceFile>, a: ProviderKind, b: ProviderKind)
    requires
        detects(a, files),
        detects(b, files),
        priority(a) < priority(b),
    ensures
        selected(files) is Some,
        selected(files) != Some(b),
        priority(selected(files)->0) <= priority(a),
{
    lemma_selected_is_first_match(files);
}

} // verus!
