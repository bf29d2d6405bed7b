use vstd::prelude::*;

use crate::cache::{digest, fnv_continue, lemma_digest_push, FNV_OFFSET};
use crate::error::BuildError;
use crate::plan::{copy_pairs, find_phase, models, resolves, texts, Phase, PhaseModel};
use crate::provider::{
    lockfile, lockfile_name, signature, signature_file, PackageManager, ProviderKind,
    ProviderMetadata,
};
use crate::source::{contents_named, first_named, has_named, lemma_first_named, SourceFile, SourceTree};

verus! {

/// A replacement of the commands of one phase, read from configuration.
pub struct PhaseOverride {
    pub phase: String,
    pub commands: Vec<String>,
}

/// Installs the provider's toolchain.
pub open spec fn setup_cmd(k: ProviderKind) -> Seq<char> {
    match k {
        ProviderKind::Node => "nix-env -iA nixpkgs.nodejs"@,
        ProviderKind::Python => "nix-env -iA nixpkgs.python3"@,
        ProviderKind::Go => "nix-env -iA nixpkgs.go"@,
        ProviderKind::Rust => "nix-env -iA nixpkgs.rustc nixpkgs.cargo"@,
    }
}

/// Installs the project's dependencies with its package manager.
pub open spec fn install_cmd(m: ProviderMetadata) -> Seq<char> {
    match m.kind {
        ProviderKind::Node => match m.manager {
            PackageManager::Npm => "npm install"@,
            PackageManager::Yarn => "yarn install"@,
            PackageManager::Pnpm => "pnpm install"@,
        },
        ProviderKind::Python => "pip install -r requirements.txt"@,
        ProviderKind::Go => "go mod download"@,
        ProviderKind::Rust => "cargo fetch"@,
    }
}

/// Compiles or bundles the project.
pub open spec fn build_cmd(m: ProviderMetadata) -> Seq<char> {
    match m.kind {
        ProviderKind::Node => match m.manager {
            PackageManager::Npm => "npm run build"@,
            PackageManager::Yarn => "yarn run build"@,
            PackageManager::Pnpm => "pnpm run build"@,
        },
        ProviderKind::Python => "python -m compileall ."@,
        ProviderKind::Go => "go build -o out"@,
        ProviderKind::Rust => "cargo build --release"@,
    }
}

/// Starts the application: the manifest's start script when it declares one.
pub open spec fn start_cmd(m: ProviderMetadata) -> Seq<char> {
    match m.kind {
        ProviderKind::Node => if m.start_script {
            match m.manager {
                PackageManager::Npm => "npm run start"@,
                PackageManager::Yarn => "yarn run start"@,
                PackageManager::Pnpm => "pnpm run start"@,
            }
        } else {
            "node index.js"@
        },
        ProviderKind::Python => "python main.py"@,
        ProviderKind::Go => "./out"@,
        ProviderKind::Rust => "cargo run --release"@,
    }
}

/// The contents of an optional file, empty when it is absent.
pub open spec fn or_empty(c: Option<Seq<u8>>) -> Seq<u8> {
    match c {
        Some(c) => c,
        None => Seq::empty(),
    }
}

/// What the install phase's cache key is computed from: the manifest and the
/// lockfile, and nothing else of the tree.
pub open spec fn install_inputs(m: ProviderMetadata, files: Seq<SourceFile>) -> Seq<Seq<u8>> {
    seq![
        or_empty(contents_named(files, signature(m.kind))),
        match lockfile(m.kind, m.manager) {
            Some(l) => or_empty(contents_named(files, l)),
            None => Seq::empty(),
        },
    ]
}

/// The contents of every file, in listing order.
pub open spec fn all_contents(files: Seq<SourceFile>) -> Seq<Seq<u8>> {
    files.map_values(|f: SourceFile| f.contents@)
}

/// What the setup phase's cache key is computed from: the provider alone.
pub open spec fn setup_inputs(k: ProviderKind) -> Seq<Seq<u8>> {
    seq![seq![crate::provider::priority(k) as u8]]
}

/// Variables of the build phase: Node projects build for production.
pub open spec fn build_env(k: ProviderKind) -> Seq<(Seq<char>, Seq<char>)> {
    if k == ProviderKind::Node {
        seq![("NODE_ENV"@, "production"@)]
    } else {
        Seq::empty()
    }
}

/// The canonical phases of a matched provider, before overrides.
pub open spec fn template(m: ProviderMetadata, files: Seq<SourceFile>) -> Seq<PhaseModel> {
    let setup = PhaseModel {
        name: "setup"@,
        commands: seq![setup_cmd(m.kind)],
        depends_on: Seq::empty(),
        cache_key: digest(setup_inputs(m.kind)),
        env: Seq::empty(),
    };
    let install = PhaseModel {
        name: "install"@,
        commands: seq![install_cmd(m)],
        depends_on: seq!["setup"@],
        cache_key: digest(install_inputs(m, files)),
        env: Seq::empty(),
    };
    let build = PhaseModel {
        name: "build"@,
        commands: seq![build_cmd(m)],
        depends_on: seq!["install"@],
        cache_key: digest(all_contents(files)),
        env: build_env(m.kind),
    };
    let start = PhaseModel {
        name: "start"@,
        commands: seq![start_cmd(m)],
        depends_on: seq![if m.build_script { "build"@ } else { "install"@ }],
        cache_key: digest(all_contents(files)),
        env: Seq::empty(),
    };
    if m.build_script {
        seq![setup, install, build, start]
    } else {
        seq![setup, install, start]
    }
}

pub(crate) fn text(s: &str) -> (r: String)
    ensures
        r@ == s@,
{
    String::from_str(s)
}

fn single(s: String) -> (r: Vec<String>)
    ensures
        texts(r@) == seq![s@],
{
    let r = vec![s];
    assert(texts(r@) =~= seq![r@[0]@]);
    r
}

fn setup_command(k: ProviderKind) -> (r: String)
    ensures
        r@ == setup_cmd(k),
{
    match k {
        ProviderKind::Node => text("nix-env -iA nixpkgs.nodejs"),
        ProviderKind::Python => text("nix-env -iA nixpkgs.python3"),
        ProviderKind::Go => text("nix-env -iA nixpkgs.go"),
        ProviderKind::Rust => text("nix-env -iA nixpkgs.rustc nixpkgs.cargo"),
    }
}

fn install_command(m: ProviderMetadata) -> (r: String)
    ensures
        r@ == install_cmd(m),
{
    match m.kind {
        ProviderKind::Node => match m.manager {
            PackageManager::Npm => text("npm install"),
            PackageManager::Yarn => text("yarn install"),
            PackageManager::Pnpm => text("pnpm install"),
        },
        ProviderKind::Python => text("pip install -r requirements.txt"),
        ProviderKind::Go => text("go mod download"),
        ProviderKind::Rust => text("cargo fetch"),
    }
}

fn build_command(m: ProviderMetadata) -> (r: String)
    ensures
        r@ == build_cmd(m),
{
    match m.kind {
        ProviderKind::Node => match m.manager {
            PackageManager::Npm => text("npm run build"),
            PackageManager::Yarn => text("yarn run build"),
            PackageManager::Pnpm => text("pnpm run build"),
        },
        ProviderKind::Python => text("python -m compileall ."),
        ProviderKind::Go => text("go build -o out"),
        ProviderKind::Rust => text("cargo build --release"),
    }
}

fn start_command(m: ProviderMetadata) -> (r: String)
    ensures
        r@ == start_cmd(m),
{
    match m.kind {
        ProviderKind::Node => if m.start_script {
            match m.manager {
                PackageManager::Npm => text("npm run start"),
                PackageManager::Yarn => text("yarn run start"),
                PackageManager::Pnpm => text("pnpm run start"),
            }
        } else {
            text("node index.js")
        },
        ProviderKind::Python => text("python main.py"),
        ProviderKind::Go => text("./out"),
        ProviderKind::Rust => text("cargo run --release"),
    }
}

/// Cache key of the setup phase.
pub fn setup_key(k: ProviderKind) -> (r: u64)
    ensures
        r == digest(setup_inputs(k)),
{
    let b: u8 = match k {
        ProviderKind::Node => 0,
        ProviderKind::Python => 1,
        ProviderKind::Go => 2,
        ProviderKind::Rust => 3,
    };
    let bytes: Vec<u8> = vec![b];
    let r = fnv_continue(FNV_OFFSET, bytes.as_slice());
    proof {
        lemma_digest_push(FNV_OFFSET, Seq::empty(), bytes@);
        assert(bytes@ =~= seq![crate::provider::priority(k) as u8]);
        assert(Seq::<Seq<u8>>::empty().push(bytes@) =~= setup_inputs(k));
    }
    r
}

/// Cache key of the install phase: a digest of the manifest and the lockfile only.
pub fn install_key(m: ProviderMetadata, tree: &SourceTree) -> (r: u64)
    ensures
        r == digest(install_inputs(m, tree.files@)),
{
    let empty: Vec<u8> = Vec::new();
    let manifest: &Vec<u8> = match tree.file_contents(signature_file(m.kind)) {
        Some(c) => c,
        None => &empty,
    };
    let lock: &Vec<u8> = match lockfile_name(m.kind, m.manager) {
        Some(l) => match tree.file_contents(l) {
            Some(c) => c,
            None => &empty,
        },
        None => &empty,
    };
    let h1 = fnv_continue(FNV_OFFSET, manifest.as_slice());
    let h2 = fnv_continue(h1, lock.as_slice());
    proof {
        let ins = install_inputs(m, tree.files@);
        assert(manifest@ == ins[0]);
        assert(lock@ == ins[1]);
        lemma_digest_push(FNV_OFFSET, Seq::empty(), ins[0]);
        assert(Seq::<Seq<u8>>::empty().push(ins[0]) =~= seq![ins[0]]);
        lemma_digest_push(FNV_OFFSET, seq![ins[0]], ins[1]);
        assert(seq![ins[0]].push(ins[1]) =~= ins);
    }
    h2
}

/// Cache key over the whole tree: a digest of every file's contents.
pub fn tree_key(tree: &SourceTree) -> (r: u64)
    ensures
        r == digest(all_contents(tree.files@)),
{
    let mut h: u64 = FNV_OFFSET;
    let mut i: usize = 0;
    while i < tree.files.len()
        invariant
            i <= tree.files@.len(),
            h == digest(all_contents(tree.files@).subrange(0, i as int)),
        decreases tree.files@.len() - i,
    {
        proof {
            let a = all_contents(tree.files@);
            lemma_digest_push(FNV_OFFSET, a.subrange(0, i as int), a[i as int]);
            assert(a.subrange(0, i as int).push(a[i as int]) =~= a.subrange(0, i + 1));
        }
        h = fnv_continue(h, tree.files[i].contents.as_slice());
        i = i + 1;
    }
    assert(all_contents(tree.files@).subrange(0, i as int) =~= all_contents(tree.files@));
    h
}

fn build_vars(k: ProviderKind) -> (r: Vec<(String, String)>)
    ensures
        crate::plan::pair_texts(r@) == build_env(k),
{
    let mut r: Vec<(String, String)> = Vec::new();
    if k == ProviderKind::Node {
        r.push((text("NODE_ENV"), text("production")));
    }
    assert(crate::plan::pair_texts(r@) =~= build_env(k));
    r
}

/// The canonical phases for a tree matched by the provider of `m`.
pub fn assemble_phases(m: ProviderMetadata, tree: &SourceTree) -> (r: Vec<Phase>)
    ensures
        models(r@) == template(m, tree.files@),
{
    let whole = tree_key(tree);
    let setup = Phase {
        name: text("setup"),
        commands: single(setup_command(m.kind)),
        depends_on: Vec::new(),
        cache_key: setup_key(m.kind),
        env: Vec::new(),
    };
    assert(texts(setup.depends_on@) =~= Seq::empty());
    assert(crate::plan::pair_texts(setup.env@) =~= Seq::empty());
    let install = Phase {
        name: text("install"),
        commands: single(install_command(m)),
        depends_on: single(text("setup")),
        cache_key: install_key(m, tree),
        env: Vec::new(),
    };
    assert(crate::plan::pair_texts(install.env@) =~= Seq::empty());
    let start_after = if m.build_script {
        text("build")
    } else {
        text("install")
    };
    let start = Phase {
        name: text("start"),
        commands: single(start_command(m)),
        depends_on: single(start_after),
        cache_key: whole,
        env: Vec::new(),
    };
    assert(crate::plan::pair_texts(start.env@) =~= Seq::empty());
    let mut r: Vec<Phase> = Vec::new();
    r.push(setup);
    r.push(install);
    if m.build_script {
        let build = Phase {
            name: text("build"),
            commands: single(build_command(m)),
            depends_on: single(text("install")),
            cache_key: whole,
            env: build_vars(m.kind),
        };
        r.push(build);
    }
    r.push(start);
    assert(models(r@) =~= template(m, tree.files@));
    r
}

/// Replaces the commands of every phase named `name`.
pub open spec fn apply_one(ps: Seq<PhaseModel>, name: Seq<char>, cmds: Seq<Seq<char>>) -> Seq<
    PhaseModel,
> {
    ps.map_values(
        |p: PhaseModel|
            if p.name == name {
                PhaseModel { commands: cmds, ..p }
            } else {
                p
            },
    )
}

/// Applies the overrides in turn.
pub open spec fn apply_all(ps: Seq<PhaseModel>, ovs: Seq<PhaseOverride>) -> Seq<PhaseModel>
    decreases ovs.len(),
{
    if ovs.len() == 0 {
        ps
    } else {
        apply_all(apply_one(ps, ovs[0].phase@, texts(ovs[0].commands@)), ovs.drop_first())
    }
}

pub(crate) fn copy_texts(v: &Vec<String>) -> (r: Vec<String>)
    ensures
        texts(r@) == texts(v@),
{
    let mut r: Vec<String> = Vec::new();
    let mut i: usize = 0;
    while i < v.len()
        invariant
            i <= v@.len(),
            r@.len() == i,
            texts(r@) == texts(v@).subrange(0, i as int),
        decreases v@.len() - i,
    {
        let c = v[i].clone();
        assert(c == v@[i as int]);
        let ghost before = r@;
        r.push(c);
        assert(r@ == before.push(c));
        assert forall|a: int| 0 <= a < i + 1 implies #[trigger] texts(r@)[a] == texts(v@).subrange(
            0,
            i + 1,
        )[a] by {
            if a < i {
                assert(texts(before)[a] == texts(v@).subrange(0, i as int)[a]);
            }
        }
        assert(texts(r@) =~= texts(v@).subrange(0, i + 1));
        i = i + 1;
    }
    assert(texts(v@).subrange(0, i as int) =~= texts(v@));
    r
}

fn replace_commands(ps: &mut Vec<Phase>, o: &PhaseOverride)
    ensures
        models(final(ps)@) == apply_one(models(old(ps)@), o.phase@, texts(o.commands@)),
        forall|j: int| 0 <= j < old(ps)@.len() ==> #[trigger] final(ps)@[j].name@ == old(ps)@[j].name@,
        final(ps)@.len() == old(ps)@.len(),
{
    let ghost target = apply_one(models(ps@), o.phase@, texts(o.commands@));
    let mut j: usize = 0;
    while j < ps.len()
        invariant
            ps@.len() == old(ps)@.len(),
            target == apply_one(models(old(ps)@), o.phase@, texts(o.commands@)),
            j <= ps@.len(),
            forall|a: int| 0 <= a < j ==> #[trigger] models(ps@)[a] == target[a],
            forall|a: int| j <= a < ps@.len() ==> #[trigger] ps@[a] == old(ps)@[a],
            forall|a: int| 0 <= a < ps@.len() ==> #[trigger] ps@[a].name@ == old(ps)@[a].name@,
        decreases ps@.len() - j,
    {
        if ps[j].name == o.phase {
            let p = Phase {
                name: ps[j].name.clone(),
                commands: copy_texts(&o.commands),
                depends_on: copy_texts(&ps[j].depends_on),
                cache_key: ps[j].cache_key,
                env: copy_pairs(&ps[j].env),
            };
            let ghost before = ps@;
            ps.set(j, p);
            assert forall|a: int| 0 <= a < j implies #[trigger] models(ps@)[a] == target[a] by {
                assert(ps@[a] == before[a]);
                assert(models(before)[a] == target[a]);
            }
            assert(models(ps@)[j as int] =~= target[j as int]);
        }
        j = j + 1;
    }
    assert(models(ps@) =~= target);
}

/// Applies configuration overrides to the phases of a provider's template. Every
/// override must name a phase of the template; the first that does not is
/// reported and the phases are left as they were.
pub fn apply_overrides(ps: &mut Vec<Phase>, ovs: &Vec<PhaseOverride>) -> (r: Result<(), BuildError>)
    ensures
        match r {
            Ok(()) => {
                &&& forall|i: int| 0 <= i < ovs@.len() ==> resolves(models(old(ps)@), #[trigger] ovs@[i].phase@)
                &&& models(final(ps)@) == apply_all(models(old(ps)@), ovs@)
            },
            Err(BuildError::InvalidPhaseOverride { phase }) => {
                &&& final(ps)@ == old(ps)@
                &&& exists|i: int|
                    0 <= i < ovs@.len() && !resolves(models(old(ps)@), #[trigger] ovs@[i].phase@)
                        && ovs@[i].phase@ == phase@
            },
            Err(_) => false,
        },
{
    let mut i: usize = 0;
    while i < ovs.len()
        invariant
            i <= ovs@.len(),
            forall|a: int| 0 <= a < i ==> resolves(models(ps@), #[trigger] ovs@[a].phase@),
        decreases ovs@.len() - i,
    {
        match find_phase(ps, &ovs[i].phase) {
            Some(_) => {},
            None => {
                return Err(BuildError::InvalidPhaseOverride { phase: ovs[i].phase.clone() });
            },
        }
        i = i + 1;
    }
    let mut i: usize = 0;
    assert(ovs@.subrange(0, ovs@.len() as int) =~= ovs@);
    while i < ovs.len()
        invariant
            i <= ovs@.len(),
            ps@.len() == old(ps)@.len(),
            forall|a: int| 0 <= a < ps@.len() ==> #[trigger] ps@[a].name@ == old(ps)@[a].name@,
            apply_all(models(old(ps)@), ovs@) == apply_all(
                models(ps@),
                ovs@.subrange(i as int, ovs@.len() as int),
            ),
        decreases ovs@.len() - i,
    {
        assert(ovs@.subrange(i as int, ovs@.len() as int).drop_first() =~= ovs@.subrange(
            i + 1,
            ovs@.len() as int,
        ));
        replace_commands(ps, &ovs[i]);
        i = i + 1;
    }
    assert(ovs@.subrange(i as int, ovs@.len() as int) =~= Seq::<PhaseOverride>::empty());
    Ok(())
}

proof fn lemma_same_paths_contents(
    t1: Seq<SourceFile>,
    t2: Seq<SourceFile>,
    i: int,
    name: Seq<char>,
)
    requires
        t1.len() == t2.len(),
        forall|j: int| 0 <= j < t1.len() ==> #[trigger] t1[j].path@ == t2[j].path@,
        forall|j: int| 0 <= j < t1.len() && j != i ==> #[trigger] t1[j].contents@ == t2[j].contents@,
        0 <= i < t1.len() ==> t1[i].path@ != name,
    ensures
        contents_named(t1, name) == contents_named(t2, name),
{
    lemma_first_named(t1, name);
    lemma_first_named(t2, name);
    if has_named(t1, name) {
        let k = choose|j: int| 0 <= j < t1.len() && #[trigger] t1[j].path@ == name;
        assert(t2[k].path@ == name);
        let a = choose|j: int| first_named(t1, name, j);
        let b = choose|j: int| first_named(t2, name, j);
        assert(first_named(t1, name, a));
        assert forall|j: int| 0 <= j < a implies t2[j].path@ != name by {
            assert(t1[j].path@ == t2[j].path@);
        }
        assert(first_named(t2, name, a));
        assert(first_named(t2, name, b));
        assert(a == b);
    } else {
        if has_named(t2, name) {
            let k = choose|j: int| 0 <= j < t2.len() && #[trigger] t2[j].path@ == name;
            assert(t1[k].path@ == name);
        }
    }
}

/// Editing the contents of a file that is neither the manifest nor the lockfile
/// leaves the install phase's inputs, and so its cache key, as they were; giving the
/// manifest other contents changes those inputs.
pub proof fn lemma_install_key_scope(
    m: ProviderMetadata,
    t1: Seq<SourceFile>,
    t2: Seq<SourceFile>,
    i: int,
)
    requires
        t1.len() == t2.len(),
        forall|j: int| 0 <= j < t1.len() ==> #[trigger] t1[j].path@ == t2[j].path@,
        forall|j: int| 0 <= j < t1.len() && j != i ==> #[trigger] t1[j].contents@ == t2[j].contents@,
    ensures
        0 <= i < t1.len() && t1[i].path@ != signature(m.kind) && lockfile(m.kind, m.manager)
            != Some(t1[i].path@) ==> {
            &&& install_inputs(m, t1) == install_inputs(m, t2)
            &&& template(m, t1)[1].cache_key == template(m, t2)[1].cache_key
        },
        has_named(t1, signature(m.kind)) && contents_named(t1, signature(m.kind)) != contents_named(
            t2,
            signature(m.kind),
        ) ==> install_inputs(m, t1) != install_inputs(m, t2),
{
    if 0 <= i < t1.len() && t1[i].path@ != signature(m.kind) && lockfile(m.kind, m.manager) != Some(
        t1[i].path@,
    ) {
        lemma_same_paths_contents(t1, t2, i, signature(m.kind));
        match lockfile(m.kind, m.manager) {
            Some(l) => lemma_same_paths_contents(t1, t2, i, l),
            None => {},
        }
        assert(install_inputs(m, t1) =~= install_inputs(m, t2));
    }
    if has_named(t1, signature(m.kind)) && contents_named(t1, signature(m.kind)) != contents_named(
        t2,
        signature(m.kind),
    ) {
        let k = choose|j: int| 0 <= j < t1.len() && #[trigger] t1[j].path@ == signature(m.kind);
        assert(t2[k].path@ == signature(m.kind));
        assert(install_inputs(m, t1)[0] != install_inputs(m, t2)[0]);
    }
}

} // verus!
