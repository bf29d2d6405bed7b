use nixpacks::assemble::{apply_overrides, assemble_phases, install_key, PhaseOverride};
use nixpacks::builder::{emit_instructions, prefix_through_phase, BuildOptions, Instruction};
use nixpacks::cache::{fnv_continue, FNV_OFFSET};
use nixpacks::config::{parse_port, read_config};
use nixpacks::error::BuildError;
use nixpacks::plan::{order_phases, Phase};
use nixpacks::render::render;
use nixpacks::provider::{
    detect, extract_metadata, registry, script_declared, select_provider, PackageManager,
    ProviderKind,
};
use nixpacks::session::{generate_plan, prepare_build, Action, BuildSession, PlanConfig};
use nixpacks::source::{SourceFile, SourceTree};
use nixpacks::text::{contains_bytes, same_text};

fn tree(files: &[(&str, &str)]) -> SourceTree {
    SourceTree {
        files: files
            .iter()
            .map(|(p, c)| SourceFile { path: p.to_string(), contents: c.as_bytes().to_vec() })
            .collect(),
    }
}

fn no_config() -> PlanConfig {
    PlanConfig { base_image: None, phases: vec![], start_command: None, env: vec![], ports: vec![] }
}

fn options(name: &str) -> BuildOptions {
    BuildOptions { name: name.to_string(), quiet: false, env: vec![] }
}

fn phase(name: &str, deps: &[&str]) -> Phase {
    Phase {
        name: name.to_string(),
        commands: vec![format!("echo {}", name)],
        depends_on: deps.iter().map(|d| d.to_string()).collect(),
        cache_key: 0,
        env: vec![],
    }
}

fn names(ps: &[Phase]) -> Vec<String> {
    ps.iter().map(|p| p.name.clone()).collect()
}

#[test]
fn higher_priority_provider_wins_and_is_stable() {
    let t = tree(&[("requirements.txt", "flask"), ("package.json", "{}")]);
    let reg = registry();
    assert_eq!(select_provider(&reg, &t), Some(ProviderKind::Node));
    for _ in 0..5 {
        assert_eq!(select_provider(&reg, &t), Some(ProviderKind::Node));
    }
    let t2 = tree(&[("go.mod", "module x"), ("Cargo.toml", "[package]")]);
    assert_eq!(select_provider(&reg, &t2), Some(ProviderKind::Go));
    assert!(detect(ProviderKind::Rust, &t2));
}

#[test]
fn empty_directory_matches_no_provider() {
    let t = tree(&[]);
    assert_eq!(select_provider(&registry(), &t), None);
    let tried = vec![ProviderKind::Node, ProviderKind::Python, ProviderKind::Go, ProviderKind::Rust];
    assert_eq!(
        generate_plan(&t, &no_config()),
        Err(BuildError::NoProviderMatched { providers: tried.clone() })
    );
    assert!(matches!(
        prepare_build(&t, &no_config(), &options("img")),
        Err(BuildError::NoProviderMatched { providers }) if providers == tried
    ));
}

#[test]
fn start_script_without_build_gives_three_phases_and_tags() {
    let t = tree(&[("package.json", r#"{"scripts": {"start": "node server.js"}}"#)]);
    let plan = generate_plan(&t, &no_config()).unwrap();
    assert_eq!(names(&plan.phases), vec!["setup", "install", "start"]);
    assert_eq!(plan.phases[1].commands, vec!["npm install".to_string()]);
    assert_eq!(plan.phases[2].commands, vec!["npm run start".to_string()]);
    assert_eq!(plan.phases[2].depends_on, vec!["install".to_string()]);
    let job = prepare_build(&t, &no_config(), &options("my-app")).unwrap();
    let mut s = job.session;
    assert_eq!(s.next_action(), Action::RunPhase(0));
    s.phase_finished(0, String::new());
    assert_eq!(s.next_action(), Action::RunPhase(1));
    s.phase_finished(0, String::new());
    assert_eq!(s.next_action(), Action::Tag);
    s.image_tagged();
    assert_eq!(s.next_action(), Action::Finish);
    assert_eq!(s.finish(), Ok("my-app".to_string()));
}

#[test]
fn build_word_outside_scripts_is_not_a_build_script() {
    let t = tree(&[("package.json", r#"{"name":"build","scripts":{"start":"x"}}"#)]);
    let meta = extract_metadata(ProviderKind::Node, &t);
    assert!(!meta.build_script);
    assert!(meta.start_script);
    let plan = generate_plan(&t, &no_config()).unwrap();
    assert_eq!(names(&plan.phases), vec!["setup", "install", "start"]);
    let t2 = tree(&[("package.json", r#"{"scripts":{"start":"x"},"devDependencies":{"build":"1"}}"#)]);
    assert!(!extract_metadata(ProviderKind::Node, &t2).build_script);
}

#[test]
fn script_keys_are_found_in_scripts_object() {
    assert!(script_declared(br#"{"scripts": {"build": "tsc"}}"#, br#""build":"#));
    assert!(!script_declared(br#"{"build": 1}"#, br#""build":"#));
    assert!(!script_declared(br#"{"scripts": "#, br#""build":"#));
}

#[test]
fn build_script_adds_build_phase() {
    let t = tree(&[
        ("package.json", r#"{"scripts": {"build": "tsc", "start": "node dist"}}"#),
        ("yarn.lock", "lock"),
    ]);
    let meta = extract_metadata(ProviderKind::Node, &t);
    assert_eq!(meta.manager, PackageManager::Yarn);
    assert!(meta.build_script && meta.start_script);
    let plan = generate_plan(&t, &no_config()).unwrap();
    assert_eq!(names(&plan.phases), vec!["setup", "install", "build", "start"]);
    assert_eq!(plan.phases[1].commands, vec!["yarn install".to_string()]);
    assert_eq!(plan.phases[2].commands, vec!["yarn run build".to_string()]);
    assert_eq!(plan.phases[3].depends_on, vec!["build".to_string()]);
    assert_eq!(plan.phases[2].env, vec![("NODE_ENV".to_string(), "production".to_string())]);
    assert!(plan.phases[1].env.is_empty());
    let instrs = emit_instructions(&plan, &options("web"));
    let at = instrs
        .iter()
        .position(|i| *i == Instruction::Run { command: "yarn run build".to_string() })
        .unwrap();
    assert_eq!(
        instrs[at - 2],
        Instruction::Env { name: "NODE_ENV".to_string(), value: "production".to_string() }
    );
    assert_eq!(instrs[at - 1], Instruction::CacheRestore { key: plan.phases[2].cache_key });
}

#[test]
fn unknown_override_phase_is_rejected() {
    let t = tree(&[("package.json", "{}")]);
    let config = PlanConfig {
        base_image: None,
        phases: vec![PhaseOverride { phase: "deploy".to_string(), commands: vec!["x".to_string()] }],
        start_command: None,
        env: vec![],
        ports: vec![],
    };
    assert_eq!(
        generate_plan(&t, &config),
        Err(BuildError::InvalidPhaseOverride { phase: "deploy".to_string() })
    );
}

#[test]
fn override_replaces_commands_of_named_phase() {
    let t = tree(&[("package.json", "{}")]);
    let config = PlanConfig {
        base_image: Some("node:20".to_string()),
        phases: vec![PhaseOverride {
            phase: "install".to_string(),
            commands: vec!["npm ci".to_string()],
        }],
        start_command: Some("node app.js".to_string()),
        env: vec![("PORT".to_string(), "8080".to_string())],
        ports: vec![8080, 9090],
    };
    let plan = generate_plan(&t, &config).unwrap();
    assert_eq!(plan.base_image, "node:20");
    assert_eq!(plan.phases[1].commands, vec!["npm ci".to_string()]);
    let instrs = emit_instructions(&plan, &options("x"));
    assert_eq!(instrs[0], Instruction::From { image: "node:20".to_string() });
    assert_eq!(instrs[2], Instruction::Env { name: "PORT".to_string(), value: "8080".to_string() });
    let n = instrs.len();
    assert_eq!(instrs[n - 3], Instruction::Entrypoint { command: "node app.js".to_string() });
    assert_eq!(instrs[n - 2], Instruction::Expose { port: 8080 });
    assert_eq!(instrs[n - 1], Instruction::Expose { port: 9090 });
}

#[test]
fn dependency_cycle_is_rejected() {
    let mut ps = vec![
        phase("setup", &[]),
        phase("install", &["setup", "build"]),
        phase("build", &["install"]),
        phase("start", &["build"]),
    ];
    match order_phases(&ps) {
        Err(BuildError::CyclicPhaseDependency { mut phases }) => {
            phases.sort();
            assert_eq!(phases, vec!["build".to_string(), "install".to_string()]);
        }
        other => panic!("expected a cycle, got {:?}", other),
    }
    ps.truncate(1);
    ps.truncate(1);
    assert_eq!(order_phases(&ps), Ok(vec![0]));
}

#[test]
fn dangling_reference_is_rejected() {
    let ps = vec![phase("setup", &[]), phase("install", &["prepare"])];
    assert_eq!(
        order_phases(&ps),
        Err(BuildError::DanglingPhaseReference {
            phase: "install".to_string(),
            missing: "prepare".to_string()
        })
    );
}

#[test]
fn order_follows_dependencies_then_declaration() {
    let ps = vec![
        phase("start", &["build"]),
        phase("build", &["install"]),
        phase("lint", &[]),
        phase("install", &["setup"]),
        phase("setup", &[]),
    ];
    assert_eq!(order_phases(&ps), Ok(vec![2, 4, 3, 1, 0]));
}

#[test]
fn consecutive_builds_emit_identical_instructions() {
    let t = tree(&[("package.json", r#"{"build": 1}"#), ("src/main.js", "x")]);
    let a = prepare_build(&t, &no_config(), &options("img")).unwrap();
    let b = prepare_build(&t, &no_config(), &options("img")).unwrap();
    assert_eq!(a.instructions, b.instructions);
    assert_eq!(a.plan, b.plan);
}

#[test]
fn instruction_layout() {
    let t = tree(&[("requirements.txt", "flask")]);
    let opts = BuildOptions {
        name: "py".to_string(),
        quiet: true,
        env: vec![("A".to_string(), "1".to_string())],
    };
    let job = prepare_build(&t, &no_config(), &opts).unwrap();
    let i = &job.instructions;
    assert_eq!(i[0], Instruction::From { image: "nixos/nix:latest".to_string() });
    assert_eq!(
        i[1],
        Instruction::Env {
            name: "YARN_ENABLE_IMMUTABLE_INSTALLS".to_string(),
            value: "false".to_string()
        }
    );
    assert_eq!(i[2], Instruction::Env { name: "A".to_string(), value: "1".to_string() });
    let key = job.plan.phases[0].cache_key;
    assert_eq!(i[3], Instruction::CacheRestore { key });
    assert_eq!(i[4], Instruction::Run { command: "nix-env -iA nixpkgs.python3".to_string() });
    assert_eq!(i[5], Instruction::CacheSave { key });
    assert_eq!(
        i[7],
        Instruction::Run { command: "pip install -r requirements.txt".to_string() }
    );
    assert_eq!(i.len(), 10);
    assert_eq!(i[9], Instruction::Entrypoint { command: "python main.py".to_string() });
    assert_eq!(job.session.phases, vec!["setup".to_string(), "install".to_string()]);
    assert_eq!(prefix_through_phase(i, 0), 6);
    assert_eq!(prefix_through_phase(i, 1), 9);
    assert_eq!(prefix_through_phase(i, 2), 10);
}

#[test]
fn install_key_ignores_application_sources() {
    let t1 = tree(&[("package.json", "{}"), ("index.js", "one")]);
    let t2 = tree(&[("package.json", "{}"), ("index.js", "two")]);
    let t3 = tree(&[("package.json", "{\"x\":1}"), ("index.js", "one")]);
    let m = extract_metadata(ProviderKind::Node, &t1);
    assert_eq!(install_key(m, &t1), install_key(m, &t2));
    assert_ne!(install_key(m, &t1), install_key(m, &t3));
    let p1 = assemble_phases(m, &t1);
    let p2 = assemble_phases(m, &t2);
    assert_eq!(p1[1].cache_key, p2[1].cache_key);
    assert_ne!(p1[2].cache_key, p2[2].cache_key);
}

#[test]
fn failed_phase_aborts_without_tag() {
    let t = tree(&[("go.mod", "module x")]);
    let job = prepare_build(&t, &no_config(), &options("svc")).unwrap();
    let mut s = job.session;
    assert_eq!(s.next_action(), Action::RunPhase(0));
    s.phase_finished(0, String::new());
    s.phase_finished(2, "boom".to_string());
    assert_eq!(s.next_action(), Action::Finish);
    assert!(!s.tagged);
    assert_eq!(
        s.finish(),
        Err(BuildError::PhaseExecution {
            phase: "install".to_string(),
            exit_code: 2,
            output: "boom".to_string()
        })
    );
}

#[test]
fn unavailable_engine_is_reported() {
    let plan = generate_plan(&tree(&[("Cargo.toml", "")]), &no_config()).unwrap();
    let mut s = BuildSession::new(&plan, "r".to_string());
    assert_eq!(s.phases.len(), 3);
    s.engine_unavailable("busy".to_string());
    assert_eq!(s.next_action(), Action::Finish);
    assert_eq!(s.finish(), Err(BuildError::BackendUnavailable { output: "busy".to_string() }));
}

#[test]
fn fnv_known_values() {
    assert_eq!(fnv_continue(FNV_OFFSET, b""), 0xcbf29ce484222325);
    assert_eq!(fnv_continue(FNV_OFFSET, b"a"), 0xaf63dc4c8601ec8c);
    assert_eq!(fnv_continue(FNV_OFFSET, b"foobar"), 0x85944171f73967e8);
}

#[test]
fn byte_and_text_search() {
    assert!(contains_bytes(b"abcdef", b"cde"));
    assert!(!contains_bytes(b"abcdef", b"ced"));
    assert!(contains_bytes(b"abc", b""));
    assert!(!contains_bytes(b"ab", b"abc"));
    assert!(same_text("go.mod", "go.mod"));
    assert!(!same_text("go.mod", "go.sum"));
}

#[test]
fn apply_overrides_leaves_phases_on_error() {
    let t = tree(&[("package.json", "{}")]);
    let m = extract_metadata(ProviderKind::Node, &t);
    let mut ps = assemble_phases(m, &t);
    let before = ps.clone();
    let ovs = vec![
        PhaseOverride { phase: "install".to_string(), commands: vec![] },
        PhaseOverride { phase: "deploy".to_string(), commands: vec![] },
    ];
    assert!(apply_overrides(&mut ps, &ovs).is_err());
    assert_eq!(ps, before);
}

#[test]
fn config_text_is_read_line_by_line() {
    let c = read_config("base_image=node:20\nphases.install=npm ci\n[ignored]\nenv.PORT=80=80\nstart_command=node a.js");
    assert_eq!(c.base_image, Some("node:20".to_string()));
    assert_eq!(c.start_command, Some("node a.js".to_string()));
    assert_eq!(c.phases.len(), 1);
    assert_eq!(c.phases[0].phase, "install");
    assert_eq!(c.phases[0].commands, vec!["npm ci".to_string()]);
    assert_eq!(c.env, vec![("PORT".to_string(), "80=80".to_string())]);
    let empty = read_config("");
    assert_eq!(empty.base_image, None);
    assert!(empty.phases.is_empty() && empty.env.is_empty());
}

#[test]
fn config_naming_unknown_phase_fails_planning() {
    let t = tree(&[("package.json", "{}")]);
    let c = read_config("phases.deploy=./ship.sh\n");
    assert_eq!(
        generate_plan(&t, &c),
        Err(BuildError::InvalidPhaseOverride { phase: "deploy".to_string() })
    );
}

#[test]
fn ports_are_read_from_config() {
    let c = read_config("port=3000\nport=70000\nport=8a\nport=\nport=65535");
    assert_eq!(c.ports, vec![3000, 65535]);
    assert_eq!(parse_port("0"), Some(0));
    assert_eq!(parse_port("65536"), None);
    assert_eq!(parse_port("007"), Some(7));
}

#[test]
fn unclosed_scripts_object_degrades_with_warning() {
    let t = tree(&[("package.json", r#"{"scripts": {"build": "tsc""#)]);
    let meta = extract_metadata(ProviderKind::Node, &t);
    assert!(meta.scripts_unclosed);
    assert!(!meta.build_script && !meta.start_script);
    let plan = generate_plan(&t, &no_config()).unwrap();
    assert_eq!(names(&plan.phases), vec!["setup", "install", "start"]);
    assert_eq!(
        plan.warnings,
        vec!["package.json: the scripts object is not closed; its scripts were ignored".to_string()]
    );
    let ok = generate_plan(&tree(&[("package.json", "{}")]), &no_config()).unwrap();
    assert!(ok.warnings.is_empty());
}

#[test]
fn instructions_render_as_container_file_lines() {
    let instrs = vec![
        Instruction::From { image: "nixos/nix:latest".to_string() },
        Instruction::Env { name: "A".to_string(), value: "say \"hi\" \\ ok".to_string() },
        Instruction::CacheRestore { key: 1234567890123 },
        Instruction::Run { command: "npm install".to_string() },
        Instruction::CacheSave { key: 0 },
        Instruction::Entrypoint { command: "node \"a.js\"".to_string() },
        Instruction::Expose { port: 8080 },
    ];
    assert_eq!(
        render(&instrs),
        "FROM nixos/nix:latest\n\
         ENV A=\"say \\\"hi\\\" \\\\ ok\"\n\
         # restore cache 1234567890123\n\
         RUN npm install\n\
         # save cache 0\n\
         CMD [\"sh\", \"-c\", \"node \\\"a.js\\\"\"]\n\
         EXPOSE 8080\n"
    );
    assert_eq!(render(&[]), "");
}

#[test]
fn toml_style_lines_are_read() {
    let c = read_config(
        "# build settings\n[phases]\nstart_command = \"node server.js\"\nphases.install = \"npm ci\"  \nport = 3000\nenv.MODE = \"a = b\"\nbase_image =  ubuntu \n",
    );
    assert_eq!(c.start_command, Some("node server.js".to_string()));
    assert_eq!(c.phases.len(), 1);
    assert_eq!(c.phases[0].phase, "install");
    assert_eq!(c.phases[0].commands, vec!["npm ci".to_string()]);
    assert_eq!(c.ports, vec![3000]);
    assert_eq!(c.env, vec![("MODE".to_string(), "a = b".to_string())]);
    assert_eq!(c.base_image, Some("ubuntu".to_string()));
}
