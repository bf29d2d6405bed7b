use vstd::prelude::*;

use crate::assemble::{
    apply_all, apply_overrides, assemble_phases, copy_texts, template, text, PhaseOverride,
};
use crate::builder::{emit_instructions, env_block, instr_models, instructions_of, BuildOptions, Instruction};
use crate::error::BuildError;
use crate::plan::{
    has_cycle, lemma_stable_order_unique, models, order_phases, references_resolve, resolves,
    is_stable_order, texts, Phase, PhaseModel, Plan,
};
use crate::provider::{ProviderMetadata, extract_metadata, metadata_of, registry, registry_order, select_provider, selected};
use crate::source::{SourceFile, SourceTree};

verus! {

/// Settings read from a project's configuration file; each one that is given
/// replaces the provider's default.
pub struct PlanConfig {
    pub base_image: Option<String>,
    pub phases: Vec<PhaseOverride>,
    pub start_command: Option<String>,
    /// Ports the image exposes.
    pub ports: Vec<u16>,
    /// Variables added to the plan's environment after the fixed ones.
    pub env: Vec<(String, String)>,
}

/// The text of an optional string.
pub open spec fn opt_text(s: Option<String>) -> Option<Seq<char>> {
    match s {
        Some(s) => Some(s@),
        None => None,
    }
}

/// The texts of a list of variables.
pub open spec fn env_texts(env: Seq<(String, String)>) -> Seq<(Seq<char>, Seq<char>)> {
    env.map_values(|e: (String, String)| (e.0@, e.1@))
}

/// Variables set in every build so that package managers tolerate lockfile drift.
pub open spec fn fixed_env() -> Seq<(Seq<char>, Seq<char>)> {
    seq![("YARN_ENABLE_IMMUTABLE_INSTALLS"@, "false"@)]
}

/// The base image used when the configuration names none.
pub open spec fn default_base() -> Seq<char> {
    "nixos/nix:latest"@
}

/// The phases of a tree matched by `k`, after the configuration's overrides.
pub open spec fn planned(
    k: crate::provider::ProviderKind,
    files: Seq<SourceFile>,
    ovs: Seq<PhaseOverride>,
) -> Seq<PhaseModel> {
    apply_all(template(metadata_of(k, files), files), ovs)
}

/// Warnings recorded for metadata that was malformed but readable.
pub open spec fn warnings_of(m: ProviderMetadata) -> Seq<Seq<char>> {
    if m.scripts_unclosed {
        seq![unclosed_warning()]
    } else {
        Seq::empty()
    }
}

/// The warning for a manifest whose scripts object is not closed.
pub open spec fn unclosed_warning() -> Seq<char> {
    "package.json: the scripts object is not closed; its scripts were ignored"@
}

/// `plan` is the plan generated for `files` under `config`.
pub open spec fn plan_of(files: Seq<SourceFile>, config: PlanConfig, plan: Plan) -> bool {
    &&& selected(files) is Some
    &&& forall|i: int|
        0 <= i < config.phases@.len() ==> resolves(
            template(metadata_of(selected(files)->0, files), files),
            #[trigger] config.phases@[i].phase@,
        )
    &&& {
        let ms = planned(selected(files)->0, files, config.phases@);
        &&& references_resolve(ms)
        &&& !has_cycle(ms)
        &&& exists|order: Seq<usize>|
            is_stable_order(ms, order) && models(plan.phases@) == order.map_values(
                |i: usize| ms[i as int],
            )
    }
    &&& plan.base_image@ == match config.base_image {
        Some(b) => b@,
        None => default_base(),
    }
    &&& env_texts(plan.env@) == fixed_env() + env_texts(config.env@)
    &&& opt_text(plan.start_command) == opt_text(config.start_command)
    &&& plan.ports@ == config.ports@
    &&& texts(plan.warnings@) == warnings_of(metadata_of(selected(files)->0, files))
}

fn copy_phase(p: &Phase) -> (r: Phase)
    ensures
        r@ == p@,
{
    Phase {
        name: p.name.clone(),
        commands: copy_texts(&p.commands),
        depends_on: copy_texts(&p.depends_on),
        cache_key: p.cache_key,
        env: crate::plan::copy_pairs(&p.env),
    }
}

fn copy_opt(s: &Option<String>) -> (r: Option<String>)
    ensures
        opt_text(r) == opt_text(*s),
{
    match s {
        Some(s) => Some(s.clone()),
        None => None,
    }
}

fn copy_ports(v: &Vec<u16>) -> (r: Vec<u16>)
    ensures
        r@ == v@,
{
    let mut r: Vec<u16> = Vec::new();
    let mut i: usize = 0;
    while i < v.len()
        invariant
            i <= v@.len(),
            r@ == v@.subrange(0, i as int),
        decreases v@.len() - i,
    {
        r.push(v[i]);
        assert(r@ =~= v@.subrange(0, i + 1));
        i = i + 1;
    }
    assert(v@.subrange(0, i as int) =~= v@);
    r
}

fn reorder(ps: &Vec<Phase>, order: &Vec<usize>) -> (r: Vec<Phase>)
    requires
        forall|p: int| 0 <= p < order@.len() ==> order@[p] < ps@.len(),
    ensures
        models(r@) == order@.map_values(|i: usize| models(ps@)[i as int]),
{
    let ghost want = order@.map_values(|i: usize| models(ps@)[i as int]);
    let mut r: Vec<Phase> = Vec::new();
    let mut p: usize = 0;
    while p < order.len()
        invariant
            p <= order@.len(),
            forall|q: int| 0 <= q < order@.len() ==> order@[q] < ps@.len(),
            want == order@.map_values(|i: usize| models(ps@)[i as int]),
            models(r@) == want.subrange(0, p as int),
        decreases order@.len() - p,
    {
        let ph = copy_phase(&ps[order[p]]);
        let ghost before = r@;
        r.push(ph);
        assert(models(r@) =~= models(before).push(ph@));
        assert(want.subrange(0, p + 1) =~= want.subrange(0, p as int).push(want[p as int]));
        p = p + 1;
    }
    assert(want.subrange(0, p as int) =~= want);
    r
}

/// `e` is the error that planning `files` under `config` ends with.
pub open spec fn plan_error(files: Seq<SourceFile>, config: PlanConfig, e: BuildError) -> bool {
    match e {
        BuildError::NoProviderMatched { providers } => selected(files) is None && providers@
            == registry_order(),
        BuildError::InvalidPhaseOverride { phase } => {
            &&& selected(files) is Some
            &&& exists|i: int|
                0 <= i < config.phases@.len() && !resolves(
                    template(
                        metadata_of(selected(files)->0, files),
                        files,
                    ),
                    #[trigger] config.phases@[i].phase@,
                ) && config.phases@[i].phase@ == phase@
        },
        BuildError::CyclicPhaseDependency { .. } => {
            &&& selected(files) is Some
            &&& references_resolve(planned(selected(files)->0, files, config.phases@))
            &&& has_cycle(planned(selected(files)->0, files, config.phases@))
        },
        BuildError::DanglingPhaseReference { .. } => {
            &&& selected(files) is Some
            &&& !references_resolve(
                planned(selected(files)->0, files, config.phases@),
            )
        },
        _ => false,
    }
}

/// Detects the provider, assembles its phases, applies the configuration's
/// overrides and validates the result into a plan whose phases stand in the order
/// the builder runs them.
#[verifier::rlimit(30)]
pub fn generate_plan(tree: &SourceTree, config: &PlanConfig) -> (r: Result<Plan, BuildError>)
    ensures
        match r {
            Ok(plan) => plan_of(tree.files@, *config, plan),
            Err(e) => plan_error(tree.files@, *config, e),
        },
{
    let reg = registry();
    let kind = match select_provider(&reg, tree) {
        Some(k) => k,
        None => {
            return Err(BuildError::NoProviderMatched { providers: reg });
        },
    };
    let meta = extract_metadata(kind, tree);
    let mut phases = assemble_phases(meta, tree);
    let ghost ms = planned(kind, tree.files@, config.phases@);
    match apply_overrides(&mut phases, &config.phases) {
        Ok(()) => {},
        Err(e) => {
            return Err(e);
        },
    }
    assert(models(phases@) == ms);
    let order = match order_phases(&phases) {
        Ok(o) => o,
        Err(e) => {
            return Err(e);
        },
    };
    let ordered = reorder(&phases, &order);
    assert(is_stable_order(ms, order@) && models(ordered@) == order@.map_values(
        |i: usize| ms[i as int],
    ));
    let base_image = match &config.base_image {
        Some(b) => b.clone(),
        None => text("nixos/nix:latest"),
    };
    let mut env = vec![(text("YARN_ENABLE_IMMUTABLE_INSTALLS"), text("false"))];
    assert(env_texts(env@) =~= fixed_env());
    let mut i: usize = 0;
    while i < config.env.len()
        invariant
            i <= config.env@.len(),
            env_texts(env@) == fixed_env() + env_texts(config.env@.subrange(0, i as int)),
        decreases config.env@.len() - i,
    {
        let ghost before = env@;
        env.push((config.env[i].0.clone(), config.env[i].1.clone()));
        assert(env_texts(env@) =~= env_texts(before).push(
            (config.env@[i as int].0@, config.env@[i as int].1@),
        ));
        assert(env_texts(config.env@.subrange(0, i + 1)) =~= env_texts(
            config.env@.subrange(0, i as int),
        ).push((config.env@[i as int].0@, config.env@[i as int].1@)));
        i = i + 1;
    }
    assert(config.env@.subrange(0, i as int) =~= config.env@);
    let ports = copy_ports(&config.ports);
    let mut warnings: Vec<String> = Vec::new();
    if meta.scripts_unclosed {
        warnings.push(text("package.json: the scripts object is not closed; its scripts were ignored"));
    }
    assert(texts(warnings@) =~= warnings_of(meta));
    let plan = Plan {
        base_image,
        phases: ordered,
        env,
        start_command: copy_opt(&config.start_command),
        ports,
        warnings,
    };
    assert(plan_of(tree.files@, *config, plan));
    Ok(plan)
}

/// Two plans generated from the same tree and configuration produce the same
/// instruction sequence under the same build options.
pub proof fn lemma_plan_deterministic(
    files: Seq<SourceFile>,
    config: PlanConfig,
    opts: BuildOptions,
    p1: Plan,
    p2: Plan,
)
    requires
        plan_of(files, config, p1),
        plan_of(files, config, p2),
    ensures
        instructions_of(p1, opts) == instructions_of(p2, opts),
{
    let ms = planned(selected(files)->0, files, config.phases@);
    let o1 = choose|order: Seq<usize>|
        is_stable_order(ms, order) && models(p1.phases@) == order.map_values(
            |i: usize| ms[i as int],
        );
    let o2 = choose|order: Seq<usize>|
        is_stable_order(ms, order) && models(p2.phases@) == order.map_values(
            |i: usize| ms[i as int],
        );
    lemma_stable_order_unique(ms, o1, o2);
    assert(env_texts(p1.env@) == env_texts(p2.env@));
    assert(env_texts(p1.env@).len() == p1.env@.len());
    assert(env_texts(p2.env@).len() == p2.env@.len());
    assert forall|i: int| 0 <= i < p1.env@.len() implies #[trigger] env_block(p1.env@)[i] == env_block(
        p2.env@,
    )[i] by {
        assert(env_texts(p1.env@)[i] == env_texts(p2.env@)[i]);
    }
    assert(env_block(p1.env@) =~= env_block(p2.env@));
}

/// The names of the phases that run at build time (all but `start`), in order.
pub open spec fn run_names(ms: Seq<PhaseModel>) -> Seq<Seq<char>>
    decreases ms.len(),
{
    if ms.len() == 0 {
        Seq::empty()
    } else if ms.last().name == "start"@ {
        run_names(ms.drop_last())
    } else {
        run_names(ms.drop_last()).push(ms.last().name)
    }
}

/// What the caller is to do next for a build.
#[derive(Clone, Copy, Debug, PartialEq, Eq, Structural)]
pub enum Action {
    /// Run the commands of phase `i` of the session.
    RunPhase(usize),
    /// Every phase succeeded: tag the image with the requested name.
    Tag,
    /// Nothing is left to do: take the outcome.
    Finish,
}

/// The progress of one build through its phases. The caller asks for the next
/// action, performs it, and reports what happened.
pub struct BuildSession {
    pub phases: Vec<String>,
    pub image_name: String,
    pub next: usize,
    pub failure: Option<BuildError>,
    pub tagged: bool,
}

impl BuildSession {
    /// The image is tagged only after every phase ran, and never after a failure.
    pub open spec fn wf(&self) -> bool {
        &&& self.next <= self.phases@.len()
        &&& self.tagged ==> self.next == self.phases@.len() && self.failure is None
    }

    /// The action that follows from the state.
    pub open spec fn action(&self) -> Action {
        if self.failure is Some {
            Action::Finish
        } else if self.next < self.phases@.len() {
            Action::RunPhase(self.next)
        } else if !self.tagged {
            Action::Tag
        } else {
            Action::Finish
        }
    }

    /// A session for a plan, before any phase ran.
    pub fn new(plan: &Plan, image_name: String) -> (r: BuildSession)
        ensures
            r.wf(),
            texts(r.phases@) == run_names(models(plan.phases@)),
            r.image_name == image_name,
            r.next == 0,
            r.failure is None,
            !r.tagged,
    {
        proof {
            reveal_strlit("start");
        }
        let ghost ms = models(plan.phases@);
        let mut names: Vec<String> = Vec::new();
        let mut i: usize = 0;
        while i < plan.phases.len()
            invariant
                i <= plan.phases@.len(),
                ms == models(plan.phases@),
                texts(names@) == run_names(ms.subrange(0, i as int)),
            decreases plan.phases@.len() - i,
        {
            assert(ms.subrange(0, i + 1).drop_last() =~= ms.subrange(0, i as int));
            assert(ms.subrange(0, i + 1).last() == ms[i as int]);
            if !crate::text::same_text(plan.phases[i].name.as_str(), "start") {
                let ghost before = names@;
                names.push(plan.phases[i].name.clone());
                assert(texts(names@) =~= texts(before).push(ms[i as int].name));
            }
            i = i + 1;
        }
        assert(ms.subrange(0, i as int) =~= ms);
        BuildSession { phases: names, image_name, next: 0, failure: None, tagged: false }
    }

    /// The next thing to do.
    pub fn next_action(&self) -> (r: Action)
        ensures
            r == self.action(),
    {
        if self.failure.is_some() {
            Action::Finish
        } else if self.next < self.phases.len() {
            Action::RunPhase(self.next)
        } else if !self.tagged {
            Action::Tag
        } else {
            Action::Finish
        }
    }

    /// Records the exit status of the phase just run. A non-zero status ends the
    /// build with the phase's name, its status and its output; nothing is retried.
    pub fn phase_finished(&mut self, exit_code: i32, output: String)
        requires
            old(self).wf(),
            old(self).action() == Action::RunPhase(old(self).next),
        ensures
            final(self).wf(),
            final(self).phases == old(self).phases,
            final(self).image_name == old(self).image_name,
            !final(self).tagged,
            exit_code == 0 ==> final(self).next == old(self).next + 1,
            exit_code == 0 ==> final(self).failure is None,
            exit_code != 0 ==> {
                &&& final(self).next == old(self).next
                &&& final(self).failure matches Some(
                    BuildError::PhaseExecution { phase, exit_code: c, output: o },
                )
                &&& phase@ == old(self).phases@[old(self).next as int]@
                &&& c == exit_code
                &&& o@ == output@
            },
    {
        if exit_code == 0 {
            assert(self.next < self.phases@.len());
            let n = self.phases.len();
            assert(self.next < n);
            self.next = self.next + 1;
        } else {
            let phase = self.phases[self.next].clone();
            self.failure = Some(BuildError::PhaseExecution { phase, exit_code, output });
        }
    }

    /// Records that the container engine could not be reached or stayed busy.
    pub fn engine_unavailable(&mut self, output: String)
        requires
            old(self).wf(),
            old(self).failure is None,
            !old(self).tagged,
        ensures
            final(self).wf(),
            final(self).phases == old(self).phases,
            final(self).image_name == old(self).image_name,
            final(self).next == old(self).next,
            !final(self).tagged,
            final(self).failure matches Some(BuildError::BackendUnavailable { output: o }) && o@
                == output@,
    {
        self.failure = Some(BuildError::BackendUnavailable { output });
    }

    /// Records that the image now carries the requested tag.
    pub fn image_tagged(&mut self)
        requires
            old(self).wf(),
            old(self).action() == Action::Tag,
        ensures
            final(self).wf(),
            final(self).phases == old(self).phases,
            final(self).image_name == old(self).image_name,
            final(self).next == old(self).next,
            final(self).failure is None,
            final(self).tagged,
    {
        self.tagged = true;
    }

    /// The outcome of a finished session: the requested tag, or why it failed.
    pub fn finish(self) -> (r: Result<String, BuildError>)
        requires
            self.wf(),
            self.action() == Action::Finish,
        ensures
            r is Ok <==> self.tagged,
            r matches Ok(n) ==> n == self.image_name,
            r matches Err(e) ==> self.failure == Some(e),
    {
        match self.failure {
            Some(e) => Err(e),
            None => Ok(self.image_name),
        }
    }
}

/// A session that holds a failure never asks for the image to be tagged, was
/// not tagged, and finishes with that failure.
pub proof fn lemma_failure_never_tags(s: BuildSession)
    requires
        s.wf(),
        s.failure is Some,
    ensures
        s.action() == Action::Finish,
        s.action() != Action::Tag,
        !s.tagged,
{
}

/// Everything a caller needs to run a build: the plan, its instructions and the
/// session that sequences the engine calls.
pub struct BuildJob {
    pub plan: Plan,
    pub instructions: Vec<Instruction>,
    pub session: BuildSession,
}

/// Plans a build of `tree` for the options given: the provider's phases under the
/// configuration, the instruction sequence, and a fresh session. On failure no
/// session exists, so no engine call is made.
pub fn prepare_build(tree: &SourceTree, config: &PlanConfig, opts: &BuildOptions) -> (r: Result<
    BuildJob,
    BuildError,
>)
    requires
        opts.name@.len() > 0,
    ensures
        match r {
            Ok(job) => {
                &&& plan_of(tree.files@, *config, job.plan)
                &&& instr_models(job.instructions@) == instructions_of(job.plan, *opts)
                &&& job.session.wf()
                &&& texts(job.session.phases@) == run_names(models(job.plan.phases@))
                &&& job.session.image_name@ == opts.name@
                &&& job.session.next == 0
                &&& job.session.failure is None
                &&& !job.session.tagged
            },
            Err(e) => plan_error(tree.files@, *config, e),
        },
{
    let plan = match generate_plan(tree, config) {
        Ok(p) => p,
        Err(e) => {
            return Err(e);
        },
    };
    let instructions = emit_instructions(&plan, opts);
    let session = BuildSession::new(&plan, opts.name.clone());
    Ok(BuildJob { plan, instructions, session })
}

} // verus!
