use vstd::prelude::*;

use crate::plan::{models, Phase, PhaseModel, Plan};

verus! {

/// What a build is asked to produce.
pub struct BuildOptions {
    /// Tag of the resulting image; must not be empty.
    pub name: String,
    pub quiet: bool,
    /// Variables injected into the build environment.
    pub env: Vec<(String, String)>,
}

/// One step of a container build.
#[derive(Clone, Debug, PartialEq, Eq)]
pub enum Instruction {
    From { image: String },
    Env { name: String, value: String },
    CacheRestore { key: u64 },
    Run { command: String },
    CacheSave { key: u64 },
    Entrypoint { command: String },
    Expose { port: u16 },
}

/// An instruction as the contracts see it.
pub enum InstrModel {
    From(Seq<char>),
    Env(Seq<char>, Seq<char>),
    CacheRestore(u64),
    Run(Seq<char>),
    CacheSave(u64),
    Entrypoint(Seq<char>),
    Expose(u16),
}

impl View for Instruction {
    type V = InstrModel;

    open spec fn view(&self) -> InstrModel {
        match self {
            Instruction::From { image } => InstrModel::From(image@),
            Instruction::Env { name, value } => InstrModel::Env(name@, value@),
            Instruction::CacheRestore { key } => InstrModel::CacheRestore(*key),
            Instruction::Run { command } => InstrModel::Run(command@),
            Instruction::CacheSave { key } => InstrModel::CacheSave(*key),
            Instruction::Entrypoint { command } => InstrModel::Entrypoint(command@),
            Instruction::Expose { port } => InstrModel::Expose(*port),
        }
    }
}

/// The models of a list of instructions.
pub open spec fn instr_models(v: Seq<Instruction>) -> Seq<InstrModel> {
    v.map_values(|i: Instruction| i@)
}

/// Environment instructions for a list of variables.
pub open spec fn env_block(env: Seq<(String, String)>) -> Seq<InstrModel> {
    env.map_values(|e: (String, String)| InstrModel::Env(e.0@, e.1@))
}

/// The instructions of one phase: set its variables, restore its cache, run its
/// commands, save its cache. The start phase is not run at build time.
pub open spec fn phase_block(p: PhaseModel) -> Seq<InstrModel> {
    if p.name == "start"@ {
        Seq::empty()
    } else {
        p.env.map_values(|e: (Seq<char>, Seq<char>)| InstrModel::Env(e.0, e.1)) + seq![
            InstrModel::CacheRestore(p.cache_key),
        ] + p.commands.map_values(
            |c: Seq<char>| InstrModel::Run(c),
        ) + seq![InstrModel::CacheSave(p.cache_key)]
    }
}

/// The instructions of the phases, in plan order.
pub open spec fn phases_block(ps: Seq<PhaseModel>) -> Seq<InstrModel>
    decreases ps.len(),
{
    if ps.len() == 0 {
        Seq::empty()
    } else {
        phases_block(ps.drop_last()) + phase_block(ps.last())
    }
}

/// The commands of the last phase named `start`, as entrypoint instructions.
pub open spec fn start_entry(ps: Seq<PhaseModel>) -> Seq<InstrModel>
    decreases ps.len(),
{
    if ps.len() == 0 {
        Seq::empty()
    } else if ps.last().name == "start"@ {
        ps.last().commands.map_values(|c: Seq<char>| InstrModel::Entrypoint(c))
    } else {
        start_entry(ps.drop_last())
    }
}

/// The whole instruction sequence for a plan and the options of a build: base
/// image, environment, phases, entrypoint, exposed ports.
pub open spec fn instructions_of(plan: Plan, opts: BuildOptions) -> Seq<InstrModel> {
    seq![InstrModel::From(plan.base_image@)] + env_block(plan.env@) + env_block(opts.env@)
        + phases_block(models(plan.phases@)) + match plan.start_command {
        Some(s) => seq![InstrModel::Entrypoint(s@)],
        None => start_entry(models(plan.phases@)),
    } + plan.ports@.map_values(|p: u16| InstrModel::Expose(p))
}

fn push_env(out: &mut Vec<Instruction>, env: &Vec<(String, String)>)
    ensures
        instr_models(final(out)@) == instr_models(old(out)@) + env_block(env@),
{
    let mut i: usize = 0;
    while i < env.len()
        invariant
            i <= env@.len(),
            instr_models(out@) == instr_models(old(out)@) + env_block(env@.subrange(0, i as int)),
        decreases env@.len() - i,
    {
        let ghost before = out@;
        out.push(Instruction::Env { name: env[i].0.clone(), value: env[i].1.clone() });
        assert(env_block(env@.subrange(0, i + 1)) =~= env_block(env@.subrange(0, i as int)).push(
            InstrModel::Env(env@[i as int].0@, env@[i as int].1@),
        ));
        assert(instr_models(out@) =~= instr_models(before).push(
            InstrModel::Env(env@[i as int].0@, env@[i as int].1@),
        ));
        i = i + 1;
    }
    assert(env@.subrange(0, i as int) =~= env@);
}

fn push_phase(out: &mut Vec<Instruction>, p: &Phase)
    ensures
        instr_models(final(out)@) == instr_models(old(out)@) + phase_block(p@),
{
    proof {
        reveal_strlit("start");
    }
    if crate::text::same_text(p.name.as_str(), "start") {
        assert(instr_models(out@) =~= instr_models(out@) + Seq::<InstrModel>::empty());
        return;
    }
    push_env(out, &p.env);
    assert(env_block(p.env@) =~= p@.env.map_values(
        |e: (Seq<char>, Seq<char>)| InstrModel::Env(e.0, e.1),
    ));
    let ghost runs = p@.commands.map_values(|c: Seq<char>| InstrModel::Run(c));
    let ghost start = instr_models(out@) + seq![InstrModel::CacheRestore(p.cache_key)];
    out.push(Instruction::CacheRestore { key: p.cache_key });
    assert(instr_models(out@) =~= start);
    let mut i: usize = 0;
    while i < p.commands.len()
        invariant
            i <= p.commands@.len(),
            runs == p@.commands.map_values(|c: Seq<char>| InstrModel::Run(c)),
            instr_models(out@) == start + runs.subrange(0, i as int),
        decreases p.commands@.len() - i,
    {
        let ghost before = out@;
        out.push(Instruction::Run { command: p.commands[i].clone() });
        assert(runs.subrange(0, i + 1) =~= runs.subrange(0, i as int).push(runs[i as int]));
        assert(instr_models(out@) =~= instr_models(before).push(runs[i as int]));
        i = i + 1;
    }
    assert(runs.subrange(0, i as int) =~= runs);
    let ghost mid = out@;
    out.push(Instruction::CacheSave { key: p.cache_key });
    assert(instr_models(out@) =~= instr_models(mid).push(InstrModel::CacheSave(p.cache_key)));
    assert(instr_models(out@) =~= instr_models(old(out)@) + phase_block(p@));
}

fn entries_of(p: &Phase) -> (r: Vec<Instruction>)
    ensures
        instr_models(r@) == p@.commands.map_values(|c: Seq<char>| InstrModel::Entrypoint(c)),
{
    let ghost all = p@.commands.map_values(|c: Seq<char>| InstrModel::Entrypoint(c));
    let mut r: Vec<Instruction> = Vec::new();
    let mut i: usize = 0;
    while i < p.commands.len()
        invariant
            i <= p.commands@.len(),
            all == p@.commands.map_values(|c: Seq<char>| InstrModel::Entrypoint(c)),
            instr_models(r@) == all.subrange(0, i as int),
        decreases p.commands@.len() - i,
    {
        let ghost before = r@;
        r.push(Instruction::Entrypoint { command: p.commands[i].clone() });
        assert(all.subrange(0, i + 1) =~= all.subrange(0, i as int).push(all[i as int]));
        assert(instr_models(r@) =~= instr_models(before).push(all[i as int]));
        i = i + 1;
    }
    assert(all.subrange(0, i as int) =~= all);
    r
}

/// Translates a plan into the instruction sequence of a container build: the base
/// image, the environment, each phase in plan order, and the entrypoint.
pub fn emit_instructions(plan: &Plan, opts: &BuildOptions) -> (r: Vec<Instruction>)
    ensures
        instr_models(r@) == instructions_of(*plan, *opts),
{
    let mut out: Vec<Instruction> = Vec::new();
    out.push(Instruction::From { image: plan.base_image.clone() });
    assert(instr_models(out@) =~= seq![InstrModel::From(plan.base_image@)]);
    push_env(&mut out, &plan.env);
    push_env(&mut out, &opts.env);
    let ghost head = instr_models(out@);
    let ghost ms = models(plan.phases@);
    let mut entry: Vec<Instruction> = Vec::new();
    let mut i: usize = 0;
    proof {
        reveal_strlit("start");
    }
    while i < plan.phases.len()
        invariant
            i <= plan.phases@.len(),
            ms == models(plan.phases@),
            instr_models(out@) == head + phases_block(ms.subrange(0, i as int)),
            instr_models(entry@) == start_entry(ms.subrange(0, i as int)),
        decreases plan.phases@.len() - i,
    {
        let p = &plan.phases[i];
        assert(ms.subrange(0, i + 1).drop_last() =~= ms.subrange(0, i as int));
        assert(ms.subrange(0, i + 1).last() == p@);
        push_phase(&mut out, p);
        if crate::text::same_text(p.name.as_str(), "start") {
            entry = entries_of(p);
        }
        i = i + 1;
    }
    assert(ms.subrange(0, i as int) =~= ms);
    match &plan.start_command {
        Some(s) => {
            let ghost before = out@;
            out.push(Instruction::Entrypoint { command: s.clone() });
            assert(instr_models(out@) =~= instr_models(before).push(InstrModel::Entrypoint(s@)));
        },
        None => {
            let ghost before = out@;
            out.append(&mut entry);
            assert(instr_models(out@) =~= instr_models(before) + start_entry(ms));
        },
    }
    let ghost head2 = instr_models(out@);
    let ghost exps = plan.ports@.map_values(|p: u16| InstrModel::Expose(p));
    let mut k: usize = 0;
    while k < plan.ports.len()
        invariant
            k <= plan.ports@.len(),
            exps == plan.ports@.map_values(|p: u16| InstrModel::Expose(p)),
            instr_models(out@) == head2 + exps.subrange(0, k as int),
        decreases plan.ports@.len() - k,
    {
        let ghost before = out@;
        out.push(Instruction::Expose { port: plan.ports[k] });
        assert(exps.subrange(0, k + 1) =~= exps.subrange(0, k as int).push(exps[k as int]));
        assert(instr_models(out@) =~= instr_models(before).push(exps[k as int]));
        k = k + 1;
    }
    assert(exps.subrange(0, k as int) =~= exps);
    assert(instr_models(out@) =~= instructions_of(*plan, *opts));
    out
}

/// Number of cache-save instructions in `s`: each phase that runs ends with one.
pub open spec fn saves(s: Seq<InstrModel>) -> nat
    decreases s.len(),
{
    if s.len() == 0 {
        0
    } else {
        saves(s.drop_last()) + if s.last() is CacheSave {
            1nat
        } else {
            0nat
        }
    }
}

/// Length of the prefix of `instrs` that ends with the phase of index `phase` (in
/// run order): the shortest one holding `phase + 1` cache saves, or all of
/// `instrs` when there are not that many.
pub fn prefix_through_phase(instrs: &Vec<Instruction>, phase: usize) -> (r: usize)
    ensures
        r <= instrs@.len(),
        ({
            let ms = instr_models(instrs@);
            ||| (r > 0 && saves(ms.subrange(0, r as int)) == phase + 1 && ms[r - 1] is CacheSave)
            ||| (r == instrs@.len() && saves(ms) <= phase)
        }),
{
    let ghost ms = instr_models(instrs@);
    let mut count: usize = 0;
    let mut i: usize = 0;
    while i < instrs.len()
        invariant
            ms == instr_models(instrs@),
            i <= instrs@.len(),
            count <= phase,
            count == saves(ms.subrange(0, i as int)),
        decreases instrs@.len() - i,
    {
        assert(ms.subrange(0, i + 1).drop_last() =~= ms.subrange(0, i as int));
        assert(ms.subrange(0, i + 1).last() == ms[i as int]);
        if let Instruction::CacheSave { .. } = &instrs[i] {
            if count == phase {
                return i + 1;
            }
            count = count + 1;
        }
        i = i + 1;
    }
    assert(ms.subrange(0, i as int) =~= ms);
    i
}

} // verus!
