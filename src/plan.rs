use vstd::prelude::*;

use crate::error::BuildError;

verus! {

/// A named group of build commands with its cache key and the phases it waits for.
#[derive(Clone, Debug, PartialEq, Eq)]
pub struct Phase {
    pub name: String,
    pub commands: Vec<String>,
    pub depends_on: Vec<String>,
    pub cache_key: u64,
    /// Variables set for this phase's commands only.
    pub env: Vec<(String, String)>,
}

/// A validated build plan: base image, phases in the order the builder runs
/// them, global environment, exposed ports, and an optional start command that replaces the
/// commands of the `start` phase.
#[derive(Clone, Debug, PartialEq, Eq)]
pub struct Plan {
    pub base_image: String,
    pub phases: Vec<Phase>,
    pub env: Vec<(String, String)>,
    pub start_command: Option<String>,
    /// Ports the image exposes.
    pub ports: Vec<u16>,
    /// What was recovered from while reading the project.
    pub warnings: Vec<String>,
}

/// A phase as the contracts see it.
pub struct PhaseModel {
    pub name: Seq<char>,
    pub commands: Seq<Seq<char>>,
    pub depends_on: Seq<Seq<char>>,
    pub cache_key: u64,
    pub env: Seq<(Seq<char>, Seq<char>)>,
}

/// The texts of a list of strings.
pub open spec fn texts(v: Seq<String>) -> Seq<Seq<char>> {
    v.map_values(|s: String| s@)
}

impl View for Phase {
    type V = PhaseModel;

    open spec fn view(&self) -> PhaseModel {
        PhaseModel {
            name: self.name@,
            commands: texts(self.commands@),
            depends_on: texts(self.depends_on@),
            cache_key: self.cache_key,
            env: pair_texts(self.env@),
        }
    }
}

/// The texts of a list of name/value pairs.
pub open spec fn pair_texts(v: Seq<(String, String)>) -> Seq<(Seq<char>, Seq<char>)> {
    v.map_values(|e: (String, String)| (e.0@, e.1@))
}

/// A copy of a list of name/value pairs.
pub fn copy_pairs(v: &Vec<(String, String)>) -> (r: Vec<(String, String)>)
    ensures
        pair_texts(r@) == pair_texts(v@),
{
    let mut r: Vec<(String, String)> = Vec::new();
    let mut i: usize = 0;
    while i < v.len()
        invariant
            i <= v@.len(),
            pair_texts(r@) == pair_texts(v@).subrange(0, i as int),
        decreases v@.len() - i,
    {
        let ghost before = r@;
        r.push((v[i].0.clone(), v[i].1.clone()));
        assert(pair_texts(r@) =~= pair_texts(before).push((v@[i as int].0@, v@[i as int].1@)));
        assert(pair_texts(v@).subrange(0, i + 1) =~= pair_texts(v@).subrange(0, i as int).push(
            (v@[i as int].0@, v@[i as int].1@),
        ));
        i = i + 1;
    }
    assert(pair_texts(v@).subrange(0, i as int) =~= pair_texts(v@));
    r
}

/// The models of a list of phases.
pub open spec fn models(ps: Seq<Phase>) -> Seq<PhaseModel> {
    ps.map_values(|p: Phase| p@)
}

/// Phase `j` is the first of `ps` named `name`.
pub open spec fn first_phase(ps: Seq<PhaseModel>, name: Seq<char>, j: int) -> bool {
    &&& 0 <= j < ps.len()
    &&& ps[j].name == name
    &&& forall|i: int| 0 <= i < j ==> ps[i].name != name
}

/// Some phase of `ps` is named `name`.
pub open spec fn resolves(ps: Seq<PhaseModel>, name: Seq<char>) -> bool {
    exists|j: int| 0 <= j < ps.len() && #[trigger] ps[j].name == name
}

/// Dependency `k` of phase `i` names no phase of `ps`.
pub open spec fn dangling_at(ps: Seq<PhaseModel>, i: int, k: int) -> bool {
    &&& 0 <= i < ps.len()
    &&& 0 <= k < ps[i].depends_on.len()
    &&& !resolves(ps, ps[i].depends_on[k])
}

/// Every dependency of every phase names a phase of `ps`.
pub open spec fn references_resolve(ps: Seq<PhaseModel>) -> bool {
    forall|i: int, k: int| !dangling_at(ps, i, k)
}

/// Phase `i` depends on phase `j` (a name refers to the first phase bearing it).
#[verifier::opaque]
pub open spec fn edge(ps: Seq<PhaseModel>, i: int, j: int) -> bool {
    &&& 0 <= i < ps.len()
    &&& exists|k: int|
        0 <= k < ps[i].depends_on.len() && first_phase(ps, #[trigger] ps[i].depends_on[k], j)
}

/// `s` is a non-empty set of phases, each of which depends on a phase of `s`:
/// following dependencies inside `s` never ends, so `s` holds a cycle.
pub open spec fn closed_cycle(ps: Seq<PhaseModel>, s: Set<int>) -> bool {
    &&& exists|x: int| s.contains(x)
    &&& forall|i: int| s.contains(i) ==> 0 <= i < ps.len()
    &&& forall|i: int| s.contains(i) ==> exists|j: int| s.contains(j) && edge(ps, i, j)
}

/// The dependency relation of `ps` has a cycle.
pub open spec fn has_cycle(ps: Seq<PhaseModel>) -> bool {
    exists|s: Set<int>| closed_cycle(ps, s)
}

/// Every dependency of phase `i` is among `done`.
pub open spec fn ready(ps: Seq<PhaseModel>, i: int, done: Seq<usize>) -> bool {
    forall|j: int| edge(ps, i, j) ==> done.contains(j as usize)
}

/// Each entry of `order` is ready once the entries before it are placed, and is the
/// lowest-indexed phase that is ready then and not yet placed.
#[verifier::opaque]
pub open spec fn greedy_prefix(ps: Seq<PhaseModel>, order: Seq<usize>) -> bool {
    &&& forall|p: int|
        0 <= p < order.len() ==> ready(ps, order[p] as int, #[trigger] order.subrange(0, p))
    &&& forall|p: int, i: int|
        0 <= p < order.len() && 0 <= i < order[p] && !order.subrange(0, p).contains(i as usize)
            ==> !#[trigger] ready(ps, i, order.subrange(0, p))
}

/// `order` lists each phase once, each after all of its dependencies, and at each
/// position holds the lowest-indexed phase that is ready then.
pub open spec fn is_stable_order(ps: Seq<PhaseModel>, order: Seq<usize>) -> bool {
    &&& order.len() == ps.len()
    &&& order.no_duplicates()
    &&& forall|p: int| 0 <= p < order.len() ==> order[p] < ps.len()
    &&& greedy_prefix(ps, order)
}

proof fn lemma_greedy_push(ps: Seq<PhaseModel>, order: Seq<usize>, x: usize)
    requires
        greedy_prefix(ps, order),
        ready(ps, x as int, order),
        forall|a: int| 0 <= a < x ==> order.contains(a as usize) || !ready(ps, a, order),
    ensures
        greedy_prefix(ps, order.push(x)),
{
    reveal(greedy_prefix);
    let o2 = order.push(x);
    assert(o2.subrange(0, order.len() as int) =~= order);
    assert forall|p: int| 0 <= p <= order.len() implies #[trigger] o2.subrange(0, p)
        =~= order.subrange(0, p) by {}
    assert forall|p: int| 0 <= p < o2.len() implies ready(
        ps,
        o2[p] as int,
        #[trigger] o2.subrange(0, p),
    ) by {
        if p < order.len() {
            assert(o2.subrange(0, p) == order.subrange(0, p));
        }
    }
    assert forall|p: int, i: int|
        0 <= p < o2.len() && 0 <= i < o2[p] && !o2.subrange(0, p).contains(i as usize)
            implies !#[trigger] ready(ps, i, o2.subrange(0, p)) by {
        if p < order.len() {
            assert(o2.subrange(0, p) == order.subrange(0, p));
        } else {
            assert(o2.subrange(0, p) == order);
        }
    }
}

/// Number of `true` entries.
pub open spec fn count_true(s: Seq<bool>) -> nat
    decreases s.len(),
{
    if s.len() == 0 {
        0
    } else {
        count_true(s.drop_last()) + if s.last() {
            1nat
        } else {
            0nat
        }
    }
}

proof fn lemma_count_bound(s: Seq<bool>)
    ensures
        count_true(s) <= s.len(),
    decreases s.len(),
{
    if s.len() > 0 {
        lemma_count_bound(s.drop_last());
    }
}

proof fn lemma_count_set(s: Seq<bool>, i: int)
    requires
        0 <= i < s.len(),
        !s[i],
    ensures
        count_true(s.update(i, true)) == count_true(s) + 1,
    decreases s.len(),
{
    let t = s.update(i, true);
    if i == s.len() - 1 {
        assert(t.drop_last() =~= s.drop_last());
    } else {
        assert(t.drop_last() =~= s.drop_last().update(i, true));
        lemma_count_set(s.drop_last(), i);
    }
}

/// Index of the first phase named `name`.
pub fn find_phase(ps: &Vec<Phase>, name: &String) -> (r: Option<usize>)
    ensures
        match r {
            Some(j) => first_phase(models(ps@), name@, j as int),
            None => !resolves(models(ps@), name@),
        },
{
    let mut j: usize = 0;
    while j < ps.len()
        invariant
            j <= models(ps@).len(),
            forall|i: int| 0 <= i < j ==> models(ps@)[i].name != name@,
        decreases models(ps@).len() - j,
    {
        if ps[j].name == *name {
            return Some(j);
        }
        j = j + 1;
    }
    None
}

/// For each phase, the index each of its dependencies refers to; the first
/// dangling reference when there is one.
fn resolve_all(ps: &Vec<Phase>) -> (r: Result<Vec<Vec<usize>>, (usize, usize)>)
    ensures
        match r {
            Ok(res) => {
                &&& references_resolve(models(ps@))
                &&& res@.len() == models(ps@).len()
                &&& forall|i: int|
                    0 <= i < models(ps@).len() ==> #[trigger] res@[i]@.len() == models(ps@)[i].depends_on.len()
                &&& forall|i: int, k: int|
                    0 <= i < models(ps@).len() && 0 <= k < models(ps@)[i].depends_on.len() ==> first_phase(
                        models(ps@),
                        models(ps@)[i].depends_on[k],
                        #[trigger] res@[i]@[k] as int,
                    )
            },
            Err((i, k)) => dangling_at(models(ps@), i as int, k as int),
        },
{
    let mut res: Vec<Vec<usize>> = Vec::new();
    let mut i: usize = 0;
    while i < ps.len()
        invariant
            i <= models(ps@).len(),
            res@.len() == i,
            forall|a: int, k: int| 0 <= a < i ==> !dangling_at(models(ps@), a, k),
            forall|a: int| 0 <= a < i ==> #[trigger] res@[a]@.len() == models(ps@)[a].depends_on.len(),
            forall|a: int, k: int|
                0 <= a < i && 0 <= k < models(ps@)[a].depends_on.len() ==> first_phase(
                    models(ps@),
                    models(ps@)[a].depends_on[k],
                    #[trigger] res@[a]@[k] as int,
                ),
        decreases models(ps@).len() - i,
    {
        let deps = &ps[i].depends_on;
        let mut row: Vec<usize> = Vec::new();
        let mut k: usize = 0;
        while k < deps.len()
            invariant
                i < models(ps@).len(),
                texts(deps@) == models(ps@)[i as int].depends_on,
                k <= deps@.len(),
                row@.len() == k,
                forall|b: int| 0 <= b < k ==> !dangling_at(models(ps@), i as int, b),
                forall|b: int| 0 <= b < k ==> first_phase(models(ps@), deps@[b]@, #[trigger] row@[b] as int),
            decreases deps@.len() - k,
        {
            match find_phase(ps, &deps[k]) {
                Some(j) => {
                    row.push(j);
                },
                None => {
                    return Err((i, k));
                },
            }
            k = k + 1;
        }
        res.push(row);
        i = i + 1;
    }
    Ok(res)
}

/// Whether every dependency of phase `i` is already placed.
fn deps_placed(
    ps: &Vec<Phase>,
    res: &Vec<Vec<usize>>,
    placed: &Vec<bool>,
    i: usize,
    order: Ghost<Seq<usize>>,
) -> (r: bool)
    requires
        i < models(ps@).len(),
        res@.len() == models(ps@).len(),
        placed@.len() == models(ps@).len(),
        res@[i as int]@.len() == models(ps@)[i as int].depends_on.len(),
        forall|k: int|
            0 <= k < models(ps@)[i as int].depends_on.len() ==> first_phase(
                models(ps@),
                models(ps@)[i as int].depends_on[k],
                #[trigger] res@[i as int]@[k] as int,
            ),
        forall|j: int| 0 <= j < models(ps@).len() ==> (placed@[j] <==> order@.contains(j as usize)),
    ensures
        r == ready(models(ps@), i as int, order@),
{
    let row = &res[i];
    let mut k: usize = 0;
    while k < row.len()
        invariant
            i < models(ps@).len(),
            res@.len() == models(ps@).len(),
            placed@.len() == models(ps@).len(),
            row@ == res@[i as int]@,
            row@.len() == models(ps@)[i as int].depends_on.len(),
            forall|b: int|
                0 <= b < row@.len() ==> first_phase(
                    models(ps@),
                    models(ps@)[i as int].depends_on[b],
                    #[trigger] row@[b] as int,
                ),
            forall|j: int| 0 <= j < models(ps@).len() ==> (placed@[j] <==> order@.contains(j as usize)),
            k <= row@.len(),
            forall|b: int| 0 <= b < k ==> order@.contains(#[trigger] row@[b]),
        decreases row@.len() - k,
    {
        if !placed[row[k]] {
            assert(first_phase(models(ps@), models(ps@)[i as int].depends_on[k as int], row@[k as int] as int));
            assert(edge(models(ps@), i as int, row@[k as int] as int)) by {
                reveal(edge);
            }
            return false;
        }
        k = k + 1;
    }
    assert forall|j: int| edge(models(ps@), i as int, j) implies order@.contains(j as usize) by {
        reveal(edge);
        let b = choose|b: int|
            0 <= b < models(ps@)[i as int].depends_on.len() && first_phase(
                models(ps@),
                #[trigger] models(ps@)[i as int].depends_on[b],
                j,
            );
        assert(first_phase(models(ps@), models(ps@)[i as int].depends_on[b], row@[b] as int));
    }
    true
}

proof fn lemma_count_zero(s: Seq<bool>)
    requires
        forall|j: int| 0 <= j < s.len() ==> !s[j],
    ensures
        count_true(s) == 0,
    decreases s.len(),
{
    if s.len() > 0 {
        lemma_count_zero(s.drop_last());
    }
}

proof fn lemma_count_all(s: Seq<bool>)
    requires
        forall|j: int| 0 <= j < s.len() ==> s[j],
    ensures
        count_true(s) == s.len(),
    decreases s.len(),
{
    if s.len() > 0 {
        lemma_count_all(s.drop_last());
    }
}

proof fn lemma_ahead_not_in(ps: Seq<PhaseModel>, order: Seq<usize>, s: Set<int>, p: int)
    requires
        ps.len() <= usize::MAX,
        closed_cycle(ps, s),
        0 <= p < order.len(),
        forall|q: int|
            0 <= q < order.len() ==> ready(ps, order[q] as int, #[trigger] order.subrange(0, q)),
    ensures
        !s.contains(order[p] as int),
    decreases p,
{
    if s.contains(order[p] as int) {
        let j = choose|j: int| s.contains(j) && edge(ps, order[p] as int, j);
        assert(0 <= j < ps.len()) by {
            reveal(edge);
        }
        assert(ready(ps, order[p] as int, order.subrange(0, p)));
        assert(order.subrange(0, p).contains(j as usize));
        let q = choose|q: int| 0 <= q < p && order.subrange(0, p)[q] == j as usize;
        assert(order[q] == j as usize);
        lemma_ahead_not_in(ps, order, s, q);
        assert(order[q] as int == j);
    }
}

/// A plan that admits an order placing each phase after its dependencies has no cycle.
proof fn lemma_ordered_acyclic(ps: Seq<PhaseModel>, order: Seq<usize>)
    requires
        ps.len() <= usize::MAX,
        forall|j: usize| (j as int) < ps.len() ==> #[trigger] order.contains(j),
        greedy_prefix(ps, order),
    ensures
        !has_cycle(ps),
{
    reveal(greedy_prefix);
    if has_cycle(ps) {
        let s = choose|s: Set<int>| closed_cycle(ps, s);
        let x = choose|x: int| s.contains(x);
        assert(0 <= x < ps.len());
        assert(order.contains(x as usize));
        let p = choose|p: int| 0 <= p < order.len() && order[p] == x as usize;
        lemma_ahead_not_in(ps, order, s, p);
        assert(order[p] as int == x);
    }
}

proof fn lemma_placed_push(placed: Seq<bool>, order: Seq<usize>, x: usize, n: usize)
    requires
        placed.len() == n,
        forall|j: int| 0 <= j < n ==> (placed[j] <==> order.contains(j as usize)),
        x < n,
        !placed[x as int],
        order.no_duplicates(),
        forall|p: int| 0 <= p < order.len() ==> order[p] < n,
    ensures
        forall|j: int|
            0 <= j < n ==> (placed.update(x as int, true)[j] <==> order.push(x).contains(
                j as usize,
            )),
        order.push(x).no_duplicates(),
        forall|p: int| 0 <= p < order.push(x).len() ==> order.push(x)[p] < n,
{
    let o2 = order.push(x);
    assert(!order.contains(x));
    assert forall|j: int| 0 <= j < n implies (placed.update(x as int, true)[j] <==> o2.contains(
        j as usize,
    )) by {
        if j == x as int {
            assert(o2[order.len() as int] == x);
        } else if order.contains(j as usize) {
            let q = choose|q: int| 0 <= q < order.len() && order[q] == j as usize;
            assert(o2[q] == j as usize);
        } else if o2.contains(j as usize) {
            let q = choose|q: int| 0 <= q < o2.len() && o2[q] == j as usize;
            assert(q < order.len());
            assert(order[q] == j as usize);
        }
    }
}

/// `names` are the names of phases `c` of `ps`, each of which depends on the next,
/// and the last on the first.
pub open spec fn names_cycle(ps: Seq<PhaseModel>, c: Seq<int>, names: Seq<String>) -> bool {
    &&& c.len() > 0
    &&& c.len() == names.len()
    &&& forall|t: int| 0 <= t < c.len() ==> 0 <= #[trigger] c[t] < ps.len()
    &&& forall|t: int| 0 <= t < c.len() ==> ps[c[t]].name == (#[trigger] names[t])@
    &&& forall|t: int|
        0 <= t < c.len() ==> edge(ps, c[t], #[trigger] c[(t + 1) % (c.len() as int)])
}

/// A dependency of phase `i` that is not yet placed.
fn unplaced_dep(
    ps: &Vec<Phase>,
    res: &Vec<Vec<usize>>,
    placed: &Vec<bool>,
    i: usize,
    order: Ghost<Seq<usize>>,
) -> (r: usize)
    requires
        i < ps@.len(),
        res@.len() == ps@.len(),
        placed@.len() == ps@.len(),
        res@[i as int]@.len() == models(ps@)[i as int].depends_on.len(),
        forall|k: int|
            0 <= k < models(ps@)[i as int].depends_on.len() ==> first_phase(
                models(ps@),
                models(ps@)[i as int].depends_on[k],
                #[trigger] res@[i as int]@[k] as int,
            ),
        forall|j: int| 0 <= j < ps@.len() ==> (placed@[j] <==> order@.contains(j as usize)),
        !ready(models(ps@), i as int, order@),
    ensures
        r < ps@.len(),
        edge(models(ps@), i as int, r as int),
        !placed@[r as int],
{
    let row = &res[i];
    let mut k: usize = 0;
    while k < row.len()
        invariant
            i < ps@.len(),
            res@.len() == ps@.len(),
            placed@.len() == ps@.len(),
            row@ == res@[i as int]@,
            row@.len() == models(ps@)[i as int].depends_on.len(),
            forall|b: int|
                0 <= b < row@.len() ==> first_phase(
                    models(ps@),
                    models(ps@)[i as int].depends_on[b],
                    #[trigger] row@[b] as int,
                ),
            forall|j: int| 0 <= j < ps@.len() ==> (placed@[j] <==> order@.contains(j as usize)),
            k <= row@.len(),
            forall|b: int| 0 <= b < k ==> order@.contains(#[trigger] row@[b]),
        decreases row@.len() - k,
    {
        let j = row[k];
        assert(first_phase(models(ps@), models(ps@)[i as int].depends_on[k as int], j as int));
        if !placed[j] {
            assert(edge(models(ps@), i as int, j as int)) by {
                reveal(edge);
            }
            return j;
        }
        k = k + 1;
    }
    assert(ready(models(ps@), i as int, order@)) by {
        reveal(edge);
        assert forall|j: int| edge(models(ps@), i as int, j) implies order@.contains(j as usize) by {
            let b = choose|b: int|
                0 <= b < models(ps@)[i as int].depends_on.len() && first_phase(
                    models(ps@),
                    #[trigger] models(ps@)[i as int].depends_on[b],
                    j,
                );
            assert(first_phase(models(ps@), models(ps@)[i as int].depends_on[b], row@[b] as int));
        }
    }
    0
}

/// Follows unplaced dependencies from phase `w` until a phase repeats, and returns
/// the phases of the loop so closed, in dependency order.
fn find_cycle(
    ps: &Vec<Phase>,
    res: &Vec<Vec<usize>>,
    placed: &Vec<bool>,
    w: usize,
    order: Ghost<Seq<usize>>,
) -> (r: Vec<usize>)
    requires
        res@.len() == ps@.len(),
        placed@.len() == ps@.len(),
        forall|i: int|
            0 <= i < ps@.len() ==> #[trigger] res@[i]@.len() == models(ps@)[i].depends_on.len(),
        forall|i: int, k: int|
            0 <= i < ps@.len() && 0 <= k < models(ps@)[i].depends_on.len() ==> first_phase(
                models(ps@),
                models(ps@)[i].depends_on[k],
                #[trigger] res@[i]@[k] as int,
            ),
        forall|j: int| 0 <= j < ps@.len() ==> (placed@[j] <==> order@.contains(j as usize)),
        forall|a: int| 0 <= a < ps@.len() ==> placed@[a] || !ready(models(ps@), a, order@),
        w < ps@.len(),
        !placed@[w as int],
    ensures
        r@.len() > 0,
        forall|t: int| 0 <= t < r@.len() ==> r@[t] < ps@.len(),
        forall|t: int|
            0 <= t < r@.len() ==> edge(
                models(ps@),
                r@[t] as int,
                #[trigger] r@[(t + 1) % (r@.len() as int)] as int,
            ),
{
    let n = ps.len();
    let mut visited: Vec<bool> = Vec::new();
    while visited.len() < n
        invariant
            visited@.len() <= n,
            forall|j: int| 0 <= j < visited@.len() ==> !visited@[j],
        decreases n - visited@.len(),
    {
        visited.push(false);
    }
    proof {
        lemma_count_zero(visited@);
    }
    let mut path: Vec<usize> = Vec::new();
    let mut cur: usize = w;
    loop
        invariant
            n == ps@.len(),
            res@.len() == ps@.len(),
            placed@.len() == ps@.len(),
            forall|i: int|
                0 <= i < ps@.len() ==> #[trigger] res@[i]@.len() == models(ps@)[i].depends_on.len(),
            forall|i: int, k: int|
                0 <= i < ps@.len() && 0 <= k < models(ps@)[i].depends_on.len() ==> first_phase(
                    models(ps@),
                    models(ps@)[i].depends_on[k],
                    #[trigger] res@[i]@[k] as int,
                ),
            forall|j: int| 0 <= j < ps@.len() ==> (placed@[j] <==> order@.contains(j as usize)),
            forall|a: int| 0 <= a < ps@.len() ==> placed@[a] || !ready(models(ps@), a, order@),
            visited@.len() == n,
            cur < n,
            !placed@[cur as int],
            forall|t: int| 0 <= t < path@.len() ==> path@[t] < n,
            forall|t: int|
                0 <= t < path@.len() - 1 ==> edge(
                    models(ps@),
                    path@[t] as int,
                    #[trigger] path@[t + 1] as int,
                ),
            path@.len() > 0 ==> edge(models(ps@), path@.last() as int, cur as int),
            forall|j: int| 0 <= j < n ==> (visited@[j] <==> path@.contains(j as usize)),
            path@.no_duplicates(),
            path@.len() == count_true(visited@),
        decreases n - path@.len(),
    {
        proof {
            lemma_count_bound(visited@);
        }
        if visited[cur] {
            let mut pos: usize = 0;
            let plen = path.len();
            while path[pos] != cur
                invariant
                    plen == path@.len(),
                    path@.contains(cur),
                    pos < path@.len(),
                    forall|q: int| 0 <= q < pos ==> path@[q] != cur,
                decreases path@.len() - pos,
            {
                pos = pos + 1;
                assert(pos < path@.len()) by {
                    let q = choose|q: int| 0 <= q < path@.len() && path@[q] == cur;
                    assert(q >= pos);
                }
            }
            let mut r: Vec<usize> = Vec::new();
            let mut q: usize = pos;
            while q < path.len()
                invariant
                    pos <= q <= path@.len(),
                    r@ == path@.subrange(pos as int, q as int),
                decreases path@.len() - q,
            {
                r.push(path[q]);
                assert(r@ =~= path@.subrange(pos as int, q + 1));
                q = q + 1;
            }
            assert forall|t: int| 0 <= t < r@.len() implies edge(
                models(ps@),
                r@[t] as int,
                #[trigger] r@[(t + 1) % (r@.len() as int)] as int,
            ) by {
                if t + 1 < r@.len() {
                    vstd::arithmetic::div_mod::lemma_small_mod((t + 1) as nat, r@.len());
                    assert(edge(models(ps@), path@[pos + t] as int, path@[pos + t + 1] as int));
                } else {
                    vstd::arithmetic::div_mod::lemma_mod_self_0(r@.len() as int);
                    assert(r@[0] == cur);
                }
            }
            return r;
        }
        let next = unplaced_dep(ps, res, placed, cur, order);
        proof {
            lemma_count_set(visited@, cur as int);
            lemma_placed_push(visited@, path@, cur, n);
        }
        let ghost old_path = path@;
        visited.set(cur, true);
        path.push(cur);
        assert forall|t: int| 0 <= t < path@.len() - 1 implies edge(
            models(ps@),
            path@[t] as int,
            #[trigger] path@[t + 1] as int,
        ) by {
            if t + 1 < old_path.len() {
                assert(path@[t] == old_path[t] && path@[t + 1] == old_path[t + 1]);
            } else {
                assert(path@[t] == old_path.last());
            }
        }
        cur = next;
        proof {
            lemma_count_bound(visited@);
        }
    }
}

/// Checks that every dependency names a phase and that the dependencies have no
/// cycle, and returns the order in which the phases run: each after its
/// dependencies, ties going to the phase declared first.
#[verifier::rlimit(50)]
pub fn order_phases(ps: &Vec<Phase>) -> (r: Result<Vec<usize>, BuildError>)
    ensures
        match r {
            Ok(order) => {
                &&& references_resolve(models(ps@))
                &&& !has_cycle(models(ps@))
                &&& is_stable_order(models(ps@), order@)
            },
            Err(BuildError::DanglingPhaseReference { phase, missing }) => {
                &&& !references_resolve(models(ps@))
                &&& exists|i: int, k: int|
                    dangling_at(models(ps@), i, k) && models(ps@)[i].name == phase@ && models(ps@)[i].depends_on[k]
                        == missing@
            },
            Err(BuildError::CyclicPhaseDependency { phases }) => {
                &&& references_resolve(models(ps@))
                &&& has_cycle(models(ps@))
                &&& exists|c: Seq<int>| names_cycle(models(ps@), c, phases@)
            },
            Err(_) => false,
        },
        (r matches Err(BuildError::CyclicPhaseDependency { .. })) <==> (references_resolve(
            models(ps@),
        ) && has_cycle(models(ps@))),
{
    let res = match resolve_all(ps) {
        Ok(res) => res,
        Err((i, k)) => {
            return Err(
                BuildError::DanglingPhaseReference {
                    phase: ps[i].name.clone(),
                    missing: ps[i].depends_on[k].clone(),
                },
            );
        },
    };
    let n = ps.len();
    let mut placed: Vec<bool> = Vec::new();
    while placed.len() < n
        invariant
            placed@.len() <= n,
            forall|j: int| 0 <= j < placed@.len() ==> !placed@[j],
        decreases n - placed@.len(),
    {
        placed.push(false);
    }
    let mut order: Vec<usize> = Vec::new();
    proof {
        lemma_count_zero(placed@);
        reveal(greedy_prefix);
    }
    loop
        invariant
            n == models(ps@).len(),
            references_resolve(models(ps@)),
            res@.len() == models(ps@).len(),
            forall|i: int|
                0 <= i < models(ps@).len() ==> #[trigger] res@[i]@.len() == models(ps@)[i].depends_on.len(),
            forall|i: int, k: int|
                0 <= i < models(ps@).len() && 0 <= k < models(ps@)[i].depends_on.len() ==> first_phase(
                    models(ps@),
                    models(ps@)[i].depends_on[k],
                    #[trigger] res@[i]@[k] as int,
                ),
            placed@.len() == n,
            forall|j: int| 0 <= j < n ==> (placed@[j] <==> order@.contains(j as usize)),
            order@.len() == count_true(placed@),
            order@.no_duplicates(),
            forall|p: int| 0 <= p < order@.len() ==> order@[p] < n,
            greedy_prefix(models(ps@), order@),
        decreases n - order@.len(),
    {
        proof {
            lemma_count_bound(placed@);
        }
        let mut i: usize = 0;
        let mut pick: Option<usize> = None;
        let mut waiting: Option<usize> = None;
        while i < n && pick.is_none()
            invariant
                n == models(ps@).len(),
                res@.len() == models(ps@).len(),
                forall|i: int|
                    0 <= i < models(ps@).len() ==> #[trigger] res@[i]@.len() == models(ps@)[i].depends_on.len(),
                forall|i: int, k: int|
                    0 <= i < models(ps@).len() && 0 <= k < models(ps@)[i].depends_on.len() ==> first_phase(
                        models(ps@),
                        models(ps@)[i].depends_on[k],
                        #[trigger] res@[i]@[k] as int,
                    ),
                placed@.len() == n,
                forall|j: int| 0 <= j < n ==> (placed@[j] <==> order@.contains(j as usize)),
                i <= n,
                match pick {
                    Some(x) => {
                        &&& x < n
                        &&& !placed@[x as int]
                        &&& ready(models(ps@), x as int, order@)
                        &&& forall|a: int|
                            0 <= a < x ==> placed@[a] || !ready(models(ps@), a, order@)
                    },
                    None => forall|a: int| 0 <= a < i ==> placed@[a] || !ready(models(ps@), a, order@),
                },
                match waiting {
                    Some(w) => w < n && !placed@[w as int],
                    None => forall|a: int| 0 <= a < i ==> placed@[a],
                },
            decreases n - i,
        {
            if !placed[i] {
                waiting = Some(i);
                if deps_placed(ps, &res, &placed, i, Ghost(order@)) {
                    pick = Some(i);
                }
            }
            i = i + 1;
        }
        match pick {
            Some(x) => {
                proof {
                    assert forall|a: int| 0 <= a < x implies order@.contains(a as usize) || !ready(
                        models(ps@),
                        a,
                        order@,
                    ) by {
                        assert(placed@[a] <==> order@.contains(a as usize));
                    }
                    lemma_greedy_push(models(ps@), order@, x);
                    lemma_count_set(placed@, x as int);
                    lemma_placed_push(placed@, order@, x, n);
                }
                placed.set(x, true);
                order.push(x);
                proof {
                    lemma_count_bound(placed@);
                }
            },
            None => {
                match waiting {
                    Some(w) => {
                        let cyc = find_cycle(ps, &res, &placed, w, Ghost(order@));
                        let ghost c = cyc@.map_values(|x: usize| x as int);
                        let mut names: Vec<String> = Vec::new();
                        let mut t: usize = 0;
                        while t < cyc.len()
                            invariant
                                t <= cyc@.len(),
                                names@.len() == t,
                                c == cyc@.map_values(|x: usize| x as int),
                                forall|q: int| 0 <= q < cyc@.len() ==> cyc@[q] < ps@.len(),
                                forall|q: int|
                                    0 <= q < t ==> models(ps@)[c[q]].name == (#[trigger] names@[q])@,
                            decreases cyc@.len() - t,
                        {
                            names.push(ps[cyc[t]].name.clone());
                            t = t + 1;
                        }
                        proof {
                            assert forall|q: int| 0 <= q < c.len() implies edge(
                                models(ps@),
                                c[q],
                                #[trigger] c[(q + 1) % (c.len() as int)],
                            ) by {
                                assert(edge(
                                    models(ps@),
                                    cyc@[q] as int,
                                    cyc@[(q + 1) % (cyc@.len() as int)] as int,
                                ));
                            }
                            assert(names_cycle(models(ps@), c, names@));
                            lemma_cycle_rejected(models(ps@), c);
                            assert(exists|c2: Seq<int>| names_cycle(models(ps@), c2, names@));
                        }
                        let err = BuildError::CyclicPhaseDependency { phases: names };
                        assert(err->phases@ == names@);
                        assert(exists|c2: Seq<int>| names_cycle(models(ps@), c2, err->phases@));
                        return Err(err);
                    },
                    None => {
                        proof {
                            lemma_count_all(placed@);
                            assert forall|j: usize| (j as int) < models(ps@).len() implies #[trigger] order@.contains(j) by {
                                assert(placed@[j as int]);
                            }
                            lemma_ordered_acyclic(models(ps@), order@);
                        }
                        return Ok(order);
                    },
                }
            },
        }
    }
}

proof fn lemma_prefix_agree(ps: Seq<PhaseModel>, o1: Seq<usize>, o2: Seq<usize>, p: int)
    requires
        is_stable_order(ps, o1),
        is_stable_order(ps, o2),
        0 <= p <= o1.len(),
    ensures
        o1.subrange(0, p) == o2.subrange(0, p),
    decreases p,
{
    reveal(greedy_prefix);
    if p == 0 {
        assert(o1.subrange(0, 0) =~= o2.subrange(0, 0));
    } else {
        let q = p - 1;
        lemma_prefix_agree(ps, o1, o2, q);
        let pre = o1.subrange(0, q);
        let x1 = o1[q];
        let x2 = o2[q];
        assert(ready(ps, x1 as int, o1.subrange(0, q)));
        assert(ready(ps, x2 as int, o2.subrange(0, q)));
        assert(!pre.contains(x1)) by {
            if pre.contains(x1) {
                let a = choose|a: int| 0 <= a < q && pre[a] == x1;
                assert(o1[a] == o1[q]);
            }
        }
        assert(!pre.contains(x2)) by {
            if pre.contains(x2) {
                let a = choose|a: int| 0 <= a < q && pre[a] == x2;
                assert(o2.subrange(0, q)[a] == o2[a]);
                assert(o2[a] == o2[q]);
            }
        }
        if x1 < x2 {
            assert(!ready(ps, x1 as int, o2.subrange(0, q)));
        }
        if x2 < x1 {
            assert(!ready(ps, x2 as int, o1.subrange(0, q)));
        }
        assert(o1.subrange(0, p) =~= pre.push(x1));
        assert(o2.subrange(0, p) =~= o2.subrange(0, q).push(x2));
    }
}

/// A plan has exactly one stable order: the order in which its phases run is
/// determined by the phases alone.
pub proof fn lemma_stable_order_unique(ps: Seq<PhaseModel>, o1: Seq<usize>, o2: Seq<usize>)
    requires
        is_stable_order(ps, o1),
        is_stable_order(ps, o2),
    ensures
        o1 == o2,
{
    lemma_prefix_agree(ps, o1, o2, o1.len() as int);
    assert(o1.subrange(0, o1.len() as int) =~= o1);
    assert(o2.subrange(0, o2.len() as int) =~= o2);
}

/// Phases that depend on one another around a loop (each on the next, the last on
/// the first, such as build on install and install on build) form a cycle: when the
/// references resolve, plan validation rejects them as a cyclic dependency.
pub proof fn lemma_cycle_rejected(ps: Seq<PhaseModel>, c: Seq<int>)
    requires
        c.len() > 0,
        forall|t: int| 0 <= t < c.len() ==> edge(ps, c[t], #[trigger] c[(t + 1) % (c.len() as int)]),
    ensures
        has_cycle(ps),
{
    let s = Set::new(|x: int| exists|t: int| 0 <= t < c.len() && c[t] == x);
    assert(s.contains(c[0]));
    assert forall|i: int| s.contains(i) implies 0 <= i < ps.len() by {
        let t = choose|t: int| 0 <= t < c.len() && c[t] == i;
        assert(edge(ps, c[t], c[(t + 1) % (c.len() as int)]));
        reveal(edge);
    }
    assert forall|i: int| s.contains(i) implies exists|j: int| s.contains(j) && edge(ps, i, j) by {
        let t = choose|t: int| 0 <= t < c.len() && c[t] == i;
        let u = (t + 1) % (c.len() as int);
        assert(edge(ps, c[t], c[u]));
        assert(0 <= u < c.len());
        assert(s.contains(c[u]));
    }
    assert(closed_cycle(ps, s));
}

} // verus!
