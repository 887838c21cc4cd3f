//! Computing the order in which stages run.

use crate::config::{stage_models, Stage, StageModel};
use crate::order::{lemma_lex_reflexive, lemma_lex_total, lemma_lex_transitive, lex_le, text_le};
use crate::scan::{lemma_first_some, lemma_first_some_found, lemma_no_some};
use crate::schedule::{
    bad_dependency, dependency_problem, lemma_runs_next_unique, lemma_schedule_stays,
    lemma_schedule_upto, lemma_without_repeats, lemma_distinct_fits, needs, order_problem, ready,
    runs_next, schedule, schedule_upto, stage_dependency_problem, stage_names, without_repeats,
    DependencyProblem, ProblemModel,
};
use crate::text::{copy_list, join, joined, lemma_found_within, list_has, occurs, same_text, texts};
use vstd::prelude::*;
use vstd::string::*;

verus! {

// ---------------------------------------------------------------------------
// Links between stages
// ---------------------------------------------------------------------------
/// Whether a link runs from a stage to one that depends on it.
spec fn is_link(stages: Seq<StageModel>, nodes: Seq<Seq<char>>, link: (usize, usize)) -> bool {
    &&& link.0 < nodes.len()
    &&& link.1 < nodes.len()
    &&& needs(stages, nodes[link.1 as int], nodes[link.0 as int])
}

/// Whether some link stands for the dependency of `name` on `dep`.
spec fn linked(
    nodes: Seq<Seq<char>>,
    links: Seq<(usize, usize)>,
    name: Seq<char>,
    dep: Seq<char>,
) -> bool {
    exists|k: int|
        0 <= k < links.len() && nodes[(#[trigger] links[k]).0 as int] == dep
            && nodes[links[k].1 as int] == name
}

/// The number of links into `v` from stages that are not done.
spec fn pending(
    links: Seq<(usize, usize)>,
    nodes: Seq<Seq<char>>,
    done: Seq<Seq<char>>,
    v: int,
) -> nat
    decreases links.len(),
{
    if links.len() == 0 {
        0
    } else {
        let last = links.last();
        pending(links.drop_last(), nodes, done, v) + if last.1 == v && !done.contains(
            nodes[last.0 as int],
        ) {
            1nat
        } else {
            0nat
        }
    }
}

/// The number of links from `u` to `v`.
spec fn hits(links: Seq<(usize, usize)>, u: int, v: int) -> nat
    decreases links.len(),
{
    if links.len() == 0 {
        0
    } else {
        let last = links.last();
        hits(links.drop_last(), u, v) + if last.0 == u && last.1 == v {
            1nat
        } else {
            0nat
        }
    }
}

proof fn lemma_pending_zero(
    links: Seq<(usize, usize)>,
    nodes: Seq<Seq<char>>,
    done: Seq<Seq<char>>,
    v: int,
)
    ensures
        pending(links, nodes, done, v) <= links.len(),
        pending(links, nodes, done, v) == 0 <==> forall|k: int|
            0 <= k < links.len() && (#[trigger] links[k]).1 == v ==> done.contains(
                nodes[links[k].0 as int],
            ),
    decreases links.len(),
{
    if links.len() > 0 {
        let rest = links.drop_last();
        lemma_pending_zero(rest, nodes, done, v);
        if pending(links, nodes, done, v) == 0 {
            assert forall|k: int|
                0 <= k < links.len() && (#[trigger] links[k]).1 == v implies done.contains(
                nodes[links[k].0 as int],
            ) by {
                if k < rest.len() {
                    assert(rest[k] == links[k]);
                }
            }
        } else if pending(rest, nodes, done, v) > 0 {
            let k = choose|k: int|
                0 <= k < rest.len() && (#[trigger] rest[k]).1 == v && !done.contains(
                    nodes[rest[k].0 as int],
                );
            assert(links[k] == rest[k]);
        } else {
            assert(links[links.len() - 1].1 == v);
        }
    }
}

proof fn lemma_pending_step(
    links: Seq<(usize, usize)>,
    nodes: Seq<Seq<char>>,
    done: Seq<Seq<char>>,
    u: int,
    v: int,
)
    requires
        nodes.no_duplicates(),
        0 <= u < nodes.len(),
        !done.contains(nodes[u]),
        forall|k: int| 0 <= k < links.len() ==> (#[trigger] links[k]).0 < nodes.len(),
    ensures
        pending(links, nodes, done.push(nodes[u]), v) + hits(links, u, v) == pending(
            links,
            nodes,
            done,
            v,
        ),
    decreases links.len(),
{
    if links.len() > 0 {
        let rest = links.drop_last();
        assert forall|k: int| 0 <= k < rest.len() implies (#[trigger] rest[k]).0 < nodes.len() by {
            assert(rest[k] == links[k]);
        }
        lemma_pending_step(rest, nodes, done, u, v);
        let from = nodes[links.last().0 as int];
        let after = done.push(nodes[u]);
        assert(links[links.len() - 1].0 < nodes.len());
        if done.contains(from) {
            let i = choose|i: int| 0 <= i < done.len() && done[i] == from;
            assert(after[i] == from);
        }
        assert(after[after.len() - 1] == nodes[u]);
        if after.contains(from) && !done.contains(from) {
            let i = choose|i: int| 0 <= i < after.len() && after[i] == from;
            assert(i == done.len());
        }
    }
}

proof fn lemma_hits_grow(links: Seq<(usize, usize)>, k: int, u: int, v: int)
    requires
        0 <= k <= links.len(),
    ensures
        hits(links.take(k), u, v) <= hits(links, u, v),
    decreases links.len(),
{
    if k < links.len() {
        lemma_hits_grow(links.drop_last(), k, u, v);
        assert(links.drop_last().take(k) =~= links.take(k));
    } else {
        assert(links.take(k) =~= links);
    }
}

/// The names of the stages without repeats.
fn distinct_names(stages: &[Stage]) -> (r: Vec<String>)
    ensures
        texts(r@) == without_repeats(stage_names(stage_models(stages@))),
{
    let ghost names = stage_names(stage_models(stages@));
    let mut r: Vec<String> = Vec::new();
    let mut i: usize = 0;
    assert(names.take(0) =~= Seq::<Seq<char>>::empty());
    assert(texts(r@) =~= without_repeats(names.take(0)));
    while i < stages.len()
        invariant
            i <= stages@.len(),
            names == stage_names(stage_models(stages@)),
            texts(r@) == without_repeats(names.take(i as int)),
        decreases stages@.len() - i,
    {
        assert(names.take(i + 1).drop_last() =~= names.take(i as int));
        assert(names.take(i + 1).last() == stages@[i as int].name@);
        if !list_has(r.as_slice(), stages[i].name.as_str()) {
            let ghost before = texts(r@);
            r.push(stages[i].name.clone());
            assert(texts(r@) =~= before.push(stages@[i as int].name@));
        }
        i += 1;
    }
    assert(names.take(i as int) =~= names);
    r
}

/// The position of `name` among the nodes.
fn node_of(nodes: &[String], name: &str) -> (r: usize)
    requires
        texts(nodes@).contains(name@),
    ensures
        r < nodes@.len(),
        texts(nodes@)[r as int] == name@,
{
    let mut i: usize = 0;
    while i < nodes.len()
        invariant
            i <= nodes@.len(),
            forall|k: int| 0 <= k < i ==> texts(nodes@)[k] != name@,
            texts(nodes@).contains(name@),
        decreases nodes@.len() - i,
    {
        if same_text(nodes[i].as_str(), name) {
            return i;
        }
        i += 1;
    }
    proof {
        let k = choose|k: int| 0 <= k < texts(nodes@).len() && texts(nodes@)[k] == name@;
        assert(false);
    }
    0
}

/// The first dependency that no order can satisfy.
fn find_bad_dependency(stages: &[Stage], nodes: &[String]) -> (r: Option<
    DependencyProblem<String, Vec<String>>,
>)
    requires
        texts(nodes@) == without_repeats(stage_names(stage_models(stages@))),
    ensures
        r is Some <==> bad_dependency(stage_models(stages@)) is Some,
        r matches Some(p) ==> Some(p@) == bad_dependency(stage_models(stages@)),
{
    let ghost models = stage_models(stages@);
    let ghost all = Seq::new(models.len(), |i: int| stage_dependency_problem(models, i));
    proof {
        lemma_without_repeats(stage_names(models));
    }
    let mut i: usize = 0;
    while i < stages.len()
        invariant
            i <= stages@.len(),
            models == stage_models(stages@),
            all == Seq::new(models.len(), |i: int| stage_dependency_problem(models, i)),
            forall|k: int| 0 <= k < i ==> all[k] is None,
            texts(nodes@) == without_repeats(stage_names(models)),
            forall|n: Seq<char>| #[trigger]
                without_repeats(stage_names(models)).contains(n) <==> stage_names(models).contains(
                    n,
                ),
        decreases stages@.len() - i,
    {
        let stage = &stages[i];
        let ghost row = Seq::new(
            models[i as int].depends_on.len(),
            |j: int| dependency_problem(models, i as int, j),
        );
        let mut j: usize = 0;
        while j < stage.depends_on.len()
            invariant
                j <= stage.depends_on@.len(),
                i < stages@.len(),
                models == stage_models(stages@),
                stage@ == models[i as int],
                row == Seq::new(
                    models[i as int].depends_on.len(),
                    |j: int| dependency_problem(models, i as int, j),
                ),
                all == Seq::new(models.len(), |i: int| stage_dependency_problem(models, i)),
                forall|k: int| 0 <= k < i ==> all[k] is None,
                forall|k: int| 0 <= k < j ==> row[k] is None,
                texts(nodes@) == without_repeats(stage_names(models)),
                forall|n: Seq<char>| #[trigger]
                    without_repeats(stage_names(models)).contains(n) <==> stage_names(
                        models,
                    ).contains(n),
            decreases stage.depends_on@.len() - j,
        {
            let dep = &stage.depends_on[j];
            assert(dep@ == models[i as int].depends_on[j as int]);
            assert(row[j as int] == dependency_problem(models, i as int, j as int));
            let found = if same_text(dep.as_str(), stage.name.as_str()) {
                Some(DependencyProblem::OnItself { stage: stage.name.clone() })
            } else if !list_has(nodes, dep.as_str()) {
                Some(
                    DependencyProblem::Missing {
                        stage: stage.name.clone(),
                        dependency: dep.clone(),
                        available: copy_list(nodes),
                    },
                )
            } else {
                None
            };
            if found.is_some() {
                proof {
                    lemma_first_some(row, j as int);
                    assert(all[i as int] == row[j as int]);
                    lemma_first_some(all, i as int);
                }
                return found;
            }
            j += 1;
        }
        proof {
            lemma_no_some(row);
            assert(all[i as int] is None);
        }
        i += 1;
    }
    proof {
        lemma_no_some(all);
    }
    None
}

/// If nothing is wrong with the dependencies, each is on a defined stage.
proof fn lemma_dependency_is_defined(stages: Seq<StageModel>, i: int, j: int)
    requires
        bad_dependency(stages) is None,
        0 <= i < stages.len(),
        0 <= j < stages[i].depends_on.len(),
    ensures
        stage_names(stages).contains(stages[i].depends_on[j]),
{
    let all = Seq::new(stages.len(), |i: int| stage_dependency_problem(stages, i));
    lemma_first_some_found(all);
    assert(all[i] is None);
    let row = Seq::new(stages[i].depends_on.len(), |j: int| dependency_problem(stages, i, j));
    lemma_first_some_found(row);
    assert(row[j] is None);
}

/// One link for each dependency.
fn collect_links(stages: &[Stage], nodes: &[String]) -> (r: Vec<(usize, usize)>)
    requires
        texts(nodes@) == without_repeats(stage_names(stage_models(stages@))),
        bad_dependency(stage_models(stages@)) is None,
    ensures
        forall|k: int|
            0 <= k < r@.len() ==> is_link(stage_models(stages@), texts(nodes@), #[trigger] r@[k]),
        forall|name: Seq<char>, dep: Seq<char>| #[trigger]
            needs(stage_models(stages@), name, dep) ==> linked(texts(nodes@), r@, name, dep),
{
    let ghost models = stage_models(stages@);
    let ghost names = texts(nodes@);
    proof {
        lemma_without_repeats(stage_names(models));
    }
    let mut links: Vec<(usize, usize)> = Vec::new();
    let mut i: usize = 0;
    while i < stages.len()
        invariant
            i <= stages@.len(),
            models == stage_models(stages@),
            names == texts(nodes@),
            bad_dependency(models) is None,
            names == without_repeats(stage_names(models)),
            forall|n: Seq<char>| #[trigger]
                without_repeats(stage_names(models)).contains(n) <==> stage_names(models).contains(
                    n,
                ),
            forall|k: int| 0 <= k < links@.len() ==> is_link(models, names, #[trigger] links@[k]),
            forall|a: int, b: int|
                0 <= a < i && 0 <= b < models[a].depends_on.len() ==> linked(
                    names,
                    links@,
                    models[a].name,
                    #[trigger] models[a].depends_on[b],
                ),
        decreases stages@.len() - i,
    {
        let stage = &stages[i];
        assert(stage_names(models)[i as int] == stage.name@);
        assert(names.contains(stage.name@));
        let to: usize = node_of(nodes, stage.name.as_str());
        let mut j: usize = 0;
        while j < stage.depends_on.len()
            invariant
                j <= stage.depends_on@.len(),
                i < stages@.len(),
                models == stage_models(stages@),
                stage@ == models[i as int],
                names == texts(nodes@),
                bad_dependency(models) is None,
                names == without_repeats(stage_names(models)),
                forall|n: Seq<char>| #[trigger]
                    without_repeats(stage_names(models)).contains(n) <==> stage_names(
                        models,
                    ).contains(n),
                to < names.len(),
                names[to as int] == stage.name@,
                forall|k: int|
                    0 <= k < links@.len() ==> is_link(models, names, #[trigger] links@[k]),
                forall|a: int, b: int|
                    0 <= a < i && 0 <= b < models[a].depends_on.len() ==> linked(
                        names,
                        links@,
                        models[a].name,
                        #[trigger] models[a].depends_on[b],
                    ),
                forall|b: int|
                    0 <= b < j ==> linked(
                        names,
                        links@,
                        models[i as int].name,
                        #[trigger] models[i as int].depends_on[b],
                    ),
            decreases stage.depends_on@.len() - j,
        {
            let dep = &stage.depends_on[j];
            assert(dep@ == models[i as int].depends_on[j as int]);
            proof {
                lemma_dependency_is_defined(models, i as int, j as int);
                assert(names.contains(dep@));
            }
            let from: usize = node_of(nodes, dep.as_str());
            let ghost before = links@;
            links.push((from, to));
            proof {
                assert(models[i as int].depends_on.contains(dep@));
                assert(needs(models, stage.name@, dep@));
                assert(is_link(models, names, links@[before.len() as int]));
                assert forall|k: int| 0 <= k < links@.len() implies is_link(
                    models,
                    names,
                    #[trigger] links@[k],
                ) by {
                    if k < before.len() {
                        assert(links@[k] == before[k]);
                    }
                }
                assert forall|name: Seq<char>, dep: Seq<char>| linked(
                    names,
                    before,
                    name,
                    dep,
                ) implies #[trigger] linked(names, links@, name, dep) by {
                    let k = choose|k: int|
                        0 <= k < before.len() && names[(#[trigger] before[k]).0 as int] == dep
                            && names[before[k].1 as int] == name;
                    assert(links@[k] == before[k]);
                }
                assert(links@[before.len() as int] == (from, to));
                assert(linked(names, links@, models[i as int].name, dep@));
            }
            j += 1;
        }
        i += 1;
    }
    assert forall|name: Seq<char>, dep: Seq<char>| #[trigger] needs(
        models,
        name,
        dep,
    ) implies linked(names, links@, name, dep) by {
        let a = choose|a: int|
            0 <= a < models.len() && (#[trigger] models[a]).name == name
                && models[a].depends_on.contains(dep);
        let b = choose|b: int| 0 <= b < models[a].depends_on.len() && models[a].depends_on[b] == dep;
        assert(linked(names, links@, models[a].name, models[a].depends_on[b]));
    }
    links
}

/// For each node, the number of links into it.
fn count_links(links: &[(usize, usize)], n: usize, Ghost(nodes): Ghost<Seq<Seq<char>>>) -> (r: Vec<
    usize,
>)
    requires
        n == nodes.len(),
        forall|k: int| 0 <= k < links@.len() ==> (#[trigger] links@[k]).1 < n,
    ensures
        r@.len() == n,
        forall|v: int|
            0 <= v < n ==> #[trigger] r@[v] == pending(
                links@,
                nodes,
                Seq::<Seq<char>>::empty(),
                v,
            ),
{
    let ghost none = Seq::<Seq<char>>::empty();
    let mut r: Vec<usize> = Vec::new();
    let mut v: usize = 0;
    assert(links@.take(0) =~= Seq::<(usize, usize)>::empty());
    while v < n
        invariant
            v <= n,
            r@.len() == v,
            forall|w: int| 0 <= w < v ==> #[trigger] r@[w] == pending(links@.take(0), nodes, none, w),
            links@.take(0) == Seq::<(usize, usize)>::empty(),
        decreases n - v,
    {
        r.push(0);
        v += 1;
    }
    let total: usize = links.len();
    let mut k: usize = 0;
    while k < total
        invariant
            k <= total,
            total == links@.len(),
            none == Seq::<Seq<char>>::empty(),
            r@.len() == n,
            forall|k: int| 0 <= k < links@.len() ==> (#[trigger] links@[k]).1 < n,
            forall|w: int|
                0 <= w < n ==> #[trigger] r@[w] == pending(links@.take(k as int), nodes, none, w),
        decreases total - k,
    {
        let to: usize = links[k].1;
        assert(links@.take(k + 1).drop_last() =~= links@.take(k as int));
        proof {
            lemma_pending_zero(links@.take(k as int), nodes, none, to as int);
        }
        let ghost before = r@;
        let seen: usize = r[to];
        r.set(to, seen + 1);
        k += 1;
        assert forall|w: int| 0 <= w < n implies #[trigger] r@[w] == pending(
            links@.take(k as int),
            nodes,
            none,
            w,
        ) by {
            assert(before[w] == pending(links@.take(k - 1), nodes, none, w));
        }
    }
    assert(links@.take(k as int) =~= links@);
    r
}

/// The place in the queue of the node whose name comes last.
fn last_in_queue(nodes: &[String], queue: &[usize]) -> (r: usize)
    requires
        queue@.len() > 0,
        forall|k: int| 0 <= k < queue@.len() ==> #[trigger] queue@[k] < nodes@.len(),
    ensures
        r < queue@.len(),
        forall|k: int|
            0 <= k < queue@.len() ==> lex_le(
                texts(nodes@)[#[trigger] queue@[k] as int],
                texts(nodes@)[queue@[r as int] as int],
            ),
{
    let ghost names = texts(nodes@);
    let mut best: usize = 0;
    let mut i: usize = 1;
    proof {
        lemma_lex_reflexive(names[queue@[0] as int]);
    }
    while i < queue.len()
        invariant
            1 <= i <= queue@.len(),
            best < i,
            names == texts(nodes@),
            forall|k: int| 0 <= k < queue@.len() ==> #[trigger] queue@[k] < nodes@.len(),
            forall|k: int|
                0 <= k < i ==> lex_le(
                    names[#[trigger] queue@[k] as int],
                    names[queue@[best as int] as int],
                ),
        decreases queue@.len() - i,
    {
        let ghost old_best = names[queue@[best as int] as int];
        let ghost new = names[queue@[i as int] as int];
        if text_le(nodes[queue[best]].as_str(), nodes[queue[i]].as_str()) {
            best = i;
            proof {
                lemma_lex_reflexive(new);
                assert forall|k: int| 0 <= k < i implies lex_le(
                    names[#[trigger] queue@[k] as int],
                    new,
                ) by {
                    lemma_lex_transitive(names[queue@[k] as int], old_best, new);
                }
            }
        } else {
            proof {
                lemma_lex_total(old_best, new);
            }
        }
        i += 1;
    }
    best
}

// ---------------------------------------------------------------------------
// The order
// ---------------------------------------------------------------------------
/// Whether the counters and the queue stand for what is done: each counter is
/// the number of links that wait, and the queue holds the stages that can run.
spec fn in_step(
    links: Seq<(usize, usize)>,
    nodes: Seq<Seq<char>>,
    done: Seq<Seq<char>>,
    counts: Seq<usize>,
    queue: Seq<usize>,
) -> bool {
    &&& counts.len() == nodes.len()
    &&& forall|v: int|
        0 <= v < nodes.len() ==> #[trigger] counts[v] == pending(links, nodes, done, v)
    &&& queue_holds(nodes, done, counts, queue)
}

/// Whether the queue holds, once each, the nodes that are not done and that no
/// link keeps waiting, and no link into a done node waits.
spec fn queue_holds(
    nodes: Seq<Seq<char>>,
    done: Seq<Seq<char>>,
    counts: Seq<usize>,
    queue: Seq<usize>,
) -> bool {
    &&& queue.no_duplicates()
    &&& forall|k: int| 0 <= k < queue.len() ==> #[trigger] queue[k] < nodes.len()
    &&& forall|v: usize|
        v < nodes.len() ==> (#[trigger] queue.contains(v) <==> counts[v as int] == 0
            && !done.contains(nodes[v as int]))
    &&& forall|v: int|
        0 <= v < nodes.len() && done.contains(#[trigger] nodes[v]) ==> counts[v] == 0
}

/// A node can run if and only if it is not done and no link keeps it waiting.
proof fn lemma_ready_is_count_zero(
    stages: Seq<StageModel>,
    nodes: Seq<Seq<char>>,
    links: Seq<(usize, usize)>,
    done: Seq<Seq<char>>,
    v: int,
)
    requires
        nodes == without_repeats(stage_names(stages)),
        0 <= v < nodes.len(),
        forall|k: int| 0 <= k < links.len() ==> is_link(stages, nodes, #[trigger] links[k]),
        forall|name: Seq<char>, dep: Seq<char>| #[trigger]
            needs(stages, name, dep) ==> linked(nodes, links, name, dep),
    ensures
        ready(stages, done, nodes[v]) <==> pending(links, nodes, done, v) == 0 && !done.contains(
            nodes[v],
        ),
{
    lemma_without_repeats(stage_names(stages));
    lemma_pending_zero(links, nodes, done, v);
    assert(nodes.contains(nodes[v]));
    if pending(links, nodes, done, v) == 0 {
        assert forall|dep: Seq<char>| #[trigger] needs(
            stages,
            nodes[v],
            dep,
        ) implies done.contains(dep) by {
            assert(linked(nodes, links, nodes[v], dep));
            let k = choose|k: int|
                0 <= k < links.len() && nodes[(#[trigger] links[k]).0 as int] == dep
                    && nodes[links[k].1 as int] == nodes[v];
            assert(is_link(stages, nodes, links[k]));
            assert(links[k].1 == v);
        }
    } else {
        let k = choose|k: int|
            0 <= k < links.len() && (#[trigger] links[k]).1 == v && !done.contains(
                nodes[links[k].0 as int],
            );
        assert(is_link(stages, nodes, links[k]));
        assert(needs(stages, nodes[v], nodes[links[k].0 as int]));
    }
}

/// Follows the links out of `u`, which has just been done: takes each off its
/// counter and queues the nodes that no link keeps waiting any longer.
fn release(
    links: &[(usize, usize)],
    u: usize,
    counts: &mut Vec<usize>,
    queue: &mut Vec<usize>,
    Ghost(nodes): Ghost<Seq<Seq<char>>>,
    Ghost(done): Ghost<Seq<Seq<char>>>,
)
    requires
        nodes.no_duplicates(),
        u < nodes.len(),
        !done.contains(nodes[u as int]),
        forall|k: int|
            0 <= k < links@.len() ==> (#[trigger] links@[k]).0 < nodes.len() && links@[k].1
                < nodes.len(),
        old(counts)@.len() == nodes.len(),
        forall|v: int|
            0 <= v < nodes.len() ==> #[trigger] old(counts)@[v] == pending(links@, nodes, done, v),
        queue_holds(nodes, done.push(nodes[u as int]), old(counts)@, old(queue)@),
    ensures
        in_step(links@, nodes, done.push(nodes[u as int]), final(counts)@, final(queue)@),
{
    let ghost after = done.push(nodes[u as int]);
    let total: usize = links.len();
    let mut k: usize = 0;
    assert(links@.take(0) =~= Seq::<(usize, usize)>::empty());
    while k < total
        invariant
            k <= total,
            total == links@.len(),
            nodes.no_duplicates(),
            u < nodes.len(),
            !done.contains(nodes[u as int]),
            after == done.push(nodes[u as int]),
            forall|k: int|
                0 <= k < links@.len() ==> (#[trigger] links@[k]).0 < nodes.len() && links@[k].1
                    < nodes.len(),
            counts@.len() == nodes.len(),
            forall|v: int|
                0 <= v < nodes.len() ==> #[trigger] counts@[v] + hits(
                    links@.take(k as int),
                    u as int,
                    v,
                ) == pending(links@, nodes, done, v),
            queue_holds(nodes, after, counts@, queue@),
        decreases total - k,
    {
        let link = links[k];
        assert(links@.take(k + 1).drop_last() =~= links@.take(k as int));
        assert(links@.take(k + 1).last() == link);
        assert(links@[k as int].0 < nodes.len() && links@[k as int].1 < nodes.len());
        if link.0 == u {
            let to: usize = link.1;
            proof {
                lemma_hits_grow(links@, k + 1, u as int, to as int);
                lemma_pending_step(links@, nodes, done, u as int, to as int);
            }
            let waiting: usize = counts[to];
            assert(waiting >= 1);
            assert(!after.contains(nodes[to as int]));
            assert(!queue@.contains(to));
            let ghost old_counts = counts@;
            let ghost old_queue = queue@;
            counts.set(to, waiting - 1);
            if waiting == 1 {
                queue.push(to);
                proof {
                    assert(queue@.no_duplicates());
                    assert forall|v: usize| v < nodes.len() implies (#[trigger] queue@.contains(v)
                        <==> counts@[v as int] == 0 && !after.contains(nodes[v as int])) by {
                        if old_queue.contains(v) {
                            let i = choose|i: int| 0 <= i < old_queue.len() && old_queue[i] == v;
                            assert(queue@[i] == v);
                        }
                        if queue@.contains(v) && v != to {
                            let i = choose|i: int| 0 <= i < queue@.len() && queue@[i] == v;
                            assert(old_queue[i] == v);
                        }
                        assert(queue@[old_queue.len() as int] == to);
                        assert(old_queue.contains(v) <==> old_counts[v as int] == 0
                            && !after.contains(nodes[v as int]));
                    }
                }
            } else {
                assert forall|v: usize| v < nodes.len() implies (#[trigger] queue@.contains(v)
                    <==> counts@[v as int] == 0 && !after.contains(nodes[v as int])) by {
                    assert(old_queue.contains(v) <==> old_counts[v as int] == 0 && !after.contains(
                        nodes[v as int],
                    ));
                }
            }
            assert forall|v: int|
                0 <= v < nodes.len() && after.contains(#[trigger] nodes[v]) implies counts@[v]
                == 0 by {
                assert(old_counts[v] == 0);
            }
            assert forall|v: int| 0 <= v < nodes.len() implies #[trigger] counts@[v] + hits(
                links@.take(k + 1),
                u as int,
                v,
            ) == pending(links@, nodes, done, v) by {
                assert(old_counts[v] + hits(links@.take(k as int), u as int, v) == pending(
                    links@,
                    nodes,
                    done,
                    v,
                ));
            }
        } else {
            assert forall|v: int| 0 <= v < nodes.len() implies #[trigger] counts@[v] + hits(
                links@.take(k + 1),
                u as int,
                v,
            ) == pending(links@, nodes, done, v) by {
                assert(counts@[v] + hits(links@.take(k as int), u as int, v) == pending(
                    links@,
                    nodes,
                    done,
                    v,
                ));
            }
        }
        k += 1;
    }
    assert(links@.take(k as int) =~= links@);
    assert forall|v: int| 0 <= v < nodes.len() implies #[trigger] counts@[v] == pending(
        links@,
        nodes,
        after,
        v,
    ) by {
        lemma_pending_step(links@, nodes, done, u as int, v);
        assert(counts@[v] + hits(links@.take(k as int), u as int, v) == pending(
            links@,
            nodes,
            done,
            v,
        ));
    }
}

/// The nodes without the names in `order`.
fn left_out(nodes: &[String], order: &[String]) -> (r: Vec<String>)
    ensures
        texts(r@) == texts(nodes@).filter(|n: Seq<char>| !texts(order@).contains(n)),
{
    let ghost keep = |n: Seq<char>| !texts(order@).contains(n);
    let ghost names = texts(nodes@);
    let mut r: Vec<String> = Vec::new();
    let mut i: usize = 0;
    proof {
        reveal(Seq::filter);
        assert(names.take(0) =~= Seq::<Seq<char>>::empty());
        assert(texts(r@) =~= names.take(0).filter(keep));
    }
    while i < nodes.len()
        invariant
            i <= nodes@.len(),
            names == texts(nodes@),
            keep == (|n: Seq<char>| !texts(order@).contains(n)),
            texts(r@) == names.take(i as int).filter(keep),
        decreases nodes@.len() - i,
    {
        proof {
            reveal(Seq::filter);
            assert(names.take(i + 1).drop_last() =~= names.take(i as int));
            assert(names.take(i + 1).last() == nodes@[i as int]@);
        }
        if !list_has(order, nodes[i].as_str()) {
            let ghost before = texts(r@);
            r.push(nodes[i].clone());
            assert(texts(r@) =~= before.push(nodes@[i as int]@));
        }
        i += 1;
    }
    assert(names.take(i as int) =~= names);
    r
}

/// The nodes that no link keeps waiting.
fn first_queue(counts: &[usize], Ghost(nodes): Ghost<Seq<Seq<char>>>) -> (r: Vec<usize>)
    requires
        counts@.len() == nodes.len(),
    ensures
        queue_holds(nodes, Seq::<Seq<char>>::empty(), counts@, r@),
{
    let ghost none = Seq::<Seq<char>>::empty();
    let mut r: Vec<usize> = Vec::new();
    let mut v: usize = 0;
    while v < counts.len()
        invariant
            v <= counts@.len(),
            counts@.len() == nodes.len(),
            none == Seq::<Seq<char>>::empty(),
            r@.no_duplicates(),
            forall|k: int| 0 <= k < r@.len() ==> #[trigger] r@[k] < v,
            forall|w: usize| w < v ==> (#[trigger] r@.contains(w) <==> counts@[w as int] == 0),
        decreases counts@.len() - v,
    {
        let ghost before = r@;
        if counts[v] == 0 {
            r.push(v);
            assert forall|w: usize| w < v + 1 implies (#[trigger] r@.contains(w)
                <==> counts@[w as int] == 0) by {
                if before.contains(w) {
                    let i = choose|i: int| 0 <= i < before.len() && before[i] == w;
                    assert(r@[i] == w);
                }
                if r@.contains(w) && w != v {
                    let i = choose|i: int| 0 <= i < r@.len() && r@[i] == w;
                    assert(before[i] == w);
                }
                assert(r@[before.len() as int] == v);
            }
        } else {
            assert(!r@.contains(v));
        }
        v += 1;
    }
    r
}

/// The order in which the stages run: of the stages that can run, the one whose
/// name comes last is next. A stage that depends on itself or on a stage that is
/// not defined is reported first, and otherwise the stages that never can run.
pub fn resolve_stage_dependencies(stages: &[Stage]) -> (r: Result<
    Vec<String>,
    DependencyProblem<String, Vec<String>>,
>)
    ensures
        r is Ok <==> order_problem(stage_models(stages@)) is None,
        r matches Ok(order) ==> texts(order@) == schedule(stage_models(stages@)),
        r matches Err(p) ==> Some(p@) == order_problem(stage_models(stages@)),
{
    let ghost models = stage_models(stages@);
    let nodes = distinct_names(stages);
    let ghost names = texts(nodes@);
    match find_bad_dependency(stages, nodes.as_slice()) {
        Some(problem) => {
            return Err(problem);
        },
        None => {},
    }
    let links = collect_links(stages, nodes.as_slice());
    proof {
        lemma_without_repeats(stage_names(models));
        assert forall|k: int| 0 <= k < links@.len() implies (#[trigger] links@[k]).0 < names.len()
            && links@[k].1 < names.len() by {
            assert(is_link(models, names, links@[k]));
        }
    }
    let mut counts = count_links(links.as_slice(), nodes.len(), Ghost(names));
    let mut queue = first_queue(counts.as_slice(), Ghost(names));
    let mut order: Vec<String> = Vec::new();
    let total: usize = nodes.len();
    assert(texts(order@) =~= Seq::<Seq<char>>::empty());
    assert(in_step(links@, names, texts(order@), counts@, queue@));
    while queue.len() > 0
        invariant
            models == stage_models(stages@),
            names == texts(nodes@),
            total == names.len(),
            names == without_repeats(stage_names(models)),
            names.no_duplicates(),
            forall|n: Seq<char>| #[trigger]
                without_repeats(stage_names(models)).contains(n) <==> stage_names(models).contains(
                    n,
                ),
            forall|k: int|
                0 <= k < links@.len() ==> is_link(models, names, #[trigger] links@[k]),
            forall|k: int|
                0 <= k < links@.len() ==> (#[trigger] links@[k]).0 < names.len() && links@[k].1
                    < names.len(),
            forall|name: Seq<char>, dep: Seq<char>| #[trigger]
                needs(models, name, dep) ==> linked(names, links@, name, dep),
            texts(order@) == schedule_upto(models, order@.len()),
            order@.len() <= names.len(),
            in_step(links@, names, texts(order@), counts@, queue@),
        decreases names.len() - order@.len(),
    {
        let at: usize = last_in_queue(nodes.as_slice(), queue.as_slice());
        let ghost done = texts(order@);
        let ghost before = queue@;
        let u: usize = queue.remove(at);
        assert(before[at as int] == u);
        proof {
            assert(before.contains(u));
            lemma_ready_is_count_zero(models, names, links@, done, u as int);
            let name = names[u as int];
            assert(runs_next(models, done, name)) by {
                assert forall|other: Seq<char>| #[trigger] ready(
                    models,
                    done,
                    other,
                ) implies lex_le(other, name) by {
                    assert(names.contains(other));
                    let v = choose|v: int| 0 <= v < names.len() && names[v] == other;
                    lemma_ready_is_count_zero(models, names, links@, done, v);
                    assert(counts@[v] == pending(links@, names, done, v));
                    assert(before.contains(v as usize));
                    let k = choose|k: int| 0 <= k < before.len() && before[k] == v as usize;
                    assert(lex_le(names[before[k] as int], name));
                }
            }
            let next = choose|n: Seq<char>| runs_next(models, done, n);
            lemma_runs_next_unique(models, done, name, next);
            assert(schedule_upto(models, order@.len() + 1) == done.push(name));
            let after = done.push(name);
            assert(queue_holds(names, after, counts@, queue@)) by {
                assert(queue@ =~= before.remove(at as int));
                assert forall|i: int, j: int|
                    0 <= i < queue@.len() && 0 <= j < queue@.len() && i != j implies queue@[i]
                    != queue@[j] by {
                    let a = if i < at { i } else { i + 1 };
                    let b = if j < at { j } else { j + 1 };
                    assert(before[a] != before[b]);
                }
                assert forall|k: int| 0 <= k < queue@.len() implies #[trigger] queue@[k]
                    < names.len() by {
                    let a = if k < at { k } else { k + 1 };
                    assert(before[a] < names.len());
                }
                assert forall|v: usize| v < names.len() implies (#[trigger] queue@.contains(v)
                    <==> counts@[v as int] == 0 && !after.contains(names[v as int])) by {
                    assert(before.contains(v) <==> counts@[v as int] == 0 && !done.contains(
                        names[v as int],
                    ));
                    assert(after[done.len() as int] == name);
                    if done.contains(names[v as int]) {
                        let i = choose|i: int| 0 <= i < done.len() && done[i] == names[v as int];
                        assert(after[i] == names[v as int]);
                    }
                    if after.contains(names[v as int]) && v != u {
                        let i = choose|i: int| 0 <= i < after.len() && after[i] == names[v as int];
                        assert(done[i] == names[v as int]);
                    }
                    if before.contains(v) && v != u {
                        let i = choose|i: int| 0 <= i < before.len() && before[i] == v;
                        let a = if i < at { i } else { i - 1 };
                        assert(queue@[a] == v);
                    }
                    if queue@.contains(v) {
                        let i = choose|i: int| 0 <= i < queue@.len() && queue@[i] == v;
                        let a = if i < at { i } else { i + 1 };
                        assert(before[a] == v);
                        assert(v != u);
                    }
                }
                assert forall|v: int|
                    0 <= v < names.len() && after.contains(#[trigger] names[v]) implies counts@[v]
                    == 0 by {
                    let i = choose|i: int| 0 <= i < after.len() && after[i] == names[v];
                    if i < done.len() {
                        assert(done[i] == names[v]);
                        assert(done.contains(names[v]));
                    } else {
                        assert(v == u);
                    }
                }
            }
        }
        order.push(nodes[u].clone());
        assert(texts(order@) =~= done.push(names[u as int]));
        release(
            links.as_slice(),
            u,
            &mut counts,
            &mut queue,
            Ghost(names),
            Ghost(done),
        );
        proof {
            lemma_scheduled_fit(models, order@.len());
        }
    }
    proof {
        let done = texts(order@);
        assert forall|n: Seq<char>| !ready(models, done, n) by {
            if ready(models, done, n) {
                assert(names.contains(n));
                let v = choose|v: int| 0 <= v < names.len() && names[v] == n;
                lemma_ready_is_count_zero(models, names, links@, done, v);
                assert(counts@[v] == pending(links@, names, done, v));
                assert(queue@.contains(v as usize));
            }
        }
        lemma_schedule_stays(models, order@.len(), models.len());
    }
    if order.len() != stages.len() {
        return Err(
            DependencyProblem::Circular {
                remaining: left_out(nodes.as_slice(), order.as_slice()),
            },
        );
    }
    Ok(order)
}

/// The scheduled stages are no more than there are names.
proof fn lemma_scheduled_fit(stages: Seq<StageModel>, k: nat)
    ensures
        schedule_upto(stages, k).len() <= without_repeats(stage_names(stages)).len(),
{
    let order = schedule_upto(stages, k);
    lemma_schedule_upto(stages, k);
    assert forall|i: int| 0 <= i < order.len() implies stage_names(stages).contains(
        #[trigger] order[i],
    ) by {
        assert(ready(stages, order.take(i), order[i]));
    }
    lemma_distinct_fits(order, stage_names(stages));
}

// ---------------------------------------------------------------------------
// What the user is told
// ---------------------------------------------------------------------------
/// What the user is told about stages that have no order.
pub open spec fn dependency_problem_text(p: ProblemModel) -> Seq<char> {
    match p {
        DependencyProblem::OnItself { stage } => "Stage '"@ + stage
            + "' cannot depend on itself.\nRemove '"@ + stage + "' from its own depends_on list."@,
        DependencyProblem::Missing { stage, dependency, available } => "Stage '"@ + stage
            + "' depends on '"@ + dependency + "', but '"@ + dependency
            + "' is not defined.\nAvailable stages: "@ + joined(available, ", "@),
        DependencyProblem::Circular { remaining } => "Circular dependency detected in stages: "@
            + joined(remaining, " -> "@)
            + "\nThese stages form a dependency cycle and cannot be resolved.\nHint: Remove one of the dependencies to break the cycle."@,
    }
}

/// A short name for the problem and the stages it is about.
pub open spec fn dependency_problem_summary(p: ProblemModel) -> Seq<char> {
    match p {
        DependencyProblem::OnItself { stage } => "Self dependency: "@ + stage,
        DependencyProblem::Missing { stage, dependency, .. } => "Missing dependency: "@ + stage
            + " -> "@ + dependency,
        DependencyProblem::Circular { .. } => "Circular dependency detected"@,
    }
}

impl DependencyProblem<String, Vec<String>> {
    /// What the user is told.
    pub fn message(&self) -> (r: String)
        ensures
            r@ == dependency_problem_text(self@),
    {
        match self {
            DependencyProblem::OnItself { stage } => "Stage '".to_string().concat(
                stage.as_str(),
            ).concat("' cannot depend on itself.\nRemove '").concat(stage.as_str()).concat(
                "' from its own depends_on list.",
            ),
            DependencyProblem::Missing {
                stage,
                dependency,
                available,
            } => "Stage '".to_string().concat(stage.as_str()).concat("' depends on '").concat(
                dependency.as_str(),
            ).concat("', but '").concat(dependency.as_str()).concat(
                "' is not defined.\nAvailable stages: ",
            ).concat(join(available.as_slice(), ", ").as_str()),
            DependencyProblem::Circular {
                remaining,
            } => "Circular dependency detected in stages: ".to_string().concat(
                join(remaining.as_slice(), " -> ").as_str(),
            ).concat(
                "\nThese stages form a dependency cycle and cannot be resolved.\nHint: Remove one of the dependencies to break the cycle.",
            ),
        }
    }

    /// A short name for the problem and the stages it is about.
    pub fn summary(&self) -> (r: String)
        ensures
            r@ == dependency_problem_summary(self@),
    {
        match self {
            DependencyProblem::OnItself { stage } => "Self dependency: ".to_string().concat(
                stage.as_str(),
            ),
            DependencyProblem::Missing {
                stage,
                dependency,
                ..
            } => "Missing dependency: ".to_string().concat(stage.as_str()).concat(" -> ").concat(
                dependency.as_str(),
            ),
            DependencyProblem::Circular { .. } => "Circular dependency detected".to_string(),
        }
    }
}

// ---------------------------------------------------------------------------
// Laws
// ---------------------------------------------------------------------------
/// What is said of stages without an order names the stages at fault, and the
/// stages that there are if one is missing.
pub proof fn law_a_dependency_problem_is_explained(
    stage: Seq<char>,
    dependency: Seq<char>,
    names: Seq<Seq<char>>,
)
    ensures
        occurs(dependency_problem_text(DependencyProblem::OnItself { stage }), stage),
        ({
            let text = dependency_problem_text(
                DependencyProblem::Missing { stage, dependency, available: names },
            );
            &&& occurs(text, stage + "' depends on '"@ + dependency)
            &&& occurs(text, joined(names, ", "@))
        }),
        occurs(
            dependency_problem_text(DependencyProblem::Circular { remaining: names }),
            joined(names, " -> "@),
        ),
{
    let own = "' cannot depend on itself.\nRemove '"@ + stage + "' from its own depends_on list."@;
    assert(dependency_problem_text(DependencyProblem::OnItself { stage }) =~= "Stage '"@ + stage
        + own);
    lemma_found_within("Stage '"@, stage, own);
    let text = dependency_problem_text(
        DependencyProblem::Missing { stage, dependency, available: names },
    );
    let part = stage + "' depends on '"@ + dependency;
    let rest = "', but '"@ + dependency + "' is not defined.\nAvailable stages: "@;
    let list = joined(names, ", "@);
    let none = Seq::<char>::empty();
    assert(text =~= "Stage '"@ + part + (rest + list));
    lemma_found_within("Stage '"@, part, rest + list);
    assert(text =~= ("Stage '"@ + part + rest) + list + none);
    lemma_found_within("Stage '"@ + part + rest, list, none);
    let round = joined(names, " -> "@);
    let advice = "\nThese stages form a dependency cycle and cannot be resolved.\nHint: Remove one of the dependencies to break the cycle."@;
    lemma_found_within("Circular dependency detected in stages: "@, round, advice);
}

/// The summary of a problem tells which it is, and names the stages.
pub proof fn law_a_dependency_problem_is_summed_up(
    stage: Seq<char>,
    dependency: Seq<char>,
    names: Seq<Seq<char>>,
)
    ensures
        dependency_problem_summary(DependencyProblem::OnItself { stage }) == "Self dependency: "@
            + stage,
        dependency_problem_summary(
            DependencyProblem::Missing { stage, dependency, available: names },
        ) == "Missing dependency: "@ + (stage + (" -> "@ + dependency)),
        dependency_problem_summary(DependencyProblem::Circular { remaining: names })
            == "Circular dependency detected"@,
{
    assert("Missing dependency: "@ + stage + " -> "@ + dependency =~= "Missing dependency: "@ + (
    stage + (" -> "@ + dependency)));
}

} // verus!
