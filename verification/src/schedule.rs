//! The order in which stages run.

use crate::config::StageModel;
use crate::order::{
    lemma_lex_antisymmetric, lemma_lex_reflexive, lemma_lex_total, lemma_lex_transitive, lex_le,
};
use crate::scan::{first_some, lemma_filter_keeps, lemma_first_some_found, lemma_no_some};
use crate::text::texts;
use vstd::prelude::*;
use vstd::string::*;

verus! {

// ---------------------------------------------------------------------------
// Dependencies
// ---------------------------------------------------------------------------
/// The names of the stages, in the order of the configuration.
pub open spec fn stage_names(stages: Seq<StageModel>) -> Seq<Seq<char>> {
    stages.map_values(|s: StageModel| s.name)
}

/// Whether some stage of this name depends on `dep`.
pub open spec fn needs(stages: Seq<StageModel>, name: Seq<char>, dep: Seq<char>) -> bool {
    exists|i: int|
        0 <= i < stages.len() && (#[trigger] stages[i]).name == name
            && stages[i].depends_on.contains(dep)
}

/// The list without the items that occurred before.
pub open spec fn without_repeats(names: Seq<Seq<char>>) -> Seq<Seq<char>>
    decreases names.len(),
{
    if names.len() == 0 {
        Seq::empty()
    } else {
        let before = without_repeats(names.drop_last());
        if before.contains(names.last()) {
            before
        } else {
            before.push(names.last())
        }
    }
}

/// Why the stages have no order: `T` is a text and `L` a list of texts.
#[derive(Debug)]
pub enum DependencyProblem<T, L> {
    /// A stage depends on itself.
    OnItself { stage: T },
    /// A stage depends on one that is not defined.
    Missing { stage: T, dependency: T, available: L },
    /// Some stages wait for each other, or two stages share a name.
    Circular { remaining: L },
}

impl View for DependencyProblem<String, Vec<String>> {
    type V = DependencyProblem<Seq<char>, Seq<Seq<char>>>;

    open spec fn view(&self) -> DependencyProblem<Seq<char>, Seq<Seq<char>>> {
        match self {
            DependencyProblem::OnItself { stage } => DependencyProblem::OnItself { stage: stage@ },
            DependencyProblem::Missing {
                stage,
                dependency,
                available,
            } => DependencyProblem::Missing {
                stage: stage@,
                dependency: dependency@,
                available: texts(available@),
            },
            DependencyProblem::Circular { remaining } => DependencyProblem::Circular {
                remaining: texts(remaining@),
            },
        }
    }
}

/// A problem, in terms of contents.
pub type ProblemModel = DependencyProblem<Seq<char>, Seq<Seq<char>>>;

/// What is wrong with dependency `j` of stage `i`.
pub open spec fn dependency_problem(stages: Seq<StageModel>, i: int, j: int) -> Option<
    ProblemModel,
> {
    let stage = stages[i];
    let dep = stage.depends_on[j];
    if dep == stage.name {
        Some(DependencyProblem::OnItself { stage: stage.name })
    } else if !stage_names(stages).contains(dep) {
        Some(
            DependencyProblem::Missing {
                stage: stage.name,
                dependency: dep,
                available: without_repeats(stage_names(stages)),
            },
        )
    } else {
        None
    }
}

/// What is wrong with the dependencies of stage `i`: the first problem.
pub open spec fn stage_dependency_problem(stages: Seq<StageModel>, i: int) -> Option<
    ProblemModel,
> {
    first_some(
        Seq::new(stages[i].depends_on.len(), |j: int| dependency_problem(stages, i, j)),
    )
}

/// The first dependency that no order can satisfy: one of a stage on itself, or
/// on a stage that is not defined.
pub open spec fn bad_dependency(stages: Seq<StageModel>) -> Option<ProblemModel> {
    first_some(Seq::new(stages.len(), |i: int| stage_dependency_problem(stages, i)))
}

// ---------------------------------------------------------------------------
// The schedule
// ---------------------------------------------------------------------------
/// Whether a stage can run next: it is defined, has not run, and everything it
/// depends on has.
pub open spec fn ready(stages: Seq<StageModel>, done: Seq<Seq<char>>, name: Seq<char>) -> bool {
    &&& stage_names(stages).contains(name)
    &&& !done.contains(name)
    &&& forall|dep: Seq<char>| #[trigger] needs(stages, name, dep) ==> done.contains(dep)
}

/// Whether `name` can run next and comes last among those that can.
pub open spec fn runs_next(stages: Seq<StageModel>, done: Seq<Seq<char>>, name: Seq<char>) -> bool {
    &&& ready(stages, done, name)
    &&& forall|other: Seq<char>| #[trigger] ready(stages, done, other) ==> lex_le(other, name)
}

/// The first `k` stages to run: each is, of those that can run after its
/// predecessors, the one whose name comes last.
pub open spec fn schedule_upto(stages: Seq<StageModel>, k: nat) -> Seq<Seq<char>>
    decreases k,
{
    if k == 0 {
        Seq::empty()
    } else {
        let done = schedule_upto(stages, (k - 1) as nat);
        if exists|name: Seq<char>| runs_next(stages, done, name) {
            done.push(choose|name: Seq<char>| runs_next(stages, done, name))
        } else {
            done
        }
    }
}

/// The stages that can run, in the order in which they do.
pub open spec fn schedule(stages: Seq<StageModel>) -> Seq<Seq<char>> {
    schedule_upto(stages, stages.len())
}

/// The names of the stages that can never run, in the order of the
/// configuration.
pub open spec fn never_ready(stages: Seq<StageModel>) -> Seq<Seq<char>> {
    without_repeats(stage_names(stages)).filter(
        |name: Seq<char>| !schedule(stages).contains(name),
    )
}

/// Why the stages have no order, if they have none.
pub open spec fn order_problem(stages: Seq<StageModel>) -> Option<ProblemModel> {
    match bad_dependency(stages) {
        Some(problem) => Some(problem),
        None => if schedule(stages).len() == stages.len() {
            None
        } else {
            Some(DependencyProblem::Circular { remaining: never_ready(stages) })
        },
    }
}

// ---------------------------------------------------------------------------
// Facts about repeats and about the schedule
// ---------------------------------------------------------------------------
/// Dropping repeats keeps what occurs, and each item once.
pub proof fn lemma_without_repeats(names: Seq<Seq<char>>)
    ensures
        without_repeats(names).no_duplicates(),
        without_repeats(names).len() <= names.len(),
        forall|n: Seq<char>| #[trigger] without_repeats(names).contains(n) <==> names.contains(n),
    decreases names.len(),
{
    let all = without_repeats(names);
    if names.len() > 0 {
        let rest = names.drop_last();
        let before = without_repeats(rest);
        lemma_without_repeats(rest);
        assert(names =~= rest.push(names.last()));
        assert forall|n: Seq<char>| #[trigger] all.contains(n) <==> names.contains(n) by {
            if names.contains(n) {
                let i = choose|i: int| 0 <= i < names.len() && names[i] == n;
                if i < rest.len() {
                    assert(rest[i] == n);
                    assert(before.contains(n));
                    let k = choose|k: int| 0 <= k < before.len() && before[k] == n;
                    assert(all[k] == n);
                } else if !before.contains(n) {
                    assert(all[all.len() - 1] == n);
                }
            }
            if all.contains(n) {
                let k = choose|k: int| 0 <= k < all.len() && all[k] == n;
                if k < before.len() {
                    assert(before[k] == n);
                    assert(before.contains(n));
                    assert(rest.contains(n));
                    let i = choose|i: int| 0 <= i < rest.len() && rest[i] == n;
                    assert(names[i] == n);
                } else {
                    assert(names[names.len() - 1] == n);
                }
            }
        }
        assert(all.no_duplicates());
    }
}

/// A list of distinct names that all occur in `names` is no longer than `names`
/// without its repeats.
pub proof fn lemma_distinct_fits(part: Seq<Seq<char>>, names: Seq<Seq<char>>)
    requires
        part.no_duplicates(),
        forall|i: int| 0 <= i < part.len() ==> names.contains(#[trigger] part[i]),
    ensures
        part.len() <= without_repeats(names).len(),
        part.len() == without_repeats(names).len() ==> forall|n: Seq<char>|
            names.contains(n) ==> #[trigger] part.contains(n),
{
    let all = without_repeats(names);
    lemma_without_repeats(names);
    part.unique_seq_to_set();
    all.unique_seq_to_set();
    assert(part.to_set().subset_of(all.to_set())) by {
        assert forall|n: Seq<char>| part.to_set().contains(n) implies all.to_set().contains(n) by {
            let i = choose|i: int| 0 <= i < part.len() && part[i] == n;
            assert(names.contains(part[i]));
            assert(all.contains(n));
        }
    }
    vstd::set_lib::lemma_len_subset(part.to_set(), all.to_set());
    if part.len() == all.len() {
        vstd::set_lib::lemma_subset_equality(part.to_set(), all.to_set());
        assert forall|n: Seq<char>| names.contains(n) implies #[trigger] part.contains(n) by {
            assert(all.contains(n));
            assert(all.to_set().contains(n));
            assert(part.to_set().contains(n));
        }
    }
}

/// At most one stage runs next.
pub proof fn lemma_runs_next_unique(
    stages: Seq<StageModel>,
    done: Seq<Seq<char>>,
    a: Seq<char>,
    b: Seq<char>,
)
    requires
        runs_next(stages, done, a),
        runs_next(stages, done, b),
    ensures
        a == b,
{
    lemma_lex_antisymmetric(a, b);
}

/// In a non-empty list of names there is one that comes last.
proof fn lemma_last_name(names: Seq<Seq<char>>) -> (last: Seq<char>)
    requires
        names.len() > 0,
    ensures
        names.contains(last),
        forall|n: Seq<char>| #[trigger] names.contains(n) ==> lex_le(n, last),
    decreases names.len(),
{
    let end = names.last();
    if names.len() == 1 {
        lemma_lex_reflexive(end);
        assert(names[0] == end);
        end
    } else {
        let rest = names.drop_last();
        let best = lemma_last_name(rest);
        lemma_lex_total(best, end);
        let last = if lex_le(best, end) {
            end
        } else {
            best
        };
        assert(names.contains(last)) by {
            if last == best {
                let i = choose|i: int| 0 <= i < rest.len() && rest[i] == best;
                assert(names[i] == best);
            } else {
                assert(names[names.len() - 1] == end);
            }
        }
        assert forall|n: Seq<char>| #[trigger] names.contains(n) implies lex_le(n, last) by {
            let i = choose|i: int| 0 <= i < names.len() && names[i] == n;
            if i < rest.len() {
                assert(rest[i] == n);
                assert(rest.contains(n));
                assert(lex_le(n, best));
                lemma_lex_transitive(n, best, last);
            } else {
                lemma_lex_reflexive(end);
            }
        }
        last
    }
}

/// As long as a stage can run, one runs next.
proof fn lemma_some_runs_next(stages: Seq<StageModel>, done: Seq<Seq<char>>, name: Seq<char>)
    requires
        ready(stages, done, name),
    ensures
        exists|n: Seq<char>| runs_next(stages, done, n),
{
    let names = stage_names(stages);
    let can_run = |n: Seq<char>| ready(stages, done, n);
    let can = names.filter(can_run);
    assert forall|n: Seq<char>| ready(stages, done, n) implies #[trigger] can.contains(n) by {
        let i = choose|i: int| 0 <= i < names.len() && names[i] == n;
        names.lemma_filter_contains(can_run, i);
    }
    assert(can.contains(name));
    let best = lemma_last_name(can);
    let k = choose|k: int| 0 <= k < can.len() && can[k] == best;
    names.lemma_filter_pred(can_run, k);
    assert(runs_next(stages, done, best)) by {
        assert forall|other: Seq<char>| #[trigger] ready(stages, done, other) implies lex_le(
            other,
            best,
        ) by {
            assert(can.contains(other));
        }
    }
}

/// The first `k` stages of the schedule are defined, differ from one another,
/// and each could run after its predecessors.
pub proof fn lemma_schedule_upto(stages: Seq<StageModel>, k: nat)
    ensures
        schedule_upto(stages, k).len() <= k,
        schedule_upto(stages, k).no_duplicates(),
        forall|i: int|
            0 <= i < schedule_upto(stages, k).len() ==> ready(
                stages,
                schedule_upto(stages, k).take(i),
                #[trigger] schedule_upto(stages, k)[i],
            ),
        schedule_upto(stages, k).len() < k ==> forall|n: Seq<char>|
            !ready(stages, schedule_upto(stages, k), n),
    decreases k,
{
    let order = schedule_upto(stages, k);
    if k > 0 {
        let done = schedule_upto(stages, (k - 1) as nat);
        lemma_schedule_upto(stages, (k - 1) as nat);
        if exists|name: Seq<char>| runs_next(stages, done, name) {
            let next = choose|name: Seq<char>| runs_next(stages, done, name);
            assert(order == done.push(next));
            assert(done.len() == k - 1) by {
                if done.len() < k - 1 {
                    assert(ready(stages, done, next));
                }
            }
            assert forall|i: int| 0 <= i < order.len() implies ready(
                stages,
                order.take(i),
                #[trigger] order[i],
            ) by {
                assert(order.take(i) =~= done.take(i));
                if i < done.len() {
                    assert(order[i] == done[i]);
                } else {
                    assert(done.take(i) =~= done);
                }
            }
            assert(order.no_duplicates());
        } else {
            assert forall|n: Seq<char>| !ready(stages, order, n) by {
                if ready(stages, order, n) {
                    lemma_some_runs_next(stages, done, n);
                }
            }
        }
    }
}

/// Once no stage can run, the schedule stays as it is.
pub proof fn lemma_schedule_stays(stages: Seq<StageModel>, k: nat, m: nat)
    requires
        k <= m,
        forall|n: Seq<char>| !ready(stages, schedule_upto(stages, k), n),
    ensures
        schedule_upto(stages, m) == schedule_upto(stages, k),
    decreases m,
{
    if k < m {
        lemma_schedule_stays(stages, k, (m - 1) as nat);
    }
}

/// The schedule runs defined stages only, each once, each after everything it
/// depends on, and ends when no stage can run.
pub proof fn lemma_schedule(stages: Seq<StageModel>)
    ensures
        schedule(stages).no_duplicates(),
        schedule(stages).len() <= without_repeats(stage_names(stages)).len() <= stages.len(),
        forall|i: int|
            0 <= i < schedule(stages).len() ==> ready(
                stages,
                schedule(stages).take(i),
                #[trigger] schedule(stages)[i],
            ),
        forall|n: Seq<char>| !ready(stages, schedule(stages), n),
{
    let order = schedule(stages);
    let names = stage_names(stages);
    lemma_schedule_upto(stages, stages.len());
    lemma_without_repeats(names);
    assert forall|i: int| 0 <= i < order.len() implies names.contains(#[trigger] order[i]) by {
        assert(ready(stages, order.take(i), order[i]));
    }
    lemma_distinct_fits(order, names);
    if order.len() == stages.len() {
        assert forall|n: Seq<char>| !ready(stages, order, n) by {
            if ready(stages, order, n) {
                assert(names.contains(n));
                assert(order.contains(n));
            }
        }
    }
}

// ---------------------------------------------------------------------------
// Laws
// ---------------------------------------------------------------------------
/// Whether `t` is an order in which the stages can run: each stage once, and
/// each after everything it depends on.
pub open spec fn is_order(stages: Seq<StageModel>, t: Seq<Seq<char>>) -> bool {
    &&& t.no_duplicates()
    &&& t.len() == stages.len()
    &&& forall|i: int| 0 <= i < t.len() ==> stage_names(stages).contains(#[trigger] t[i])
    &&& forall|i: int, j: int|
        0 <= i < stages.len() && 0 <= j < stages[i].depends_on.len() ==> precedes(
            t,
            #[trigger] stages[i].depends_on[j],
            stages[i].name,
        )
}

/// Whether `a` stands somewhere before `b` in `t`.
pub open spec fn precedes(t: Seq<Seq<char>>, a: Seq<char>, b: Seq<char>) -> bool {
    exists|p: int, q: int| 0 <= p < q < t.len() && #[trigger] t[p] == a && #[trigger] t[q] == b
}

/// Stages that pass have an order, and the schedule is one: every stage runs
/// once, after everything it depends on.
pub proof fn law_schedule_is_an_order(stages: Seq<StageModel>)
    requires
        order_problem(stages) is None,
    ensures
        is_order(stages, schedule(stages)),
{
    let t = schedule(stages);
    let names = stage_names(stages);
    lemma_schedule(stages);
    lemma_without_repeats(names);
    assert forall|i: int| 0 <= i < t.len() implies names.contains(#[trigger] t[i]) by {
        assert(ready(stages, t.take(i), t[i]));
    }
    lemma_distinct_fits(t, names);
    assert forall|i: int, j: int|
        0 <= i < stages.len() && 0 <= j < stages[i].depends_on.len() implies precedes(
        t,
        #[trigger] stages[i].depends_on[j],
        stages[i].name,
    ) by {
        let name = stages[i].name;
        let dep = stages[i].depends_on[j];
        assert(names[i] == name);
        assert(names.contains(name));
        assert(t.contains(name));
        let q = choose|q: int| 0 <= q < t.len() && t[q] == name;
        assert(stages[i].depends_on.contains(dep));
        assert(needs(stages, name, dep));
        assert(ready(stages, t.take(q), t[q]));
        assert(t.take(q).contains(dep));
        let p = choose|p: int| 0 <= p < t.take(q).len() && t.take(q)[p] == dep;
        assert(t[p] == dep && t[q] == name);
    }
}

/// If there is any order in which the stages can run, they pass: a circular
/// dependency is reported only where there is none.
pub proof fn law_an_order_is_found(stages: Seq<StageModel>, t: Seq<Seq<char>>)
    requires
        is_order(stages, t),
    ensures
        order_problem(stages) is None,
{
    let names = stage_names(stages);
    lemma_schedule(stages);
    lemma_without_repeats(names);
    lemma_distinct_fits(t, names);
    assert forall|i: int| 0 <= i < stages.len() implies stage_dependency_problem(
        stages,
        i,
    ) is None by {
        let row = Seq::new(
            stages[i].depends_on.len(),
            |j: int| dependency_problem(stages, i, j),
        );
        assert forall|j: int| 0 <= j < row.len() implies row[j] is None by {
            let dep = stages[i].depends_on[j];
            assert(precedes(t, dep, stages[i].name));
            let (p, q) = choose|p: int, q: int|
                0 <= p < q < t.len() && #[trigger] t[p] == dep && #[trigger] t[q] == stages[i].name;
            assert(names.contains(t[p]));
        }
        lemma_no_some(row);
    }
    let all = Seq::new(stages.len(), |i: int| stage_dependency_problem(stages, i));
    lemma_no_some(all);
    let order = schedule(stages);
    assert forall|i: int| 0 <= i < t.len() implies order.contains(#[trigger] t[i]) by {
        lemma_prefix_is_scheduled(stages, t, i + 1);
    }
    assert(t.len() <= order.len()) by {
        t.unique_seq_to_set();
        order.unique_seq_to_set();
        assert(t.to_set().subset_of(order.to_set()));
        vstd::set_lib::lemma_len_subset(t.to_set(), order.to_set());
    }
}

/// The first `k` stages of any order are in the schedule.
proof fn lemma_prefix_is_scheduled(stages: Seq<StageModel>, t: Seq<Seq<char>>, k: int)
    requires
        is_order(stages, t),
        0 <= k <= t.len(),
    ensures
        forall|i: int| 0 <= i < k ==> schedule(stages).contains(#[trigger] t[i]),
    decreases k,
{
    if k > 0 {
        let order = schedule(stages);
        lemma_prefix_is_scheduled(stages, t, k - 1);
        lemma_schedule(stages);
        let name = t[k - 1];
        if !order.contains(name) {
            assert forall|dep: Seq<char>| #[trigger] needs(
                stages,
                name,
                dep,
            ) implies order.contains(dep) by {
                let i = choose|i: int|
                    0 <= i < stages.len() && (#[trigger] stages[i]).name == name
                        && stages[i].depends_on.contains(dep);
                let j = choose|j: int|
                    0 <= j < stages[i].depends_on.len() && stages[i].depends_on[j] == dep;
                assert(precedes(t, stages[i].depends_on[j], name));
                let (p, q) = choose|p: int, q: int|
                    0 <= p < q < t.len() && #[trigger] t[p] == dep && #[trigger] t[q] == name;
                assert(q == k - 1);
                assert(order.contains(t[p]));
            }
            assert(stage_names(stages).contains(t[k - 1]));
            assert(ready(stages, order, name));
        }
    }
}

/// What the order of stages depends on: their names and what each depends on.
pub open spec fn outline(stages: Seq<StageModel>) -> Seq<(Seq<char>, Seq<Seq<char>>)> {
    stages.map_values(|s: StageModel| (s.name, s.depends_on))
}

/// The schedule, and whether there is an order at all, depend neither on how the
/// stages are listed nor on anything but their names and dependencies.
pub proof fn law_schedule_ignores_listing(a: Seq<StageModel>, b: Seq<StageModel>)
    requires
        outline(a).to_multiset() == outline(b).to_multiset(),
    ensures
        schedule(a) == schedule(b),
        order_problem(a) is None <==> order_problem(b) is None,
{
    broadcast use vstd::seq_lib::group_to_multiset_ensures;

    let (x, y) = (outline(a), outline(b));
    assert(a.len() == b.len()) by {
        assert(x.to_multiset().len() == x.len());
        assert(y.to_multiset().len() == y.len());
    }
    assert forall|s: (Seq<char>, Seq<Seq<char>>)| x.contains(s) <==> y.contains(s) by {
        assert(x.contains(s) <==> x.to_multiset().count(s) > 0);
        assert(y.contains(s) <==> y.to_multiset().count(s) > 0);
    }
    lemma_same_stages_same_schedule(a, b, a.len());
    if order_problem(a) is None {
        law_schedule_is_an_order(a);
        lemma_same_stages_same_order(a, b, schedule(a));
        law_an_order_is_found(b, schedule(a));
    }
    if order_problem(b) is None {
        law_schedule_is_an_order(b);
        lemma_same_stages_same_order(b, a, schedule(b));
        law_an_order_is_found(a, schedule(b));
    }
}

/// A stage of one list has its like in a list with the same outline.
proof fn lemma_like_stage(a: Seq<StageModel>, b: Seq<StageModel>, i: int) -> (k: int)
    requires
        0 <= i < a.len(),
        forall|s: (Seq<char>, Seq<Seq<char>>)| outline(a).contains(s) <==> outline(b).contains(s),
    ensures
        0 <= k < b.len(),
        b[k].name == a[i].name,
        b[k].depends_on == a[i].depends_on,
{
    let (x, y) = (outline(a), outline(b));
    assert(x.contains(x[i]));
    let k = choose|k: int| 0 <= k < y.len() && y[k] == x[i];
    assert(y[k] == (b[k].name, b[k].depends_on));
    k
}

/// An order of the stages of one list is one of the other.
proof fn lemma_same_stages_same_order(
    a: Seq<StageModel>,
    b: Seq<StageModel>,
    t: Seq<Seq<char>>,
)
    requires
        a.len() == b.len(),
        forall|s: (Seq<char>, Seq<Seq<char>>)| outline(a).contains(s) <==> outline(b).contains(s),
        is_order(a, t),
    ensures
        is_order(b, t),
{
    assert forall|i: int| 0 <= i < t.len() implies stage_names(b).contains(#[trigger] t[i]) by {
        assert(stage_names(a).contains(t[i]));
        let k = choose|k: int| 0 <= k < stage_names(a).len() && stage_names(a)[k] == t[i];
        let m = lemma_like_stage(a, b, k);
        assert(stage_names(b)[m] == t[i]);
    }
    assert forall|i: int, j: int|
        0 <= i < b.len() && 0 <= j < b[i].depends_on.len() implies precedes(
        t,
        #[trigger] b[i].depends_on[j],
        b[i].name,
    ) by {
        let m = lemma_like_stage(b, a, i);
        assert(precedes(t, a[m].depends_on[j], a[m].name));
    }
}

/// Lists with the same outline have the same schedule.
proof fn lemma_same_stages_same_schedule(a: Seq<StageModel>, b: Seq<StageModel>, k: nat)
    requires
        forall|s: (Seq<char>, Seq<Seq<char>>)| outline(a).contains(s) <==> outline(b).contains(s),
    ensures
        schedule_upto(a, k) == schedule_upto(b, k),
    decreases k,
{
    if k > 0 {
        lemma_same_stages_same_schedule(a, b, (k - 1) as nat);
        let done = schedule_upto(a, (k - 1) as nat);
        assert forall|n: Seq<char>| ready(a, done, n) == ready(b, done, n) by {
            if ready(a, done, n) {
                lemma_same_stages_same_ready(a, b, done, n);
            }
            if ready(b, done, n) {
                lemma_same_stages_same_ready(b, a, done, n);
            }
        }
        assert forall|n: Seq<char>| runs_next(a, done, n) == runs_next(b, done, n) by {
            assert(ready(a, done, n) == ready(b, done, n));
            assert(forall|o: Seq<char>| ready(a, done, o) == ready(b, done, o));
        }
        if exists|n: Seq<char>| runs_next(a, done, n) {
            let x = choose|n: Seq<char>| runs_next(a, done, n);
            assert(runs_next(b, done, x));
            let y = choose|n: Seq<char>| runs_next(b, done, n);
            assert(runs_next(b, done, y));
            lemma_runs_next_unique(b, done, x, y);
        }
    }
}

/// What can run depends on which stages there are, not on how they are listed.
proof fn lemma_same_stages_same_ready(
    a: Seq<StageModel>,
    b: Seq<StageModel>,
    done: Seq<Seq<char>>,
    name: Seq<char>,
)
    requires
        forall|s: (Seq<char>, Seq<Seq<char>>)| outline(a).contains(s) <==> outline(b).contains(s),
        ready(a, done, name),
    ensures
        ready(b, done, name),
{
    let i = choose|i: int| 0 <= i < stage_names(a).len() && stage_names(a)[i] == name;
    let k = lemma_like_stage(a, b, i);
    assert(stage_names(b)[k] == name);
    assert forall|dep: Seq<char>| #[trigger] needs(b, name, dep) implies done.contains(dep) by {
        let j = choose|j: int|
            0 <= j < b.len() && (#[trigger] b[j]).name == name && b[j].depends_on.contains(dep);
        let m = lemma_like_stage(b, a, j);
        assert(a[m].name == name && a[m].depends_on.contains(dep));
        assert(needs(a, name, dep));
    }
}

/// Each stage of the schedule was the one to run next.
proof fn lemma_each_ran_next(stages: Seq<StageModel>, k: nat)
    ensures
        forall|i: int|
            0 <= i < schedule_upto(stages, k).len() ==> runs_next(
                stages,
                schedule_upto(stages, k).take(i),
                #[trigger] schedule_upto(stages, k)[i],
            ),
    decreases k,
{
    if k > 0 {
        let done = schedule_upto(stages, (k - 1) as nat);
        let order = schedule_upto(stages, k);
        lemma_each_ran_next(stages, (k - 1) as nat);
        assert forall|i: int| 0 <= i < order.len() implies runs_next(
            stages,
            order.take(i),
            #[trigger] order[i],
        ) by {
            if i < done.len() {
                assert(order.take(i) =~= done.take(i));
                assert(order[i] == done[i]);
            } else {
                assert(order.take(i) =~= done);
            }
        }
    }
}

/// Of the stages that could run, the one whose name comes last runs: a stage that
/// runs later although nothing held it back has a name that comes earlier.
pub proof fn law_of_stages_that_could_run(stages: Seq<StageModel>, p: int, q: int)
    requires
        0 <= p < q < schedule(stages).len(),
        forall|i: int, j: int|
            0 <= i < stages.len() && stages[i].name == schedule(stages)[q] && 0 <= j
                < stages[i].depends_on.len() ==> schedule(stages).take(p).contains(
                #[trigger] stages[i].depends_on[j],
            ),
    ensures
        lex_le(schedule(stages)[q], schedule(stages)[p]),
{
    let order = schedule(stages);
    let done = order.take(p);
    let name = order[q];
    lemma_each_ran_next(stages, stages.len());
    lemma_schedule(stages);
    assert(runs_next(stages, done, order[p]));
    assert(ready(stages, order.take(q), name));
    assert(!done.contains(name)) by {
        if done.contains(name) {
            let i = choose|i: int| 0 <= i < done.len() && done[i] == name;
            assert(order[i] == order[q]);
        }
    }
    assert forall|dep: Seq<char>| #[trigger] needs(stages, name, dep) implies done.contains(dep) by {
        let i = choose|i: int|
            0 <= i < stages.len() && (#[trigger] stages[i]).name == name
                && stages[i].depends_on.contains(dep);
        let j = choose|j: int|
            0 <= j < stages[i].depends_on.len() && stages[i].depends_on[j] == dep;
        assert(done.contains(stages[i].depends_on[j]));
    }
    assert(ready(stages, done, name));
}

/// Whether a problem with the order is one that the stages have.
pub open spec fn has_problem(stages: Seq<StageModel>, p: ProblemModel) -> bool {
    match p {
        DependencyProblem::OnItself { stage } => exists|i: int, j: int|
            {
                &&& 0 <= i < stages.len()
                &&& 0 <= j < stages[i].depends_on.len()
                &&& stages[i].name == stage
                &&& #[trigger] stages[i].depends_on[j] == stage
            },
        DependencyProblem::Missing { stage, dependency, available } => {
            &&& exists|i: int, j: int|
                {
                    &&& 0 <= i < stages.len()
                    &&& 0 <= j < stages[i].depends_on.len()
                    &&& stages[i].name == stage
                    &&& #[trigger] stages[i].depends_on[j] == dependency
                }
            &&& forall|i: int| 0 <= i < stages.len() ==> (#[trigger] stages[i]).name != dependency
            &&& forall|i: int|
                0 <= i < stages.len() ==> available.contains((#[trigger] stages[i]).name)
            &&& available.no_duplicates()
            &&& available.len() <= stages.len()
        },
        DependencyProblem::Circular { remaining } => {
            &&& remaining.no_duplicates()
            &&& forall|k: int|
                0 <= k < remaining.len() ==> waits_within(stages, remaining, #[trigger] remaining[k])
            &&& stage_names(stages).no_duplicates() ==> remaining.len() > 0
        },
    }
}

/// Whether a stage of this name depends on one of the `names`.
pub open spec fn waits_within(
    stages: Seq<StageModel>,
    names: Seq<Seq<char>>,
    name: Seq<char>,
) -> bool {
    exists|i: int, j: int|
        {
            &&& 0 <= i < stages.len()
            &&& 0 <= j < stages[i].depends_on.len()
            &&& stages[i].name == name
            &&& names.contains(#[trigger] stages[i].depends_on[j])
        }
}

/// A problem that is reported is there: a stage that depends on itself, a stage
/// that depends on one that does not exist, or stages of which each waits for
/// another of them.
#[verifier::spinoff_prover]
pub proof fn law_a_reported_cycle_is_there(stages: Seq<StageModel>)
    ensures
        order_problem(stages) matches Some(p) ==> has_problem(stages, p),
{
    let names = stage_names(stages);
    lemma_without_repeats(names);
    let rows = Seq::new(stages.len(), |i: int| stage_dependency_problem(stages, i));
    lemma_first_some_found(rows);
    if bad_dependency(stages) is Some {
        let i = choose|i: int|
            0 <= i < rows.len() && #[trigger] rows[i] == first_some(rows) && forall|j: int|
                0 <= j < i ==> rows[j] is None;
        let row = Seq::new(
            stages[i].depends_on.len(),
            |j: int| dependency_problem(stages, i, j),
        );
        lemma_first_some_found(row);
        assert(rows[i] == first_some(row));
        let j = choose|j: int|
            0 <= j < row.len() && #[trigger] row[j] == first_some(row) && forall|k: int|
                0 <= k < j ==> row[k] is None;
        assert(row[j] == dependency_problem(stages, i, j));
        let dep = stages[i].depends_on[j];
        assert forall|k: int| 0 <= k < stages.len() implies without_repeats(names).contains(
            (#[trigger] stages[k]).name,
        ) by {
            assert(names[k] == stages[k].name);
        }
        if dep != stages[i].name {
            assert forall|k: int| 0 <= k < stages.len() implies (#[trigger] stages[k]).name
                != dep by {
                assert(names[k] == stages[k].name);
            }
        }
    } else if order_problem(stages) is Some {
        let order = schedule(stages);
        let missing = |n: Seq<char>| !order.contains(n);
        let all = without_repeats(names);
        let remaining = never_ready(stages);
        lemma_filter_keeps(all, missing);
        lemma_schedule(stages);
        assert forall|k: int| 0 <= k < remaining.len() implies waits_within(
            stages,
            remaining,
            #[trigger] remaining[k],
        ) by {
            let name = remaining[k];
            assert(remaining.contains(name));
            assert(all.contains(name) && !order.contains(name));
            assert(!ready(stages, order, name));
            let dep = choose|dep: Seq<char>| #[trigger]
                needs(stages, name, dep) && !order.contains(dep);
            let i = choose|i: int|
                0 <= i < stages.len() && (#[trigger] stages[i]).name == name
                    && stages[i].depends_on.contains(dep);
            let j = choose|j: int|
                0 <= j < stages[i].depends_on.len() && stages[i].depends_on[j] == dep;
            let row = Seq::new(
                stages[i].depends_on.len(),
                |j: int| dependency_problem(stages, i, j),
            );
            lemma_first_some_found(row);
            assert(rows[i] is None);
            assert(rows[i] == first_some(row));
            assert(row[j] is None);
            assert(row[j] == dependency_problem(stages, i, j));
            assert(names.contains(dep));
            assert(remaining.contains(stages[i].depends_on[j]));
        }
        if names.no_duplicates() && remaining.len() == 0 {
            assert forall|n: Seq<char>| names.contains(n) implies order.contains(n) by {
                assert(all.contains(n));
                if missing(n) {
                    assert(remaining.contains(n));
                }
            }
            names.unique_seq_to_set();
            order.unique_seq_to_set();
            assert(names.to_set().subset_of(order.to_set()));
            vstd::set_lib::lemma_len_subset(names.to_set(), order.to_set());
        }
    }
}

/// What is known of a problem is all of it.
pub proof fn law_model_of_a_dependency_problem(p: DependencyProblem<String, Vec<String>>)
    ensures
        match p {
            DependencyProblem::OnItself { stage } => p@ == (ProblemModel::OnItself {
                stage: stage@,
            }),
            DependencyProblem::Missing { stage, dependency, available } => p@
                == (ProblemModel::Missing {
                stage: stage@,
                dependency: dependency@,
                available: available@.map_values(|s: String| s@),
            }),
            DependencyProblem::Circular { remaining } => p@ == (ProblemModel::Circular {
                remaining: remaining@.map_values(|s: String| s@),
            }),
        },
{
}

} // verus!
