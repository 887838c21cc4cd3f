//! Environment variables: an ordered list of names with their values.

use crate::text::same_text;
use vstd::prelude::*;

verus! {

/// A list of variables, each a name and a value.
pub type Vars = Seq<(Seq<char>, Seq<char>)>;

/// The position of the variable `name`, or the number of variables.
pub open spec fn position(vars: Vars, name: Seq<char>) -> int
    decreases vars.len(),
{
    if vars.len() == 0 || vars[0].0 == name {
        0
    } else {
        1 + position(vars.drop_first(), name)
    }
}

/// The value of the variable `name`, if it is set.
pub open spec fn value_of(vars: Vars, name: Seq<char>) -> Option<Seq<char>> {
    if position(vars, name) < vars.len() {
        Some(vars[position(vars, name)].1)
    } else {
        None
    }
}

/// `vars` with `name` set to `value`: in its place if it is set already, at the
/// end otherwise.
pub open spec fn with_var(vars: Vars, name: Seq<char>, value: Seq<char>) -> Vars {
    if position(vars, name) < vars.len() {
        vars.update(position(vars, name), (name, value))
    } else {
        vars.push((name, value))
    }
}

/// `vars` with every variable of `more` set, in order.
pub open spec fn with_vars(vars: Vars, more: Vars) -> Vars
    decreases more.len(),
{
    if more.len() == 0 {
        vars
    } else {
        let (name, value) = more.last();
        with_var(with_vars(vars, more.drop_last()), name, value)
    }
}

/// Whether no name occurs twice.
pub open spec fn distinct(vars: Vars) -> bool {
    forall|i: int, j: int|
        0 <= i < j < vars.len() ==> #[trigger] vars[i].0 != #[trigger] vars[j].0
}

/// `position` is the first place that holds the name.
pub proof fn lemma_position(vars: Vars, name: Seq<char>)
    ensures
        0 <= position(vars, name) <= vars.len(),
        position(vars, name) < vars.len() ==> vars[position(vars, name)].0 == name,
        forall|i: int| 0 <= i < position(vars, name) ==> #[trigger] vars[i].0 != name,
    decreases vars.len(),
{
    if vars.len() > 0 && vars[0].0 != name {
        let rest = vars.drop_first();
        lemma_position(rest, name);
        assert forall|i: int| 0 <= i < position(vars, name) implies #[trigger] vars[i].0 != name by {
            if i > 0 {
                assert(rest[i - 1] == vars[i]);
            }
        }
    }
}

/// A place that holds the name, with no earlier one, is `position`.
pub proof fn lemma_position_is(vars: Vars, name: Seq<char>, at: int)
    requires
        0 <= at <= vars.len(),
        at < vars.len() ==> vars[at].0 == name,
        forall|i: int| 0 <= i < at ==> #[trigger] vars[i].0 != name,
    ensures
        position(vars, name) == at,
{
    lemma_position(vars, name);
    let p = position(vars, name);
    if p < at {
        assert(vars[p].0 != name);
    }
    if at < p {
        assert(vars[at].0 != name);
    }
}

/// Setting a variable keeps the names distinct, gives it its value and leaves
/// every other variable alone.
pub proof fn lemma_with_var(vars: Vars, name: Seq<char>, value: Seq<char>, other: Seq<char>)
    requires
        distinct(vars),
    ensures
        distinct(with_var(vars, name, value)),
        value_of(with_var(vars, name, value), name) == Some(value),
        other != name ==> value_of(with_var(vars, name, value), other) == value_of(vars, other),
{
    let new = with_var(vars, name, value);
    lemma_position(vars, name);
    lemma_position(vars, other);
    let at = position(vars, name);
    assert forall|i: int, j: int| 0 <= i < j < new.len() implies #[trigger] new[i].0
        != #[trigger] new[j].0 by {
        if j < vars.len() {
            assert(new[i].0 == vars[i].0);
            assert(new[j].0 == vars[j].0);
        } else {
            assert(vars[i].0 != name);
        }
    }
    assert forall|i: int| 0 <= i < at implies #[trigger] new[i].0 != name by {
        assert(vars[i].0 != name);
    }
    lemma_position_is(new, name, at);
    if other != name {
        let p = position(vars, other);
        if p < vars.len() {
            assert(new[p] == vars[p]);
            assert forall|i: int| 0 <= i < p implies #[trigger] new[i].0 != other by {
                assert(vars[i].0 != other);
            }
            lemma_position_is(new, other, p);
        } else {
            assert forall|i: int| 0 <= i < new.len() implies #[trigger] new[i].0 != other by {
                if i < vars.len() {
                    assert(vars[i].0 != other);
                }
            }
            lemma_position_is(new, other, new.len() as int);
        }
    }
}

/// Setting several variables keeps the names distinct; one takes the last value
/// that `more` sets, at place `at`, and keeps its own if `more` does not set it,
/// which a negative `at` stands for.
pub proof fn lemma_last_one_counts(vars: Vars, more: Vars, name: Seq<char>, at: int)
    requires
        distinct(vars),
        -1 <= at < more.len(),
        at >= 0 ==> more[at].0 == name,
        forall|k: int| at < k < more.len() ==> (#[trigger] more[k]).0 != name,
    ensures
        distinct(with_vars(vars, more)),
        value_of(with_vars(vars, more), name) == if at >= 0 {
            Some(more[at].1)
        } else {
            value_of(vars, name)
        },
    decreases more.len(),
{
    if more.len() > 0 {
        let before = more.drop_last();
        let (last, value) = more.last();
        if at == more.len() - 1 {
            lemma_names_stay_distinct(vars, before);
        } else {
            lemma_last_one_counts(vars, before, name, at);
        }
        lemma_with_var(with_vars(vars, before), last, value, name);
    }
}

/// Setting several variables keeps the names distinct.
proof fn lemma_names_stay_distinct(vars: Vars, more: Vars)
    requires
        distinct(vars),
    ensures
        distinct(with_vars(vars, more)),
    decreases more.len(),
{
    if more.len() > 0 {
        let (last, value) = more.last();
        lemma_names_stay_distinct(vars, more.drop_last());
        lemma_with_var(with_vars(vars, more.drop_last()), last, value, last);
    }
}

/// Setting several variables keeps the names distinct; each takes the value it
/// has in `more` if it is set there, and keeps its own otherwise.
pub proof fn lemma_with_vars(vars: Vars, more: Vars, name: Seq<char>)
    requires
        distinct(vars),
        distinct(more),
    ensures
        distinct(with_vars(vars, more)),
        value_of(with_vars(vars, more), name) == match value_of(more, name) {
            Some(value) => Some(value),
            None => value_of(vars, name),
        },
{
    lemma_position(more, name);
    let p = position(more, name);
    let at = if p < more.len() {
        p
    } else {
        -1
    };
    assert forall|k: int| at < k < more.len() implies (#[trigger] more[k]).0 != name by {
        if at >= 0 {
            assert(more[at].0 != more[k].0);
        }
    }
    lemma_last_one_counts(vars, more, name, at);
}

/// Environment variables. No name occurs twice, and variables stay in the order
/// in which they were first set.
#[derive(Debug)]
pub struct EnvMap {
    entries: Vec<(String, String)>,
}

/// The contents of a list of entries.
pub open spec fn vars_of(entries: Seq<(String, String)>) -> Vars {
    entries.map_values(|e: (String, String)| (e.0@, e.1@))
}

impl View for EnvMap {
    type V = Vars;

    closed spec fn view(&self) -> Vars {
        vars_of(self.entries@)
    }
}

impl EnvMap {
    #[verifier::type_invariant]
    spec fn names_are_distinct(self) -> bool {
        distinct(vars_of(self.entries@))
    }

    /// No variable at all.
    pub fn new() -> (r: EnvMap)
        ensures
            r@ == Vars::empty(),
    {
        let entries: Vec<(String, String)> = Vec::new();
        assert(vars_of(entries@) =~= Vars::empty());
        EnvMap { entries }
    }

    /// The number of variables. No two of them have the same name.
    pub fn len(&self) -> (n: usize)
        ensures
            n == self@.len(),
            distinct(self@),
    {
        proof {
            use_type_invariant(self);
        }
        self.entries.len()
    }

    /// The name of variable number `i`.
    pub fn name(&self, i: usize) -> (r: &String)
        requires
            i < self@.len(),
        ensures
            r@ == self@[i as int].0,
    {
        &self.entries[i].0
    }

    /// The value of variable number `i`.
    pub fn value(&self, i: usize) -> (r: &String)
        requires
            i < self@.len(),
        ensures
            r@ == self@[i as int].1,
    {
        &self.entries[i].1
    }

    /// The place of the variable `name`, or the number of variables.
    fn find(&self, name: &str) -> (r: usize)
        ensures
            r == position(self@, name@),
            r <= self@.len(),
    {
        let mut i: usize = 0;
        while i < self.entries.len()
            invariant
                i <= self.entries@.len(),
                forall|k: int| 0 <= k < i ==> #[trigger] vars_of(self.entries@)[k].0 != name@,
            decreases self.entries@.len() - i,
        {
            if same_text(self.entries[i].0.as_str(), name) {
                proof {
                    lemma_position_is(vars_of(self.entries@), name@, i as int);
                }
                return i;
            }
            i += 1;
        }
        proof {
            lemma_position_is(vars_of(self.entries@), name@, i as int);
        }
        i
    }

    /// The value of the variable `name`, if it is set.
    pub fn get(&self, name: &str) -> (r: Option<&String>)
        ensures
            r is Some <==> value_of(self@, name@) is Some,
            r matches Some(value) ==> value@ == value_of(self@, name@)->0,
    {
        let at = self.find(name);
        if at < self.entries.len() {
            Some(&self.entries[at].1)
        } else {
            None
        }
    }

    /// Sets `name` to `value`.
    pub fn insert(&mut self, name: String, value: String)
        ensures
            final(self)@ == with_var(old(self)@, name@, value@),
    {
        let at = self.find(name.as_str());
        proof {
            use_type_invariant(&*self);
            lemma_with_var(self@, name@, value@, name@);
        }
        let ghost before = self@;
        let mut entries: Vec<(String, String)> = Vec::new();
        assert(distinct(vars_of(entries@)));
        std::mem::swap(&mut entries, &mut self.entries);
        if at < entries.len() {
            let ghost old_entries = entries@;
            entries.set(at, (name, value));
            assert(vars_of(entries@) =~= vars_of(old_entries).update(at as int, (name@, value@)));
        } else {
            let ghost old_entries = entries@;
            entries.push((name, value));
            assert(vars_of(entries@) =~= vars_of(old_entries).push((name@, value@)));
        }
        self.entries = entries;
    }

    /// Sets every variable of `more`, in order.
    pub fn extend(&mut self, more: &EnvMap)
        ensures
            final(self)@ == with_vars(old(self)@, more@),
    {
        let n: usize = more.len();
        let mut i: usize = 0;
        assert(more@.take(0) =~= Vars::empty());
        while i < n
            invariant
                i <= n,
                n == more@.len(),
                self@ == with_vars(old(self)@, more@.take(i as int)),
            decreases n - i,
        {
            self.insert(more.name(i).clone(), more.value(i).clone());
            i += 1;
            assert(more@.take(i as int).drop_last() =~= more@.take(i - 1));
        }
        assert(more@.take(n as int) =~= more@);
    }
}

impl Clone for EnvMap {
    fn clone(&self) -> (r: EnvMap)
        ensures
            r@ == self@,
    {
        proof {
            use_type_invariant(self);
        }
        let mut entries: Vec<(String, String)> = Vec::new();
        let mut i: usize = 0;
        while i < self.entries.len()
            invariant
                i <= self.entries@.len(),
                vars_of(entries@) == vars_of(self.entries@).take(i as int),
            decreases self.entries@.len() - i,
        {
            let ghost before = vars_of(entries@);
            entries.push((self.entries[i].0.clone(), self.entries[i].1.clone()));
            assert(vars_of(entries@) =~= before.push(vars_of(self.entries@)[i as int]));
            i += 1;
            assert(vars_of(entries@) =~= vars_of(self.entries@).take(i as int));
        }
        assert(vars_of(entries@) =~= vars_of(self.entries@));
        EnvMap { entries }
    }
}

/// A variable has the value that was set for it: the value at the one place that
/// bears its name, and none if no place does.
pub proof fn law_value_of_a_variable(vars: Vars, name: Seq<char>, i: int)
    requires
        distinct(vars),
    ensures
        0 <= i < vars.len() && vars[i].0 == name ==> value_of(vars, name) == Some(vars[i].1),
        value_of(vars, name) is Some <==> exists|k: int|
            0 <= k < vars.len() && (#[trigger] vars[k]).0 == name,
{
    lemma_position(vars, name);
    let p = position(vars, name);
    if 0 <= i < vars.len() && vars[i].0 == name {
        if p < i {
            assert(vars[p].0 != vars[i].0);
        }
    }
    if p < vars.len() {
        assert(vars[p].0 == name);
    }
}

/// Setting a variable gives it its value and changes no other; a new one comes
/// last, and the others keep their places.
pub proof fn law_setting_a_variable(vars: Vars, name: Seq<char>, value: Seq<char>, i: int)
    requires
        distinct(vars),
    ensures
        value_of(with_var(vars, name, value), name) == Some(value),
        0 <= i < vars.len() && vars[i].0 != name ==> with_var(vars, name, value)[i] == vars[i],
        0 <= i < vars.len() && vars[i].0 == name ==> with_var(vars, name, value)[i] == (
            name,
            value,
        ) && with_var(vars, name, value).len() == vars.len(),
        (forall|k: int| 0 <= k < vars.len() ==> (#[trigger] vars[k]).0 != name) ==> with_var(
            vars,
            name,
            value,
        ) == vars.push((name, value)),
{
    lemma_with_var(vars, name, value, name);
    lemma_position(vars, name);
    let p = position(vars, name);
    if 0 <= i < vars.len() && vars[i].0 == name && p < i {
        assert(vars[p].0 != vars[i].0);
    }
}

} // verus!
