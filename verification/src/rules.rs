//! Rules and bindings.
//!
//! Both the rules of a session and the bindings of a match are kept as
//! lists of named entries.  A name is looked up from the front of the list;
//! a name that is entered again keeps its place and takes the new value.

use vstd::prelude::*;
use crate::expr::{Formula, LogExpr};

verus! {

/// The first place at or after `from` whose name is `name`, or the length
/// of the list where there is none.
pub open spec fn find<V>(entries: Seq<(Seq<char>, V)>, name: Seq<char>, from: nat) -> nat
    decreases entries.len() - from,
{
    if from < entries.len() && entries[from as int].0 != name {
        find(entries, name, from + 1)
    } else {
        from
    }
}

/// What `name` stands for in `entries`.
pub open spec fn lookup<V>(entries: Seq<(Seq<char>, V)>, name: Seq<char>) -> Option<V> {
    let i = find(entries, name, 0);
    if i < entries.len() {
        Some(entries[i as int].1)
    } else {
        None
    }
}

/// `entries` with `name` standing for `value`: in its old place if it had
/// one, else at the end.
pub open spec fn bind<V>(entries: Seq<(Seq<char>, V)>, name: Seq<char>, value: V) -> Seq<
    (Seq<char>, V),
> {
    let i = find(entries, name, 0);
    if i < entries.len() {
        entries.update(i as int, (name, value))
    } else {
        entries.push((name, value))
    }
}

/// No name occurs twice.
pub open spec fn distinct_names<V>(entries: Seq<(Seq<char>, V)>) -> bool {
    forall|i: int, j: int| 0 <= i < j < entries.len() ==> entries[i].0 != entries[j].0
}

/// `find` stops inside the list at the first entry of that name, and past
/// the end only if there is no such entry.
pub proof fn lemma_find<V>(entries: Seq<(Seq<char>, V)>, name: Seq<char>, from: nat)
    requires
        from <= entries.len(),
    ensures
        from <= find(entries, name, from) <= entries.len(),
        forall|i: int| from <= i < find(entries, name, from) ==> (#[trigger] entries[i]).0 != name,
        find(entries, name, from) < entries.len() ==> entries[find(entries, name, from) as int].0
            == name,
    decreases entries.len() - from,
{
    if from < entries.len() && entries[from as int].0 != name {
        lemma_find(entries, name, from + 1);
    }
}

/// The first entry of a name is found wherever the search starts before it.
pub proof fn lemma_find_at<V>(entries: Seq<(Seq<char>, V)>, name: Seq<char>, from: nat, at: nat)
    requires
        from <= at <= entries.len(),
        forall|i: int| from <= i < at ==> (#[trigger] entries[i]).0 != name,
        at < entries.len() ==> entries[at as int].0 == name,
    ensures
        find(entries, name, from) == at,
    decreases at - from,
{
    if from < at {
        lemma_find_at(entries, name, from + 1, at);
    }
}

/// What binding does to a lookup: the bound name now gives the new value,
/// every other name gives what it gave before, and distinct names stay
/// distinct.
pub proof fn lemma_lookup_bind<V>(
    entries: Seq<(Seq<char>, V)>,
    name: Seq<char>,
    value: V,
    other: Seq<char>,
)
    ensures
        lookup(bind(entries, name, value), name) == Some(value),
        other != name ==> lookup(bind(entries, name, value), other) == lookup(entries, other),
        distinct_names(entries) ==> distinct_names(bind(entries, name, value)),
{
    let after = bind(entries, name, value);
    let i = find(entries, name, 0);
    lemma_find(entries, name, 0);
    lemma_find_at(after, name, 0, i);
    if other != name {
        let j = find(entries, other, 0);
        lemma_find(entries, other, 0);
        if j < entries.len() {
            lemma_find_at(after, other, 0, j);
        } else {
            lemma_find_at(after, other, 0, after.len());
        }
    }
}

/// A rewrite rule: formulas that match `lhs` may be rewritten to `rhs`.
#[derive(Debug)]
pub struct Rule {
    pub lhs: Box<LogExpr>,
    pub rhs: Box<LogExpr>,
}

/// A [`Rule`] as plain values.
pub struct RuleView {
    pub lhs: Formula,
    pub rhs: Formula,
}

impl View for Rule {
    type V = RuleView;

    open spec fn view(&self) -> RuleView {
        RuleView { lhs: self.lhs@, rhs: self.rhs@ }
    }
}

impl Clone for Rule {
    fn clone(&self) -> (res: Self)
        ensures
            res@ == self@,
    {
        Rule { lhs: Box::new((*self.lhs).clone()), rhs: Box::new((*self.rhs).clone()) }
    }
}

/// The rules of a session, by name.
#[derive(Debug)]
pub struct RuleSet {
    rules: Vec<(Box<String>, Box<Rule>)>,
}

impl RuleSet {
    /// The rules in the order in which their names were first defined.
    pub closed spec fn listing(&self) -> Seq<(Seq<char>, RuleView)> {
        Seq::new(self.rules.len() as nat, |i: int| (self.rules[i].0@, self.rules[i].1@))
    }

    /// No name is listed twice.
    pub open spec fn wf(&self) -> bool {
        distinct_names(self.listing())
    }
}

impl View for RuleSet {
    type V = Map<Seq<char>, RuleView>;

    open spec fn view(&self) -> Map<Seq<char>, RuleView> {
        Map::new(
            |name: Seq<char>| lookup(self.listing(), name) is Some,
            |name: Seq<char>| lookup(self.listing(), name)->0,
        )
    }
}

impl RuleSet {
    /// A set without rules.
    pub fn new() -> (rule_set: RuleSet)
        ensures
            rule_set.wf(),
            rule_set.listing() == Seq::<(Seq<char>, RuleView)>::empty(),
            rule_set@ == Map::<Seq<char>, RuleView>::empty(),
    {
        let rule_set = RuleSet { rules: Vec::new() };
        assert(rule_set.listing() =~= Seq::<(Seq<char>, RuleView)>::empty());
        assert(rule_set@ =~= Map::<Seq<char>, RuleView>::empty());
        rule_set
    }

    /// The number of rules.
    pub fn len(&self) -> (n: usize)
        ensures
            n == self.listing().len(),
    {
        self.rules.len()
    }

    /// The name of the `i`-th rule.
    pub fn name(&self, i: usize) -> (name: &String)
        requires
            i < self.listing().len(),
        ensures
            name@ == self.listing()[i as int].0,
    {
        &*self.rules[i].0
    }

    /// The `i`-th rule.
    pub fn rule(&self, i: usize) -> (rule: &Rule)
        requires
            i < self.listing().len(),
        ensures
            rule@ == self.listing()[i as int].1,
    {
        &*self.rules[i].1
    }

    /// The place of `name` in the list.
    fn position(&self, name: &str) -> (i: usize)
        ensures
            i == find(self.listing(), name@, 0),
            i <= self.rules.len(),
    {
        let mut i: usize = 0;
        while i < self.rules.len() && !self.rules[i].0.as_str().eq(name)
            invariant
                i <= self.rules.len(),
                find(self.listing(), name@, i as nat) == find(self.listing(), name@, 0),
            decreases self.rules.len() - i,
        {
            i += 1;
        }
        i
    }

    /// Defines `name` as the rule from `lhs` to `rhs`.  A rule that had the
    /// name before is replaced.
    pub fn add_rule(&mut self, name: Box<String>, lhs: Box<LogExpr>, rhs: Box<LogExpr>)
        ensures
            final(self).listing() == bind(
                old(self).listing(),
                name@,
                RuleView { lhs: lhs@, rhs: rhs@ },
            ),
            final(self)@ == old(self)@.insert(name@, RuleView { lhs: lhs@, rhs: rhs@ }),
            old(self).wf() ==> final(self).wf(),
    {
        let i = self.position(name.as_str());
        let rule = Box::new(Rule { lhs, rhs });
        let ghost before = self.listing();
        let ghost after = bind(before, name@, rule@);
        if i < self.rules.len() {
            self.rules[i] = (name, rule);
        } else {
            self.rules.push((name, rule));
        }
        proof {
            assert(self.listing() =~= after);
            assert forall|other: Seq<char>|
                lookup(after, other) == if other == name@ {
                    Some(rule@)
                } else {
                    lookup(before, other)
                } by {
                lemma_lookup_bind(before, name@, rule@, other);
            }
            lemma_lookup_bind(before, name@, rule@, name@);
            assert(self@ =~= old(self)@.insert(name@, rule@));
        }
    }

    /// The rule called `name`, if there is one.
    pub fn get_rule(&self, name: Box<String>) -> (rule: Option<&Box<Rule>>)
        ensures
            match rule {
                Some(r) => self@.contains_key(name@) && r@ == self@[name@],
                None => !self@.contains_key(name@),
            },
    {
        let i = self.position(name.as_str());
        if i < self.rules.len() {
            Some(&self.rules[i].1)
        } else {
            None
        }
    }

    /// Removes the rule called `name` and returns it, if there is one.
    pub fn delete_rule(&mut self, name: Box<String>) -> (rule: Option<Box<Rule>>)
        requires
            old(self).wf(),
        ensures
            final(self).wf(),
            final(self)@ == old(self)@.remove(name@),
            match rule {
                Some(r) => old(self)@.contains_key(name@) && r@ == old(self)@[name@],
                None => !old(self)@.contains_key(name@),
            },
    {
        let i = self.position(name.as_str());
        if i < self.rules.len() {
            let ghost before = self.listing();
            let (_, rule) = self.rules.remove(i);
            proof {
                let after = self.listing();
                lemma_find(before, name@, 0);
                assert(after =~= before.remove(i as int));
                assert forall|other: Seq<char>|
                    lookup(after, other) == if other == name@ {
                        None
                    } else {
                        lookup(before, other)
                    } by {
                    lemma_lookup_remove(before, i as int, other);
                }
                assert(self@ =~= old(self)@.remove(name@));
            }
            Some(rule)
        } else {
            proof {
                assert(self@ =~= old(self)@.remove(name@));
            }
            None
        }
    }
}

/// What removing the entry at `at` does to a lookup, in a list of distinct
/// names: the removed name is gone, every other name gives what it gave
/// before, and the names stay distinct.
pub proof fn lemma_lookup_remove<V>(entries: Seq<(Seq<char>, V)>, at: int, other: Seq<char>)
    requires
        distinct_names(entries),
        0 <= at < entries.len(),
    ensures
        distinct_names(entries.remove(at)),
        other == entries[at].0 ==> lookup(entries.remove(at), other) is None,
        other != entries[at].0 ==> lookup(entries.remove(at), other) == lookup(entries, other),
{
    let after = entries.remove(at);
    let j = find(entries, other, 0);
    lemma_find(entries, other, 0);
    if other == entries[at].0 {
        assert forall|i: int| 0 <= i < after.len() implies (#[trigger] after[i]).0 != other by {
            if i < at {
                assert(after[i] == entries[i]);
            } else {
                assert(after[i] == entries[i + 1]);
            }
        }
        lemma_find_at(after, other, 0, after.len());
    } else if j < at {
        lemma_find_at(after, other, 0, j);
    } else {
        let k = (j - 1) as nat;
        assert forall|i: int| 0 <= i < k implies (#[trigger] after[i]).0 != other by {
            if i < at {
                assert(after[i] == entries[i]);
            } else {
                assert(after[i] == entries[i + 1]);
            }
        }
        lemma_find_at(after, other, 0, k);
    }
}

/// The bindings of a match: variables and the formulas they stand for, in
/// the order in which the variables were first bound.
#[derive(Debug)]
pub struct Bindings {
    entries: Vec<(Box<String>, Box<LogExpr>)>,
}

impl View for Bindings {
    type V = Seq<(Seq<char>, Formula)>;

    closed spec fn view(&self) -> Seq<(Seq<char>, Formula)> {
        Seq::new(self.entries.len() as nat, |i: int| (self.entries[i].0@, self.entries[i].1@))
    }
}

impl Clone for Bindings {
    fn clone(&self) -> (res: Self)
        ensures
            res@ == self@,
    {
        let mut entries: Vec<(Box<String>, Box<LogExpr>)> = Vec::new();
        let mut i: usize = 0;
        while i < self.entries.len()
            invariant
                i <= self.entries.len(),
                entries.len() == i,
                forall|j: int|
                    0 <= j < i ==> entries[j].0@ == self.entries[j].0@ && entries[j].1@
                        == self.entries[j].1@,
            decreases self.entries.len() - i,
        {
            let name = self.entries[i].0.clone();
            let value = Box::new((*self.entries[i].1).clone());
            entries.push((name, value));
            i += 1;
        }
        let res = Bindings { entries };
        assert(res@ =~= self@);
        res
    }
}

impl Bindings {
    /// No bindings.
    pub fn new() -> (bindings: Bindings)
        ensures
            bindings@ == Seq::<(Seq<char>, Formula)>::empty(),
    {
        let bindings = Bindings { entries: Vec::new() };
        assert(bindings@ =~= Seq::<(Seq<char>, Formula)>::empty());
        bindings
    }

    /// The number of bound variables.
    pub fn len(&self) -> (n: usize)
        ensures
            n == self@.len(),
    {
        self.entries.len()
    }

    /// Whether no variable is bound.
    pub fn is_empty(&self) -> (r: bool)
        ensures
            r == (self@.len() == 0),
    {
        self.entries.len() == 0
    }

    /// The name of the `i`-th binding.
    pub fn name(&self, i: usize) -> (name: &String)
        requires
            i < self@.len(),
        ensures
            name@ == self@[i as int].0,
    {
        &*self.entries[i].0
    }

    /// The formula of the `i`-th binding.
    pub fn value(&self, i: usize) -> (value: &LogExpr)
        requires
            i < self@.len(),
        ensures
            value@ == self@[i as int].1,
    {
        &*self.entries[i].1
    }

    /// The place of `name` in the list.
    fn position(&self, name: &str) -> (i: usize)
        ensures
            i == find(self@, name@, 0),
            i <= self.entries.len(),
    {
        let mut i: usize = 0;
        while i < self.entries.len() && !self.entries[i].0.as_str().eq(name)
            invariant
                i <= self.entries.len(),
                find(self@, name@, i as nat) == find(self@, name@, 0),
            decreases self.entries.len() - i,
        {
            i += 1;
        }
        i
    }

    /// What `name` stands for, if it is bound.
    pub fn get(&self, name: &str) -> (value: Option<&Box<LogExpr>>)
        ensures
            match value {
                Some(v) => lookup(self@, name@) == Some(v@),
                None => lookup(self@, name@) is None,
            },
    {
        let i = self.position(name);
        if i < self.entries.len() {
            Some(&self.entries[i].1)
        } else {
            None
        }
    }

    /// Binds `name` to `value`.  A variable that was bound before keeps its
    /// place; what it stood for is returned.
    pub fn insert(&mut self, name: Box<String>, value: Box<LogExpr>) -> (previous: Option<
        Box<LogExpr>,
    >)
        ensures
            final(self)@ == bind(old(self)@, name@, value@),
            match previous {
                Some(v) => lookup(old(self)@, name@) == Some(v@),
                None => lookup(old(self)@, name@) is None,
            },
    {
        let i = self.position(name.as_str());
        if i < self.entries.len() {
            let mut entry = (name, value);
            std::mem::swap(&mut self.entries[i], &mut entry);
            assert(self@ =~= bind(old(self)@, name@, value@));
            Some(entry.1)
        } else {
            self.entries.push((name, value));
            assert(self@ =~= bind(old(self)@, name@, value@));
            None
        }
    }
}

} // verus!
