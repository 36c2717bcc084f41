//! Maps from names to values, kept as association lists in which the last
//! entry of a name wins: the environment of variable values, and the
//! bindings of parameters to argument expressions.
use vstd::prelude::*;
use crate::ast::{Expr, SpecExpr, SpecVal, Val, opt_val_model};

verus! {

/// The index of the last entry whose name is `k`, or -1 where there is none.
pub open spec fn last_index<V>(s: Seq<(String, V)>, k: Seq<char>) -> int
    decreases s.len(),
{
    if s.len() == 0 {
        -1
    } else if s[s.len() - 1].0@ == k {
        s.len() - 1
    } else {
        last_index(s.drop_last(), k)
    }
}

/// `last_index` is -1 or the index of an entry named `k` after which no entry
/// is named `k`.
pub proof fn lemma_last_index<V>(s: Seq<(String, V)>, k: Seq<char>)
    ensures
        -1 <= last_index(s, k) < s.len(),
        last_index(s, k) >= 0 ==> s[last_index(s, k)].0@ == k,
        forall|j: int| last_index(s, k) < j < s.len() ==> #[trigger] s[j].0@ != k,
    decreases s.len(),
{
    if s.len() > 0 && s[s.len() - 1].0@ != k {
        let t = s.drop_last();
        lemma_last_index(t, k);
        assert forall|j: int| last_index(s, k) < j < s.len() implies #[trigger] s[j].0@ != k by {
            if j < s.len() - 1 {
                assert(t[j] == s[j]);
            }
        }
    }
}

/// Appending an entry named `k` makes it the last entry of `k`, and leaves the
/// last entries of the other names where they were.
pub proof fn lemma_last_index_push<V>(s: Seq<(String, V)>, e: (String, V), k: Seq<char>)
    ensures
        last_index(s.push(e), k) == if e.0@ == k {
            s.len() as int
        } else {
            last_index(s, k)
        },
{
    assert(s.push(e).drop_last() =~= s);
}

/// Replacing an entry by one of the same name moves no last entry.
pub proof fn lemma_last_index_update<V>(s: Seq<(String, V)>, i: int, e: (String, V), k: Seq<char>)
    requires
        0 <= i < s.len(),
        e.0@ == s[i].0@,
    ensures
        last_index(s.update(i, e), k) == last_index(s, k),
    decreases s.len(),
{
    let u = s.update(i, e);
    if i < s.len() - 1 {
        assert(u.drop_last() =~= s.drop_last().update(i, e));
        assert(u[u.len() - 1] == s[s.len() - 1]);
        lemma_last_index_update(s.drop_last(), i, e, k);
    } else {
        assert(u.drop_last() =~= s.drop_last());
        assert(u[u.len() - 1] == e);
    }
}

/// The index of the last entry named `k`, scanning from the end.
pub fn find_last<V>(entries: &Vec<(String, V)>, k: &String) -> (r: Option<usize>)
    ensures
        match r {
            Some(i) => i < entries@.len() && i as int == last_index(entries@, k@),
            None => last_index(entries@, k@) == -1,
        },
{
    proof {
        lemma_last_index(entries@, k@);
    }
    let mut i = entries.len();
    while i > 0
        invariant
            i <= entries@.len(),
            -1 <= last_index(entries@, k@) < entries@.len(),
            last_index(entries@, k@) >= 0 ==> entries@[last_index(entries@, k@)].0@ == k@,
            forall|j: int| last_index(entries@, k@) < j < entries@.len() ==> #[trigger] entries@[j].0@ != k@,
            forall|j: int| i <= j < entries@.len() ==> #[trigger] entries@[j].0@ != k@,
        decreases i,
    {
        i = i - 1;
        if entries[i].0 == *k {
            return Some(i);
        }
    }
    None
}

/// The environment: the values of names, as an association list.
pub struct Env {
    entries: Vec<(String, Option<Val>)>,
}

impl View for Env {
    type V = Map<Seq<char>, Option<SpecVal>>;

    closed spec fn view(&self) -> Map<Seq<char>, Option<SpecVal>> {
        Map::new(
            |k: Seq<char>| last_index(self.entries@, k) >= 0,
            |k: Seq<char>| opt_val_model(self.entries@[last_index(self.entries@, k)].1),
        )
    }
}

impl Env {
    /// The empty environment.
    pub fn new() -> (r: Env)
        ensures
            r@ == Map::<Seq<char>, Option<SpecVal>>::empty(),
    {
        let r = Env { entries: Vec::new() };
        assert(r@ =~= Map::<Seq<char>, Option<SpecVal>>::empty());
        r
    }

    /// Gives `name` the value `val`, replacing any value it had.
    pub fn insert(&mut self, name: String, val: Option<Val>)
        ensures
            final(self)@ == old(self)@.insert(name@, opt_val_model(val)),
    {
        let ghost old_entries = self.entries@;
        let ghost new_val = opt_val_model(val);
        match find_last(&self.entries, &name) {
            Some(i) => {
                let ghost pair = (name, val);
                self.entries.set(i, (name, val));
                assert(self.entries@ == old_entries.update(i as int, pair));
                assert forall|k: Seq<char>| true implies last_index(self.entries@, k) == last_index(
                    old_entries,
                    k,
                ) && self@.contains_key(k) == old(self)@.insert(name@, new_val).contains_key(k) && (
                self@.contains_key(k) ==> self@[k] == old(self)@.insert(name@, new_val)[k]) by {
                    lemma_last_index(old_entries, name@);
                    lemma_last_index_update(old_entries, i as int, pair, k);
                    lemma_last_index(old_entries, k);
                }
                assert(self@ =~= old(self)@.insert(name@, new_val));
            },
            None => {
                proof {
                    assert forall|k: Seq<char>| true implies last_index(
                        old_entries.push((name, val)),
                        k,
                    ) == if name@ == k {
                        old_entries.len() as int
                    } else {
                        last_index(old_entries, k)
                    } && last_index(old_entries, k) < old_entries.len() by {
                        lemma_last_index_push(old_entries, (name, val), k);
                        lemma_last_index(old_entries, k);
                    }
                }
                self.entries.push((name, val));
                assert(self@ =~= old(self)@.insert(name@, new_val));
            },
        }
    }

    /// The entry of `name`, if it has one.
    pub fn get(&self, name: &String) -> (r: Option<&Option<Val>>)
        ensures
            match r {
                Some(v) => self@.contains_key(name@) && self@[name@] == opt_val_model(*v),
                None => !self@.contains_key(name@),
            },
    {
        match find_last(&self.entries, name) {
            Some(i) => Some(&self.entries[i].1),
            None => None,
        }
    }
}

/// Bindings of parameter names to argument expressions, as an association
/// list.
pub struct Bindings {
    pub entries: Vec<(String, Expr)>,
}

/// The map that an association list of bindings stands for.
pub open spec fn bindings_map(s: Seq<(String, Expr)>) -> Map<Seq<char>, SpecExpr> {
    Map::new(|k: Seq<char>| last_index(s, k) >= 0, |k: Seq<char>| s[last_index(s, k)].1@)
}

/// Appending a binding adds it to the map, replacing any binding of its name.
pub proof fn lemma_bindings_map_push(s: Seq<(String, Expr)>, e: (String, Expr))
    ensures
        bindings_map(s.push(e)) == bindings_map(s).insert(e.0@, e.1@),
{
    assert forall|k: Seq<char>| true implies last_index(s.push(e), k) == if e.0@ == k {
        s.len() as int
    } else {
        last_index(s, k)
    } && last_index(s, k) < s.len() by {
        lemma_last_index_push(s, e, k);
        lemma_last_index(s, k);
    }
    assert(bindings_map(s.push(e)) =~= bindings_map(s).insert(e.0@, e.1@));
}

impl View for Bindings {
    type V = Map<Seq<char>, SpecExpr>;

    open spec fn view(&self) -> Map<Seq<char>, SpecExpr> {
        bindings_map(self.entries@)
    }
}

impl Bindings {
    /// No bindings.
    pub fn new() -> (r: Bindings)
        ensures
            r@ == Map::<Seq<char>, SpecExpr>::empty(),
    {
        let r = Bindings { entries: Vec::new() };
        assert(r@ =~= Map::<Seq<char>, SpecExpr>::empty());
        r
    }

    /// Binds `name` to `e`, replacing any binding of `name`.
    pub fn insert(&mut self, name: String, e: Expr)
        ensures
            final(self)@ == old(self)@.insert(name@, e@),
    {
        proof {
            lemma_bindings_map_push(self.entries@, (name, e));
        }
        self.entries.push((name, e));
    }

    /// The expression bound to `name`, if any.
    pub fn get(&self, name: &String) -> (r: Option<&Expr>)
        ensures
            match r {
                Some(e) => self@.contains_key(name@) && self@[name@] == e@,
                None => !self@.contains_key(name@),
            },
    {
        match find_last(&self.entries, name) {
            Some(i) => Some(&self.entries[i].1),
            None => None,
        }
    }
}

} // verus!
