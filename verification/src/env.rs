//! The variable store: a mapping from name to value, global to one
//! interpreter instance. It is modeled as the ordered association list of
//! its entries; the store keeps one entry per name, the first binding of a
//! name being the one that lookups, updates and removals touch.
use crate::strings::{dup_str, str_eq};
use crate::value::{ValModel, Value};
use vstd::prelude::*;

verus! {

/// The model of the store: the bindings in insertion order.
pub type EnvModel = Seq<(Seq<char>, ValModel)>;

/// The first position at or after `i` holding a binding of `k`, or the
/// length when there is none.
pub open spec fn key_at(m: EnvModel, k: Seq<char>, i: int) -> int
    decreases m.len() - i,
{
    if i < 0 || i >= m.len() {
        m.len() as int
    } else if m[i].0 == k {
        i
    } else {
        key_at(m, k, i + 1)
    }
}

/// The value bound to `k`, if any.
pub open spec fn env_lookup(m: EnvModel, k: Seq<char>) -> Option<ValModel> {
    let i = key_at(m, k, 0);
    if i < m.len() {
        Some(m[i].1)
    } else {
        None
    }
}

/// The store with `k` bound to `v`: the first binding of `k` overwritten,
/// or a new binding appended.
pub open spec fn env_insert(m: EnvModel, k: Seq<char>, v: ValModel) -> EnvModel {
    let i = key_at(m, k, 0);
    if i < m.len() {
        m.update(i, (k, v))
    } else {
        m.push((k, v))
    }
}

/// The store without its first binding of `k`, if it had one.
pub open spec fn env_remove(m: EnvModel, k: Seq<char>) -> EnvModel {
    let i = key_at(m, k, 0);
    if i < m.len() {
        m.subrange(0, i) + m.subrange(i + 1, m.len() as int)
    } else {
        m
    }
}

/// The scan finds no binding of `k` before the position it returns, and a
/// binding of `k` at it when one exists.
pub proof fn lemma_key_at_first(m: EnvModel, k: Seq<char>, i: int)
    requires
        0 <= i <= m.len(),
    ensures
        i <= key_at(m, k, i) <= m.len(),
        forall|j: int| i <= j < key_at(m, k, i) ==> (#[trigger] m[j]).0 != k,
        key_at(m, k, i) < m.len() ==> m[key_at(m, k, i)].0 == k,
    decreases m.len() - i,
{
    if i < m.len() && m[i].0 != k {
        lemma_key_at_first(m, k, i + 1);
    }
}

/// A scan that meets only mismatches up to a binding of `k` stops there.
pub proof fn lemma_key_at_found(m: EnvModel, k: Seq<char>, i: int, at: int)
    requires
        0 <= i <= at < m.len(),
        forall|j: int| i <= j < at ==> (#[trigger] m[j]).0 != k,
        m[at].0 == k,
    ensures
        key_at(m, k, i) == at,
    decreases at - i,
{
    if i < at {
        lemma_key_at_found(m, k, i + 1, at);
    }
}

/// After an insert, the inserted name reads back as the inserted value.
pub proof fn lemma_lookup_insert(m: EnvModel, k: Seq<char>, v: ValModel)
    ensures
        env_lookup(env_insert(m, k, v), k) == Some(v),
{
    let i = key_at(m, k, 0);
    lemma_key_at_first(m, k, 0);
    let m2 = env_insert(m, k, v);
    if i < m.len() {
        assert(m2 == m.update(i, (k, v)));
        assert(forall|j: int| 0 <= j < i ==> (#[trigger] m2[j]).0 != k);
        lemma_key_at_found(m2, k, 0, i);
    } else {
        assert(m2 == m.push((k, v)));
        assert(forall|j: int| 0 <= j < m.len() ==> (#[trigger] m2[j]).0 != k);
        lemma_key_at_found(m2, k, 0, m.len() as int);
    }
}

/// The names of the bindings, in order.
pub open spec fn env_keys(m: EnvModel) -> Seq<Seq<char>> {
    Seq::new(m.len(), |i: int| m[i].0)
}

/// The variable store.
pub struct Env {
    entries: Vec<(String, Value)>,
}

impl Env {
    /// The association-list model of the store.
    pub closed spec fn model(&self) -> EnvModel {
        Seq::new(self.entries@.len(), |i: int| (self.entries@[i].0@, self.entries@[i].1.model()))
    }

    /// An empty store.
    pub fn new() -> (r: Env)
        ensures
            r.model() == Seq::<(Seq<char>, ValModel)>::empty(),
    {
        let e = Env { entries: Vec::new() };
        proof {
            assert(e.model() =~= Seq::<(Seq<char>, ValModel)>::empty());
        }
        e
    }

    /// The position of the first binding of `name`, or the length.
    fn find(&self, name: &str) -> (r: usize)
        ensures
            r == key_at(self.model(), name@, 0),
            r <= self.entries@.len(),
    {
        let ghost m = self.model();
        let mut i: usize = 0;
        loop
            invariant
                i <= self.entries@.len(),
                m == self.model(),
                key_at(m, name@, 0) == key_at(m, name@, i as int),
            decreases self.entries@.len() - i,
        {
            if i >= self.entries.len() {
                return i;
            }
            if str_eq(self.entries[i].0.as_str(), name) {
                proof {
                    assert(m[i as int].0 == name@);
                }
                return i;
            }
            proof {
                assert(m[i as int].0 != name@);
            }
            i = i + 1;
        }
    }

    /// A copy of the value bound to `name`, if any.
    pub fn lookup(&self, name: &str) -> (r: Option<Value>)
        ensures
            match r {
                Some(v) => env_lookup(self.model(), name@) == Some(v.model()),
                None => env_lookup(self.model(), name@) is None,
            },
    {
        let i = self.find(name);
        if i < self.entries.len() {
            Some(self.entries[i].1.duplicate())
        } else {
            None
        }
    }

    /// Binds `name` to `v`, overwriting the first old binding if one exists.
    pub fn insert(&mut self, name: String, v: Value)
        ensures
            final(self).model() == env_insert(old(self).model(), name@, v.model()),
    {
        let i = self.find(name.as_str());
        if i < self.entries.len() {
            self.entries.set(i, (name, v));
            proof {
                assert(self.model() =~= env_insert(old(self).model(), name@, v.model()));
            }
        } else {
            self.entries.push((name, v));
            proof {
                assert(self.model() =~= env_insert(old(self).model(), name@, v.model()));
            }
        }
    }

    /// Removes the first binding of `name`; no effect when there is none.
    pub fn remove(&mut self, name: &str)
        ensures
            final(self).model() == env_remove(old(self).model(), name@),
    {
        let i = self.find(name);
        if i < self.entries.len() {
            self.entries.remove(i);
            proof {
                assert(self.model() =~= env_remove(old(self).model(), name@));
            }
        }
    }

    /// The bound names, in order.
    pub fn keys(&self) -> (r: Vec<String>)
        ensures
            r@.len() == self.model().len(),
            forall|j: int| 0 <= j < r@.len() ==> #[trigger] r@[j]@ == self.model()[j].0,
    {
        let mut out: Vec<String> = Vec::new();
        let mut i: usize = 0;
        while i < self.entries.len()
            invariant
                i <= self.entries@.len(),
                out@.len() == i,
                forall|j: int| 0 <= j < i ==> #[trigger] out@[j]@ == self.model()[j].0,
            decreases self.entries@.len() - i,
        {
            out.push(dup_str(&self.entries[i].0));
            i = i + 1;
        }
        out
    }

    /// How many bindings the store holds.
    pub fn len(&self) -> (r: usize)
        ensures
            r == self.model().len(),
    {
        self.entries.len()
    }

    /// The name and a copy of the value of the binding at `i`.
    pub fn entry_at(&self, i: usize) -> (r: (String, Value))
        requires
            i < self.model().len(),
        ensures
            r.0@ == self.model()[i as int].0,
            r.1.model() == self.model()[i as int].1,
    {
        (dup_str(&self.entries[i].0), self.entries[i].1.duplicate())
    }

    /// A deep copy of the store with the same model.
    pub fn duplicate(&self) -> (r: Env)
        ensures
            r.model() == self.model(),
    {
        let mut out: Vec<(String, Value)> = Vec::new();
        let mut i: usize = 0;
        while i < self.entries.len()
            invariant
                i <= self.entries@.len(),
                out@.len() == i,
                (Env { entries: out }).model() =~= self.model().subrange(0, i as int),
            decreases self.entries@.len() - i,
        {
            let name = dup_str(&self.entries[i].0);
            let v = self.entries[i].1.duplicate();
            out.push((name, v));
            proof {
                assert((Env { entries: out }).model() =~= self.model().subrange(0, i as int + 1));
            }
            i = i + 1;
        }
        proof {
            assert((Env { entries: out }).model() =~= self.model());
        }
        Env { entries: out }
    }
}

} // verus!
