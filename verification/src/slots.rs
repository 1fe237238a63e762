//! Values by name.
use crate::text;
use vstd::prelude::*;
use vstd::string::*;

verus! {

/// The value of the first entry with the name.
spec fn lookup<T>(entries: Seq<(String, T)>, name: Seq<char>) -> Option<T>
    decreases entries.len(),
{
    if entries.len() == 0 {
        None
    } else if entries[0].0@ == name {
        Some(entries[0].1)
    } else {
        lookup(entries.drop_first(), name)
    }
}

proof fn lemma_absent<T>(entries: Seq<(String, T)>, name: Seq<char>)
    requires
        forall|k: int| 0 <= k < entries.len() ==> (#[trigger] entries[k]).0@ != name,
    ensures
        lookup(entries, name) == None::<T>,
    decreases entries.len(),
{
    if entries.len() > 0 {
        let t = entries.drop_first();
        assert forall|k: int| 0 <= k < t.len() implies (#[trigger] t[k]).0@ != name by {
            assert(t[k] == entries[k + 1]);
        }
        lemma_absent(t, name);
        assert(entries[0].0@ != name);
    }
}

proof fn lemma_first<T>(entries: Seq<(String, T)>, name: Seq<char>, p: int)
    requires
        0 <= p < entries.len(),
        entries[p].0@ == name,
        forall|k: int| 0 <= k < p ==> (#[trigger] entries[k]).0@ != name,
    ensures
        lookup(entries, name) == Some(entries[p].1),
    decreases entries.len(),
{
    if p > 0 {
        let t = entries.drop_first();
        assert forall|k: int| 0 <= k < p - 1 implies (#[trigger] t[k]).0@ != name by {
            assert(t[k] == entries[k + 1]);
        }
        lemma_first(t, name, p - 1);
        assert(entries[0].0@ != name);
    }
}

/// The entries of other names do not matter.
proof fn lemma_update<T>(entries: Seq<(String, T)>, p: int, e: (String, T), name: Seq<char>)
    requires
        0 <= p < entries.len(),
        e.0@ == entries[p].0@,
        e.0@ != name,
    ensures
        lookup(entries.update(p, e), name) == lookup(entries, name),
    decreases entries.len(),
{
    let u = entries.update(p, e);
    if p == 0 {
        assert(u.drop_first() =~= entries.drop_first());
    } else {
        assert(u.drop_first() =~= entries.drop_first().update(p - 1, e));
        assert(u[0] == entries[0]);
        lemma_update(entries.drop_first(), p - 1, e, name);
    }
}

proof fn lemma_push<T>(entries: Seq<(String, T)>, e: (String, T), name: Seq<char>)
    ensures
        lookup(entries.push(e), name) == (match lookup(entries, name) {
            Some(v) => Some(v),
            None => if e.0@ == name {
                Some(e.1)
            } else {
                None
            },
        }),
    decreases entries.len(),
{
    let u = entries.push(e);
    if entries.len() > 0 {
        assert(u.drop_first() =~= entries.drop_first().push(e));
        assert(u[0] == entries[0]);
        lemma_push(entries.drop_first(), e, name);
    } else {
        assert(u[0] == e);
        assert(u.drop_first() =~= Seq::<(String, T)>::empty());
        assert(lookup(u.drop_first(), name) == None::<T>);
    }
}

proof fn lemma_remove<T>(entries: Seq<(String, T)>, p: int, name: Seq<char>)
    requires
        0 <= p < entries.len(),
        entries[p].0@ != name,
    ensures
        lookup(entries.remove(p), name) == lookup(entries, name),
    decreases entries.len(),
{
    let u = entries.remove(p);
    if p == 0 {
        assert(u =~= entries.drop_first());
    } else {
        assert(u.drop_first() =~= entries.drop_first().remove(p - 1));
        assert(u[0] == entries[0]);
        lemma_remove(entries.drop_first(), p - 1, name);
    }
}

/// Values by name.
pub struct Slots<T> {
    entries: Vec<(String, T)>,
}

impl<T> Slots<T> {
    /// The value under a name.
    pub closed spec fn at(self, name: Seq<char>) -> Option<T> {
        lookup(self.entries@, name)
    }

    pub fn new() -> (r: Slots<T>)
        ensures
            forall|name: Seq<char>| #[trigger] r.at(name) == None::<T>,
    {
        Slots { entries: Vec::new() }
    }

    fn position(&self, name: &str) -> (r: usize)
        ensures
            r <= self.entries@.len(),
            r < self.entries@.len() ==> self.entries@[r as int].0@ == name@ && self.at(name@)
                == Some(self.entries@[r as int].1),
            r == self.entries@.len() ==> self.at(name@) == None::<T>,
            forall|k: int| 0 <= k < r ==> (#[trigger] self.entries@[k]).0@ != name@,
    {
        let mut i: usize = 0;
        while i < self.entries.len() && !text::same(self.entries[i].0.as_str(), name)
            invariant
                i <= self.entries@.len(),
                forall|k: int| 0 <= k < i ==> (#[trigger] self.entries@[k]).0@ != name@,
            decreases self.entries@.len() - i,
        {
            i += 1;
        }
        proof {
            if i < self.entries@.len() {
                lemma_first(self.entries@, name@, i as int);
            } else {
                lemma_absent(self.entries@, name@);
            }
        }
        i
    }

    pub fn get(&self, name: &str) -> (r: Option<&T>)
        ensures
            match self.at(name@) {
                Some(v) => r == Some(&v),
                None => r is None,
            },
    {
        let i: usize = self.position(name);
        if i < self.entries.len() {
            Some(&self.entries[i].1)
        } else {
            None
        }
    }

    pub fn put(&mut self, name: &str, value: T)
        ensures
            final(self).at(name@) == Some(value),
            forall|other: Seq<char>|
                other != name@ ==> #[trigger] final(self).at(other) == old(self).at(other),
    {
        let i: usize = self.position(name);
        let ghost entries = self.entries@;
        if i < self.entries.len() {
            self.entries[i].1 = value;
            proof {
                let e = self.entries@[i as int];
                assert(self.entries@ =~= entries.update(i as int, e));
                assert forall|k: int| 0 <= k < i implies (#[trigger] self.entries@[k]).0@
                    != name@ by {
                    assert(self.entries@[k] == entries[k]);
                }
                lemma_first(self.entries@, name@, i as int);
                assert forall|other: Seq<char>| other != name@ implies #[trigger] self.at(other)
                    == old(self).at(other) by {
                    lemma_update(entries, i as int, e, other);
                }
            }
        } else {
            let e = (name.to_owned(), value);
            let ghost pushed = e;
            self.entries.push(e);
            proof {
                lemma_push(entries, pushed, name@);
                assert forall|other: Seq<char>| other != name@ implies #[trigger] self.at(other)
                    == old(self).at(other) by {
                    lemma_push(entries, pushed, other);
                }
            }
        }
    }

    pub fn remove(&mut self, name: &str)
        ensures
            final(self).at(name@) == None::<T>,
            forall|other: Seq<char>|
                other != name@ ==> #[trigger] final(self).at(other) == old(self).at(other),
    {
        let mut i: usize = self.position(name);
        while i < self.entries.len()
            invariant
                i <= self.entries@.len(),
                i < self.entries@.len() ==> self.entries@[i as int].0@ == name@,
                i == self.entries@.len() ==> self.at(name@) == None::<T>,
                forall|other: Seq<char>|
                    other != name@ ==> #[trigger] self.at(other) == old(self).at(other),
            decreases self.entries@.len(),
        {
            let ghost entries = self.entries@;
            let ghost before = *self;
            let removed = self.entries.remove(i);
            proof {
                assert(self.entries@ =~= entries.remove(i as int));
                assert forall|other: Seq<char>| other != name@ implies #[trigger] self.at(other)
                    == old(self).at(other) by {
                    lemma_remove(entries, i as int, other);
                    assert(before.at(other) == old(self).at(other));
                }
            }
            i = self.position(name);
        }
    }
}

} // verus!
