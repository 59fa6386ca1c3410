//! The variable store of one program execution.
//!
//! A store maps variable names to 64-bit signed integers. A name enters the
//! store with its first assignment and is never removed; reading a name that
//! was never assigned is reported as absent, not answered with a default.

use vstd::prelude::*;

verus! {

/// Whether entry `i` of `entries` is the one for the name `key`.
pub open spec fn bound_at(entries: Seq<(String, i64)>, key: Seq<char>, i: int) -> bool {
    0 <= i < entries.len() && entries[i].0@ == key
}

/// No name has two entries.
pub open spec fn distinct_names(entries: Seq<(String, i64)>) -> bool {
    forall|i: int, j: int|
        0 <= i < j < entries.len() ==> (#[trigger] entries[i]).0@ != (#[trigger] entries[j]).0@
}

/// The mapping that a list of entries with distinct names stands for.
pub open spec fn table(entries: Seq<(String, i64)>) -> Map<Seq<char>, i64> {
    Map::new(
        |key: Seq<char>| exists|i: int| bound_at(entries, key, i),
        |key: Seq<char>| entries[choose|i: int| bound_at(entries, key, i)].1,
    )
}

/// An entry's name is bound to that entry's value.
pub proof fn lemma_table_lookup(entries: Seq<(String, i64)>, key: Seq<char>, i: int)
    requires
        distinct_names(entries),
        bound_at(entries, key, i),
    ensures
        table(entries).contains_key(key),
        table(entries)[key] == entries[i].1,
{
    let j = choose|j: int| bound_at(entries, key, j);
    assert(bound_at(entries, key, j));
    if i < j {
        assert(entries[i].0@ != entries[j].0@);
    } else if j < i {
        assert(entries[j].0@ != entries[i].0@);
    }
}

/// Overwriting the value of entry `i` rebinds that entry's name.
pub proof fn lemma_table_update(entries: Seq<(String, i64)>, i: int, name: String, value: i64)
    requires
        distinct_names(entries),
        bound_at(entries, name@, i),
    ensures
        distinct_names(entries.update(i, (name, value))),
        table(entries.update(i, (name, value))) == table(entries).insert(name@, value),
{
    let after = entries.update(i, (name, value));
    assert forall|key: Seq<char>, j: int| bound_at(after, key, j) == bound_at(entries, key, j) by {}
    assert forall|a: int, b: int| 0 <= a < b < after.len() implies (#[trigger] after[a]).0@
        != (#[trigger] after[b]).0@ by {
        assert(entries[a].0@ != entries[b].0@);
    }
    lemma_table_lookup(entries, name@, i);
    assert forall|key: Seq<char>| #[trigger]
        table(after).contains_key(key) == table(entries).insert(name@, value).contains_key(key) by {
        if table(entries).contains_key(key) {
            let j = choose|j: int| bound_at(entries, key, j);
            assert(bound_at(after, key, j));
        }
        if table(after).contains_key(key) {
            let j = choose|j: int| bound_at(after, key, j);
            assert(bound_at(entries, key, j));
        }
    }
    assert forall|key: Seq<char>| #[trigger]
        table(after).contains_key(key) implies table(after)[key] == table(entries).insert(
        name@,
        value,
    )[key] by {
        let j = choose|j: int| bound_at(after, key, j);
        assert(bound_at(after, key, j));
        assert(bound_at(entries, key, j));
        lemma_table_lookup(after, key, j);
        lemma_table_lookup(entries, key, j);
        if key == name@ {
            lemma_table_lookup(after, key, i);
        } else {
            assert(j != i);
        }
    }
    assert(table(after) =~= table(entries).insert(name@, value));
}

/// Appending an entry for a name that has none binds that name.
pub proof fn lemma_table_push(entries: Seq<(String, i64)>, name: String, value: i64)
    requires
        distinct_names(entries),
        forall|i: int| !bound_at(entries, name@, i),
    ensures
        distinct_names(entries.push((name, value))),
        table(entries.push((name, value))) == table(entries).insert(name@, value),
{
    let after = entries.push((name, value));
    let last = entries.len() as int;
    assert forall|a: int, b: int| 0 <= a < b < after.len() implies (#[trigger] after[a]).0@
        != (#[trigger] after[b]).0@ by {
        if b < last {
            assert(entries[a].0@ != entries[b].0@);
        } else {
            assert(!bound_at(entries, name@, a));
        }
    }
    assert(bound_at(after, name@, last));
    lemma_table_lookup(after, name@, last);
    assert forall|key: Seq<char>| #[trigger]
        table(after).contains_key(key) == table(entries).insert(name@, value).contains_key(key) by {
        if table(entries).contains_key(key) {
            let j = choose|j: int| bound_at(entries, key, j);
            assert(bound_at(after, key, j));
        }
        if table(after).contains_key(key) && key != name@ {
            let j = choose|j: int| bound_at(after, key, j);
            assert(bound_at(entries, key, j));
        }
    }
    assert forall|key: Seq<char>| #[trigger]
        table(after).contains_key(key) implies table(after)[key] == table(entries).insert(
        name@,
        value,
    )[key] by {
        if key != name@ {
            let j = choose|j: int| bound_at(after, key, j);
            assert(bound_at(after, key, j));
            assert(bound_at(entries, key, j));
            lemma_table_lookup(after, key, j);
            lemma_table_lookup(entries, key, j);
        }
    }
    assert(table(after) =~= table(entries).insert(name@, value));
}

/// The bindings of one program execution.
#[derive(Debug)]
pub struct State {
    entries: Vec<(String, i64)>,
}

impl View for State {
    type V = Map<Seq<char>, i64>;

    /// The store as a mapping from names to values.
    closed spec fn view(&self) -> Map<Seq<char>, i64> {
        table(self.entries@)
    }
}

impl State {
    /// The store's invariant: no name is bound twice. Every store that this
    /// module hands out meets it, and every operation keeps it.
    pub closed spec fn wf(&self) -> bool {
        distinct_names(self.entries@)
    }

    /// The store in which no name is bound.
    pub fn new() -> (state: Self)
        ensures
            state.wf(),
            state@ == Map::<Seq<char>, i64>::empty(),
    {
        let state = State { entries: Vec::new() };
        assert(state@ =~= Map::<Seq<char>, i64>::empty());
        state
    }

    /// The value bound to `name`, or `None` where nothing was assigned to it.
    pub fn get(&self, name: &String) -> (value: Option<i64>)
        requires
            self.wf(),
        ensures
            self@.contains_key(name@) ==> value == Some(self@[name@]),
            !self@.contains_key(name@) ==> value.is_none(),
    {
        let mut i: usize = 0;
        while i < self.entries.len()
            invariant
                i <= self.entries.len(),
                distinct_names(self.entries@),
                forall|j: int| 0 <= j < i ==> !bound_at(self.entries@, name@, j),
            decreases self.entries.len() - i,
        {
            if self.entries[i].0 == *name {
                proof {
                    lemma_table_lookup(self.entries@, name@, i as int);
                }
                return Some(self.entries[i].1);
            }
            i += 1;
        }
        None
    }

    /// Binds `name` to `value`, replacing what was bound to it before.
    pub fn set(&mut self, name: String, value: i64)
        requires
            old(self).wf(),
        ensures
            final(self).wf(),
            final(self)@ == old(self)@.insert(name@, value),
    {
        let mut i: usize = 0;
        while i < self.entries.len()
            invariant
                i <= self.entries.len(),
                *self == *old(self),
                distinct_names(self.entries@),
                forall|j: int| 0 <= j < i ==> !bound_at(self.entries@, name@, j),
            decreases self.entries.len() - i,
        {
            if self.entries[i].0 == name {
                proof {
                    lemma_table_update(self.entries@, i as int, name, value);
                }
                self.entries.set(i, (name, value));
                return ;
            }
            i += 1;
        }
        proof {
            lemma_table_push(self.entries@, name, value);
        }
        self.entries.push((name, value));
    }

    /// Every binding of the store as a list of names and values, each name
    /// once.
    pub fn bindings(&self) -> (out: Vec<(String, i64)>)
        requires
            self.wf(),
        ensures
            distinct_names(out@),
            table(out@) == self@,
    {
        let mut out: Vec<(String, i64)> = Vec::new();
        let mut i: usize = 0;
        while i < self.entries.len()
            invariant
                i <= self.entries.len(),
                out@ == self.entries@.subrange(0, i as int),
            decreases self.entries.len() - i,
        {
            out.push((self.entries[i].0.clone(), self.entries[i].1));
            i += 1;
            assert(out@ =~= self.entries@.subrange(0, i as int));
        }
        assert(out@ =~= self.entries@);
        out
    }
}

} // verus!
