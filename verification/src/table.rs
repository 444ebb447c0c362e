//! A map from method signatures to values, kept in the order of its keys.

use crate::text::{key_lt, lemma_key_lt_total, lemma_key_lt_transitive, str_eq, str_lt};
use vstd::prelude::*;

verus! {

/// A map from strings to values. Its entries stand in ascending order of
/// their keys, and it is walked in that order.
#[derive(Debug)]
pub struct MethodTable<V> {
    pub entries: Vec<(String, V)>,
}

impl<V: View> View for MethodTable<V> {
    type V = Seq<(Seq<char>, V::V)>;

    open spec fn view(&self) -> Seq<(Seq<char>, V::V)> {
        self.entries@.map_values(|e: (String, V)| (e.0@, e.1@))
    }
}

/// The keys of `t` ascend strictly, so that none occurs twice.
pub open spec fn sorted_by_key<W>(t: Seq<(Seq<char>, W)>) -> bool {
    forall|i: int, j: int| 0 <= i < j < t.len() ==> key_lt(#[trigger] t[i].0, #[trigger] t[j].0)
}

/// The place of `key` in `t`: behind the last entry whose key comes before it.
pub open spec fn insert_pos<W>(t: Seq<(Seq<char>, W)>, key: Seq<char>) -> int
    decreases t.len(),
{
    if t.len() == 0 {
        0
    } else if key_lt(t.last().0, key) {
        t.len() as int
    } else {
        insert_pos(t.drop_last(), key)
    }
}

/// `t` with `key` bound to `value`: in place of the entry that `key` had, or
/// as a new entry at the place of `key`.
pub open spec fn table_insert<W>(t: Seq<(Seq<char>, W)>, key: Seq<char>, value: W) -> Seq<
    (Seq<char>, W),
> {
    let p = insert_pos(t, key);
    if p < t.len() && t[p].0 == key {
        t.update(p, (key, value))
    } else {
        t.insert(p, (key, value))
    }
}

/// The index of the last entry of `t` with the key `key`.
pub open spec fn table_find<W>(t: Seq<(Seq<char>, W)>, key: Seq<char>) -> Option<int>
    decreases t.len(),
{
    if t.len() == 0 {
        None
    } else if t.last().0 == key {
        Some(t.len() - 1)
    } else {
        table_find(t.drop_last(), key)
    }
}

/// The value that `t` binds to `key`.
pub open spec fn table_get<W>(t: Seq<(Seq<char>, W)>, key: Seq<char>) -> Option<W> {
    match table_find(t, key) {
        Some(i) => Some(t[i].1),
        None => None,
    }
}

/// What `table_find` finds is an entry with that key, and where it finds
/// nothing there is none.
pub proof fn lemma_table_find<W>(t: Seq<(Seq<char>, W)>, key: Seq<char>)
    ensures
        match table_find(t, key) {
            Some(i) => 0 <= i < t.len() && t[i].0 == key,
            None => forall|i: int| 0 <= i < t.len() ==> (#[trigger] t[i]).0 != key,
        },
    decreases t.len(),
{
    if t.len() > 0 && t.last().0 != key {
        let shorter = t.drop_last();
        lemma_table_find(shorter, key);
        if table_find(t, key) is None {
            assert forall|i: int| 0 <= i < t.len() implies (#[trigger] t[i]).0 != key by {
                if i < t.len() - 1 {
                    assert(t[i] == shorter[i]);
                }
            }
        }
    }
}

/// In a table with ascending keys, the entry at `i` is the one that is found
/// under its key.
pub proof fn lemma_table_find_sorted<W>(t: Seq<(Seq<char>, W)>, i: int)
    requires
        sorted_by_key(t),
        0 <= i < t.len(),
    ensures
        table_find(t, t[i].0) == Some(i),
{
    lemma_table_find(t, t[i].0);
    let j = table_find(t, t[i].0)->Some_0;
    if i < j {
        assert(key_lt(t[i].0, t[j].0));
    } else if j < i {
        assert(key_lt(t[j].0, t[i].0));
    }
}

/// The place of `key` is an index of `t`, or its length.
pub proof fn lemma_insert_pos_bounds<W>(t: Seq<(Seq<char>, W)>, key: Seq<char>)
    ensures
        0 <= insert_pos(t, key) <= t.len(),
    decreases t.len(),
{
    if t.len() > 0 && !key_lt(t.last().0, key) {
        lemma_insert_pos_bounds(t.drop_last(), key);
    }
}

/// The entries before the place of `key` have keys before `key`, those from
/// it on have not.
pub proof fn lemma_insert_pos<W>(t: Seq<(Seq<char>, W)>, key: Seq<char>)
    requires
        sorted_by_key(t),
    ensures
        0 <= insert_pos(t, key) <= t.len(),
        forall|i: int| 0 <= i < insert_pos(t, key) ==> key_lt((#[trigger] t[i]).0, key),
        forall|i: int| insert_pos(t, key) <= i < t.len() ==> !key_lt((#[trigger] t[i]).0, key),
    decreases t.len(),
{
    if t.len() > 0 {
        if key_lt(t.last().0, key) {
            assert forall|i: int| 0 <= i < t.len() implies key_lt((#[trigger] t[i]).0, key) by {
                if i < t.len() - 1 {
                    assert(key_lt(t[i].0, t[t.len() - 1].0));
                    lemma_key_lt_transitive(t[i].0, t.last().0, key);
                }
            }
        } else {
            let shorter = t.drop_last();
            assert(sorted_by_key(shorter)) by {
                assert forall|i: int, j: int| 0 <= i < j < shorter.len() implies key_lt(
                    #[trigger] shorter[i].0,
                    #[trigger] shorter[j].0,
                ) by {
                    assert(key_lt(t[i].0, t[j].0));
                }
            }
            lemma_insert_pos(shorter, key);
            assert forall|i: int| 0 <= i < insert_pos(t, key) implies key_lt(
                (#[trigger] t[i]).0,
                key,
            ) by {
                assert(t[i] == shorter[i]);
            }
            assert forall|i: int| insert_pos(t, key) <= i < t.len() implies !key_lt(
                (#[trigger] t[i]).0,
                key,
            ) by {
                if i < t.len() - 1 {
                    assert(t[i] == shorter[i]);
                }
            }
        }
    }
}

/// Binding a key keeps the keys in ascending order.
pub proof fn lemma_insert_sorted<W>(t: Seq<(Seq<char>, W)>, key: Seq<char>, value: W)
    requires
        sorted_by_key(t),
    ensures
        sorted_by_key(table_insert(t, key, value)),
{
    lemma_insert_pos(t, key);
    let p = insert_pos(t, key);
    let u = table_insert(t, key, value);
    if p < t.len() && t[p].0 == key {
        assert forall|i: int, j: int| 0 <= i < j < u.len() implies key_lt(
            #[trigger] u[i].0,
            #[trigger] u[j].0,
        ) by {
            assert(key_lt(t[i].0, t[j].0));
        }
    } else {
        assert forall|i: int| p <= i < t.len() implies key_lt(key, (#[trigger] t[i]).0) by {
            if !key_lt(key, t[p].0) {
                lemma_key_lt_total(t[p].0, key);
            }
            if i > p {
                assert(key_lt(t[p].0, t[i].0));
                lemma_key_lt_transitive(key, t[p].0, t[i].0);
            }
        }
        assert forall|i: int, j: int| 0 <= i < j < u.len() implies key_lt(
            #[trigger] u[i].0,
            #[trigger] u[j].0,
        ) by {
            if j < p {
                assert(key_lt(t[i].0, t[j].0));
            } else if j == p {
                assert(key_lt(t[i].0, key));
            } else if i < p {
                assert(key_lt(t[i].0, t[j - 1].0));
            } else if i == p {
                assert(key_lt(key, t[j - 1].0));
            } else {
                assert(key_lt(t[i - 1].0, t[j - 1].0));
            }
        }
    }
}

/// Whether `entry` is one of the entries of `t`.
pub open spec fn in_table<W>(t: Seq<(Seq<char>, W)>, entry: (Seq<char>, W)) -> bool {
    exists|i: int| 0 <= i < t.len() && t[i] == entry
}

/// After a key was bound, every entry of the table is the new one or was
/// there before.
pub proof fn lemma_insert_entries<W>(t: Seq<(Seq<char>, W)>, key: Seq<char>, value: W)
    ensures
        forall|i: int|
            0 <= i < table_insert(t, key, value).len() ==> #[trigger] table_insert(
                t,
                key,
                value,
            )[i] == (key, value) || in_table(t, table_insert(t, key, value)[i]),
{
    let u = table_insert(t, key, value);
    let p = insert_pos(t, key);
    lemma_insert_pos_bounds(t, key);
    assert forall|i: int| 0 <= i < u.len() implies #[trigger] u[i] == (key, value) || in_table(
        t,
        u[i],
    ) by {
        if u[i] != (key, value) {
            let j = if p < t.len() && t[p].0 == key {
                i
            } else if i < p {
                i
            } else {
                i - 1
            };
            assert(t[j] == u[i]);
        }
    }
}

/// A table with ascending keys is a map: after `key` was bound to `value`,
/// `key` is bound to `value`, and every other key is bound as it was.
pub proof fn lemma_insert_get<W>(
    t: Seq<(Seq<char>, W)>,
    key: Seq<char>,
    value: W,
    other: Seq<char>,
)
    requires
        sorted_by_key(t),
    ensures
        table_get(table_insert(t, key, value), other) == if other == key {
            Some(value)
        } else {
            table_get(t, other)
        },
{
    let u = table_insert(t, key, value);
    let p = insert_pos(t, key);
    lemma_insert_pos_bounds(t, key);
    lemma_insert_sorted(t, key, value);
    lemma_table_find(t, other);
    lemma_table_find(u, other);
    let replaced = p < t.len() && t[p].0 == key;
    if other == key {
        assert(u[p] == (key, value));
        lemma_table_find_sorted(u, p);
    } else {
        match table_find(t, other) {
            Some(i) => {
                let j = if replaced || i < p {
                    i
                } else {
                    i + 1
                };
                assert(u[j] == t[i]);
                lemma_table_find_sorted(u, j);
            },
            None => {
                if table_find(u, other) is Some {
                    let j = table_find(u, other)->Some_0;
                    let i = if replaced || j < p {
                        j
                    } else {
                        j - 1
                    };
                    assert(u[j] != (key, value));
                    assert(t[i] == u[j]);
                }
            },
        }
    }
}

impl<V: View> MethodTable<V> {
    /// A table without entries.
    pub fn new() -> (table: Self)
        ensures
            table@ == Seq::<(Seq<char>, V::V)>::empty(),
    {
        let table = MethodTable { entries: Vec::new() };
        assert(table@ =~= Seq::<(Seq<char>, V::V)>::empty());
        table
    }

    /// The number of entries.
    pub fn len(&self) -> (n: usize)
        ensures
            n == self@.len(),
    {
        self.entries.len()
    }

    /// Binds `key` to `value`, in place of what `key` was bound to before.
    pub fn insert(&mut self, key: String, value: V)
        ensures
            final(self)@ == table_insert(old(self)@, key@, value@),
    {
        let ghost t = self@;
        let mut p: usize = self.entries.len();
        assert(t.take(p as int) =~= t);
        while p > 0 && !str_lt(self.entries[p - 1].0.as_str(), key.as_str())
            invariant
                p <= self.entries.len(),
                self@ == t,
                insert_pos(t, key@) == insert_pos(t.take(p as int), key@),
            decreases p,
        {
            assert(t.take(p as int).drop_last() =~= t.take(p - 1));
            assert(t.take(p as int).last() == t[p - 1]);
            p = p - 1;
        }
        proof {
            if p > 0 {
                assert(t.take(p as int).last() == t[p - 1]);
            }
            assert(insert_pos(t, key@) == p);
        }
        if p < self.entries.len() && str_eq(self.entries[p].0.as_str(), key.as_str()) {
            self.entries.set(p, (key, value));
            assert(self@ =~= t.update(p as int, (key@, value@)));
        } else {
            self.entries.insert(p, (key, value));
            assert(self@ =~= t.insert(p as int, (key@, value@)));
        }
    }

    /// The index of the entry with the key `key`.
    pub fn find(&self, key: &str) -> (r: Option<usize>)
        ensures
            match r {
                Some(i) => table_find(self@, key@) == Some(i as int),
                None => table_find(self@, key@) is None,
            },
    {
        let ghost t = self@;
        let mut p: usize = self.entries.len();
        assert(t.take(p as int) =~= t);
        while p > 0
            invariant
                p <= self.entries.len(),
                self@ == t,
                table_find(t, key@) == table_find(t.take(p as int), key@),
            decreases p,
        {
            assert(t.take(p as int).drop_last() =~= t.take(p - 1));
            assert(t.take(p as int).last() == t[p - 1]);
            if str_eq(self.entries[p - 1].0.as_str(), key) {
                return Some(p - 1);
            }
            p = p - 1;
        }
        None
    }

    /// The value that `key` is bound to.
    pub fn get(&self, key: &str) -> (r: Option<&V>)
        ensures
            match r {
                Some(v) => table_get(self@, key@) == Some(v@),
                None => table_get(self@, key@) is None,
            },
    {
        proof {
            lemma_table_find(self@, key@);
        }
        match self.find(key) {
            Some(i) => Some(&self.entries[i].1),
            None => None,
        }
    }
}

} // verus!
