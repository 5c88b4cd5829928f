//! String-keyed tables (`HashMap<String, String>` in configuration).
//!
//! A table keeps its entries in insertion order; [`StrMap::insert`] replaces
//! the value of a key already present, so a key occurs at most once.

use vstd::prelude::*;

use crate::aliases::table_index;
use crate::text::{chars_of, range_eq};

verus! {

/// `(key, value)` entries with unique keys.
#[derive(Debug, Clone, PartialEq, Eq)]
pub struct StrMap {
    pub entries: Vec<(String, String)>,
}

/// The entries of a table by value.
pub open spec fn entries_view(e: Seq<(String, String)>) -> Seq<(Seq<char>, Seq<char>)> {
    e.map_values(|p: (String, String)| (p.0@, p.1@))
}

/// The value stored under `key`, if any.
pub open spec fn table_get(t: Seq<(Seq<char>, Seq<char>)>, key: Seq<char>) -> Option<Seq<char>> {
    match table_index(t, key) {
        Some(i) => Some(t[i].1),
        None => None,
    }
}

/// `HashMap::insert`: replace the value of `key`, or add the entry.
pub open spec fn table_insert(
    t: Seq<(Seq<char>, Seq<char>)>,
    key: Seq<char>,
    value: Seq<char>,
) -> Seq<(Seq<char>, Seq<char>)> {
    match table_index(t, key) {
        Some(i) => t.update(i, (key, value)),
        None => t.push((key, value)),
    }
}

/// Where [`table_index`] points.
pub proof fn lemma_table_index(t: Seq<(Seq<char>, Seq<char>)>, key: Seq<char>)
    ensures
        table_index(t, key) matches Some(i) ==> 0 <= i < t.len() && t[i].0 == key && forall|j: int|
            0 <= j < i ==> t[j].0 != key,
        table_index(t, key) is None ==> forall|j: int| 0 <= j < t.len() ==> t[j].0 != key,
    decreases t.len(),
{
    if t.len() > 0 && t[0].0 != key {
        lemma_table_index(t.drop_first(), key);
        assert forall|j: int| 1 <= j < t.len() implies t[j] == t.drop_first()[j - 1] by {}
    }
}

impl StrMap {
    pub open spec fn view_entries(&self) -> Seq<(Seq<char>, Seq<char>)> {
        entries_view(self.entries@)
    }

    /// An empty table.
    pub fn new() -> (r: Self)
        ensures
            r.view_entries() == Seq::<(Seq<char>, Seq<char>)>::empty(),
    {
        let r = StrMap { entries: Vec::new() };
        proof {
            assert(r.view_entries() =~= Seq::<(Seq<char>, Seq<char>)>::empty());
        }
        r
    }

    /// Number of entries.
    pub fn len(&self) -> (r: usize)
        ensures
            r == self.view_entries().len(),
    {
        self.entries.len()
    }

    /// Position of `key`.
    fn index_of(&self, key: &[char]) -> (r: Option<usize>)
        ensures
            match r {
                Some(i) => i < self.entries@.len() && table_index(self.view_entries(), key@) == Some(i as int),
                None => table_index(self.view_entries(), key@) is None,
            },
    {
        let ghost t = self.view_entries();
        proof {
            lemma_table_index(t, key@);
        }
        let mut i: usize = 0;
        while i < self.entries.len()
            invariant
                i <= self.entries@.len(),
                t == self.view_entries(),
                t.len() == self.entries@.len(),
                forall|j: int| 0 <= j < i ==> t[j].0 != key@,
                table_index(t, key@) matches Some(k) ==> 0 <= k < t.len() && t[k].0 == key@ && forall|j: int|
                    0 <= j < k ==> t[j].0 != key@,
                table_index(t, key@) is None ==> forall|j: int| 0 <= j < t.len() ==> t[j].0 != key@,
            decreases self.entries@.len() - i,
        {
            let kv = chars_of(self.entries[i].0.as_str());
            proof {
                assert(kv@.subrange(0, kv@.len() as int) =~= kv@);
                assert(t[i as int].0 == self.entries@[i as int].0@);
            }
            if range_eq(kv.as_slice(), 0, kv.len(), key) {
                return Some(i);
            }
            i += 1;
        }
        None
    }

    /// `HashMap::get`.
    pub fn get(&self, key: &str) -> (r: Option<&String>)
        ensures
            match r {
                Some(v) => table_get(self.view_entries(), key@) == Some(v@),
                None => table_get(self.view_entries(), key@) is None,
            },
    {
        let kv = chars_of(key);
        match self.index_of(kv.as_slice()) {
            Some(i) => {
                proof {
                    assert(self.view_entries()[i as int].1 == self.entries@[i as int].1@);
                }
                Some(&self.entries[i].1)
            },
            None => None,
        }
    }

    /// `HashMap::insert` (the previous value, if any, is dropped).
    pub fn insert(&mut self, key: &str, value: &str)
        ensures
            final(self).view_entries() == table_insert(old(self).view_entries(), key@, value@),
    {
        let kv = chars_of(key);
        match self.index_of(kv.as_slice()) {
            Some(i) => {
                self.entries.set(i, (String::from_str(key), String::from_str(value)));
                proof {
                    assert(self.view_entries() =~= old(self).view_entries().update(i as int, (key@, value@)));
                }
            },
            None => {
                self.entries.push((String::from_str(key), String::from_str(value)));
                proof {
                    assert(self.view_entries() =~= old(self).view_entries().push((key@, value@)));
                }
            },
        }
    }
}

/// The first entry named `key` is at `i`.
proof fn lemma_table_index_at(t: Seq<(Seq<char>, Seq<char>)>, key: Seq<char>, i: int)
    requires
        0 <= i < t.len(),
        t[i].0 == key,
        forall|j: int| 0 <= j < i ==> t[j].0 != key,
    ensures
        table_index(t, key) == Some(i),
{
    lemma_table_index(t, key);
    match table_index(t, key) {
        Some(k) => {
            if k < i {
                assert(t[k].0 != key);
            } else if k > i {
                assert(t[i].0 != key);
            }
        },
        None => {
            assert(t[i].0 != key);
        },
    }
}

/// No entry is named `key`.
proof fn lemma_table_index_none(t: Seq<(Seq<char>, Seq<char>)>, key: Seq<char>)
    requires
        forall|j: int| 0 <= j < t.len() ==> t[j].0 != key,
    ensures
        table_index(t, key) is None,
{
    lemma_table_index(t, key);
    if let Some(k) = table_index(t, key) {
        assert(t[k].0 == key);
    }
}

/// Reading a key right after writing it gives the written value.
pub proof fn law_get_after_insert(t: Seq<(Seq<char>, Seq<char>)>, key: Seq<char>, value: Seq<char>)
    ensures
        table_get(table_insert(t, key, value), key) == Some(value),
{
    lemma_table_index(t, key);
    let t2 = table_insert(t, key, value);
    match table_index(t, key) {
        Some(i) => {
            assert forall|j: int| 0 <= j < i implies t2[j].0 != key by {
                assert(t2[j] == t[j]);
            }
            lemma_table_index_at(t2, key, i);
        },
        None => {
            assert forall|j: int| 0 <= j < t.len() implies t2[j].0 != key by {
                assert(t2[j] == t[j]);
            }
            lemma_table_index_at(t2, key, t.len() as int);
        },
    }
}

/// Writing a key leaves the value of every other key as it was.
pub proof fn law_insert_keeps_other_keys(
    t: Seq<(Seq<char>, Seq<char>)>,
    key: Seq<char>,
    value: Seq<char>,
    other: Seq<char>,
)
    requires
        other != key,
    ensures
        table_get(table_insert(t, key, value), other) == table_get(t, other),
{
    lemma_table_index(t, key);
    lemma_table_index(t, other);
    let t2 = table_insert(t, key, value);
    assert forall|j: int| 0 <= j < t.len() implies (t2[j].0 == other <==> t[j].0 == other) && (t[j].0 == other ==> t2[j] == t[j]) by {
        match table_index(t, key) {
            Some(i) => {
                if j == i {
                    assert(t[j].0 == key);
                }
            },
            None => {},
        }
    }
    match table_index(t, other) {
        Some(k) => {
            lemma_table_index_at(t2, other, k);
        },
        None => {
            assert forall|j: int| 0 <= j < t2.len() implies t2[j].0 != other by {
                if j >= t.len() {
                    assert(t2[j].0 == key);
                }
            }
            lemma_table_index_none(t2, other);
        },
    }
}

/// Keys occur at most once.
pub open spec fn keys_unique(t: Seq<(Seq<char>, Seq<char>)>) -> bool {
    forall|i: int, j: int| 0 <= i < j < t.len() ==> t[i].0 != t[j].0
}

/// Writing keeps keys unique (a key occurs once, like in a `HashMap`).
pub proof fn law_insert_keeps_keys_unique(t: Seq<(Seq<char>, Seq<char>)>, key: Seq<char>, value: Seq<char>)
    requires
        keys_unique(t),
    ensures
        keys_unique(table_insert(t, key, value)),
{
    lemma_table_index(t, key);
    let t2 = table_insert(t, key, value);
    assert forall|i: int, j: int| 0 <= i < j < t2.len() implies t2[i].0 != t2[j].0 by {
        match table_index(t, key) {
            Some(k) => {
                if i == k {
                    assert(t2[i].0 == t[k].0);
                } else if j == k {
                    assert(t2[j].0 == t[k].0);
                }
            },
            None => {
                if j == t.len() {
                    assert(t2[i] == t[i]);
                }
            },
        }
    }
}

} // verus!
